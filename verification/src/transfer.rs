//! How resources move: the byte ranges of a parallel download, the parts
//! of a multipart upload, when a failed part upload is retried, and the
//! names of temporary files.

use vstd::prelude::*;
use crate::text::{
    decimal_chars, decimal_chars_wide, decimal_digits, padded_hex, parse_u64, parse_u64_chars, push_chars,
    push_padded_hex, push_signed_decimal, push_str_chars, signed_decimal, string_from_chars,
};

verus! {

/// Bytes per range request of a parallel download.
pub const DOWNLOAD_CHUNK_SIZE: u64 = 52428800;

/// Maximum number of parallel download connections.
pub const DOWNLOAD_MAX_FILES: usize = 16;

/// Files of at least this size are uploaded in parts.
pub const MULTIPART_THRESHOLD: u64 = 104857600;

/// Bytes per part of a multipart upload.
pub const MULTIPART_CHUNK_SIZE: u64 = 52428800;

/// Maximum number of parallel part uploads.
pub const UPLOAD_MAX_PARALLEL: usize = 8;

/// Attempts per part upload.
pub const UPLOAD_MAX_RETRIES: u32 = 5;

/// The number of ranges that cover `size` bytes.
pub open spec fn range_count(size: nat) -> nat {
    if size == 0 {
        0
    } else {
        ((size - 1) as nat / DOWNLOAD_CHUNK_SIZE as nat) + 1
    }
}

/// Range `k` of a `size`-byte download: its index, first byte and last byte.
pub open spec fn range_at(size: nat, k: nat) -> (usize, u64, u64) {
    let start = k * DOWNLOAD_CHUNK_SIZE;
    let end: int = if start + DOWNLOAD_CHUNK_SIZE < size { start + DOWNLOAD_CHUNK_SIZE } else { size as int };
    (k as usize, start as u64, (end - 1) as u64)
}

/// The ranges of a `size`-byte download fit the counters.
pub open spec fn ranges_fit(size: nat) -> bool {
    size > 0 ==> {
        &&& ((size - 1) as nat / DOWNLOAD_CHUNK_SIZE as nat) * DOWNLOAD_CHUNK_SIZE + DOWNLOAD_CHUNK_SIZE <= u64::MAX
        &&& range_count(size) <= usize::MAX
    }
}

/// The byte ranges that cover a `size`-byte resource, in order: chunks of
/// `DOWNLOAD_CHUNK_SIZE` bytes, the last one shorter when the size is not
/// a multiple of it.
pub fn download_ranges(size: u64) -> (ranges: Vec<(usize, u64, u64)>)
    requires
        ranges_fit(size as nat),
    ensures
        ranges@.len() == range_count(size as nat),
        forall|k: int| 0 <= k < ranges@.len() ==> #[trigger] ranges@[k] == range_at(size as nat, k as nat),
{
    let mut ranges: Vec<(usize, u64, u64)> = Vec::new();
    let mut start: u64 = 0;
    let mut index: usize = 0;
    let ghost c = DOWNLOAD_CHUNK_SIZE as nat;
    let ghost last: nat = if size == 0 { 0 } else { ((size - 1) as nat / c) as nat };
    proof {
        if size > 0 {
            assert(last * c <= size - 1 < last * c + c) by (nonlinear_arith)
                requires
                    last == (size - 1) as nat / c,
                    c > 0,
                    size >= 1,
            ;
        }
    }
    while start < size
        invariant
            ranges_fit(size as nat),
            c == DOWNLOAD_CHUNK_SIZE,
            size > 0 ==> last * c <= size - 1 < last * c + c,
            size > 0 ==> last == (size - 1) as nat / c,
            start < size ==> start == index * c && index <= last,
            start >= size ==> start == size && index == range_count(size as nat),
            ranges@.len() == index,
            forall|k: int| 0 <= k < ranges@.len() ==> #[trigger] ranges@[k] == range_at(size as nat, k as nat),
        decreases size - start,
    {
        proof {
            assert(index * c <= last * c) by (nonlinear_arith)
                requires
                    index <= last,
            ;
            assert((index + 1) * c == index * c + c) by (nonlinear_arith);
        }
        let next = start + DOWNLOAD_CHUNK_SIZE;
        let end = if next < size { next } else { size } - 1;
        ranges.push((index, start, end));
        proof {
            assert(ranges@[index as int] == range_at(size as nat, index as nat));
            if next < size {
                assert(index + 1 <= last) by (nonlinear_arith)
                    requires
                        (index + 1) * c < size,
                        last * c <= size - 1 < last * c + c,
                        c > 0,
                ;
            } else {
                assert(index == last) by (nonlinear_arith)
                    requires
                        index * c < size,
                        size <= index * c + c,
                        last * c <= size - 1 < last * c + c,
                        c > 0,
                ;
            }
        }
        start = end + 1;
        index = index + 1;
    }
    ranges
}

/// The ranges of a download cover the resource exactly: the first starts
/// at byte zero, each starts right after the one before, the last ends at
/// the last byte, and none is empty or longer than a chunk.
pub proof fn lemma_ranges_cover(size: nat)
    requires
        size > 0,
        ranges_fit(size),
    ensures
        range_count(size) >= 1,
        range_at(size, 0).1 == 0,
        range_at(size, (range_count(size) - 1) as nat).2 == size - 1,
        forall|k: nat| k + 1 < range_count(size) ==> #[trigger] range_at(size, k + 1).1 == range_at(size, k).2 + 1,
        forall|k: nat|
            k < range_count(size) ==> #[trigger] range_at(size, k).1 <= range_at(size, k).2 && range_at(size, k).2
                - range_at(size, k).1 < DOWNLOAD_CHUNK_SIZE,
{
    let c = DOWNLOAD_CHUNK_SIZE as nat;
    let n = range_count(size);
    let last = ((size - 1) as nat / c) as nat;
    assert(last * c <= size - 1 < last * c + c) by (nonlinear_arith)
        requires
            last == (size - 1) as nat / c,
            c > 0,
            size >= 1,
    ;
    assert forall|k: nat| k + 1 < n implies #[trigger] range_at(size, k + 1).1 == range_at(size, k).2 + 1 by {
        assert(k * c + c <= last * c) by (nonlinear_arith)
            requires
                k + 1 <= last,
        ;
        assert((k + 1) * c == k * c + c) by (nonlinear_arith);
    }
    assert forall|k: nat| k < n implies #[trigger] range_at(size, k).1 <= range_at(size, k).2 && range_at(size, k).2
        - range_at(size, k).1 < DOWNLOAD_CHUNK_SIZE by {
        assert(k * c <= last * c) by (nonlinear_arith)
            requires
                k <= last,
        ;
    }
}

/// The number of parts of a multipart upload of `file_size` bytes.
pub open spec fn part_count_of(file_size: nat) -> nat {
    (file_size + MULTIPART_CHUNK_SIZE - 1) as nat / MULTIPART_CHUNK_SIZE as nat
}

/// Whether a file of `file_size` bytes is uploaded in parts.
pub fn uses_multipart(file_size: u64) -> (r: bool)
    ensures
        r == (file_size >= MULTIPART_THRESHOLD),
{
    file_size >= MULTIPART_THRESHOLD
}

/// The number of parts of a multipart upload: the file size divided by the
/// part size, rounded up.
pub fn multipart_part_count(file_size: u64) -> (n: u64)
    ensures
        n == part_count_of(file_size as nat),
{
    let whole = file_size / MULTIPART_CHUNK_SIZE;
    let rest = file_size % MULTIPART_CHUNK_SIZE;
    let n = if rest == 0 { whole } else { whole + 1 };
    proof {
        let c = MULTIPART_CHUNK_SIZE as nat;
        assert(file_size == whole * c + rest) by (nonlinear_arith)
            requires
                whole == file_size as nat / c,
                rest == file_size as nat % c,
                c > 0,
        ;
        if rest == 0 {
            assert((file_size + c - 1) as nat / c == whole) by (nonlinear_arith)
                requires
                    file_size == whole * c,
                    c > 0,
            ;
        } else {
            assert((file_size + c - 1) as nat / c == whole + 1) by (nonlinear_arith)
                requires
                    file_size == whole * c + rest,
                    0 < rest < c,
            ;
        }
    }
    n
}

/// The byte offset where part `index` of a multipart upload starts.
pub fn part_offset(index: u64) -> (offset: u64)
    requires
        index * MULTIPART_CHUNK_SIZE <= u64::MAX,
    ensures
        offset == index * MULTIPART_CHUNK_SIZE,
{
    index * MULTIPART_CHUNK_SIZE
}

/// The HTTP statuses on which a part upload is tried again.
pub open spec fn is_retryable_status(status: u16) -> bool {
    status == 400 || status == 408 || status == 429 || status == 500 || status == 502 || status == 503
        || status == 504
}

/// Whether a part upload that failed with `status` is tried again.
pub fn retryable_status(status: u16) -> (r: bool)
    ensures
        r == is_retryable_status(status),
{
    let codes: [u16; 7] = [400, 408, 429, 500, 502, 503, 504];
    let mut i: usize = 0;
    while i < 7
        invariant
            i <= 7,
            codes@ == seq![400u16, 408, 429, 500, 502, 503, 504],
            forall|j: int| 0 <= j < i ==> codes@[j] != status,
        decreases 7 - i,
    {
        if codes[i] == status {
            return true;
        }
        i = i + 1;
    }
    false
}

/// How one attempt at uploading a part ended.
#[derive(Debug, Clone, PartialEq, Eq)]
pub enum UploadOutcome {
    /// The part was stored; the server returned this entity tag.
    Uploaded(String),
    /// The server answered with this unsuccessful status.
    Status(u16),
    /// The request failed before any answer.
    Transport,
}

/// What to do after an attempt at uploading a part.
#[derive(Debug, Clone, PartialEq, Eq)]
pub enum UploadAction {
    /// Return the entity tag.
    Done(String),
    /// Give up with the attempt's error.
    Fail,
    /// Wait this many seconds, then try again.
    RetryAfter(u64),
}

/// Whether an outcome may be retried.
pub open spec fn retryable_outcome(outcome: UploadOutcome) -> bool {
    match outcome {
        UploadOutcome::Uploaded(_) => false,
        UploadOutcome::Status(s) => is_retryable_status(s),
        UploadOutcome::Transport => true,
    }
}

/// Decides what follows attempt `attempt` (zero-based) of a part upload
/// with `max_retries` attempts in all: a stored part is done; a failure
/// that is not retryable, or that ends the last attempt, fails; any other
/// failure waits `2^attempt` seconds and tries again.
pub fn upload_next_step(attempt: u32, max_retries: u32, outcome: UploadOutcome) -> (action: UploadAction)
    requires
        max_retries >= 1,
        attempt + 1 < max_retries ==> attempt < 64,
    ensures
        match outcome {
            UploadOutcome::Uploaded(etag) => action == UploadAction::Done(etag),
            _ => if retryable_outcome(outcome) && attempt + 1 < max_retries {
                action == UploadAction::RetryAfter(vstd::arithmetic::power2::pow2(attempt as nat) as u64)
            } else {
                action == UploadAction::Fail
            },
        },
{
    match outcome {
        UploadOutcome::Uploaded(etag) => UploadAction::Done(etag),
        UploadOutcome::Status(status) => {
            if !retryable_status(status) || attempt >= max_retries - 1 {
                UploadAction::Fail
            } else {
                UploadAction::RetryAfter(backoff(attempt))
            }
        },
        UploadOutcome::Transport => {
            if attempt >= max_retries - 1 {
                UploadAction::Fail
            } else {
                UploadAction::RetryAfter(backoff(attempt))
            }
        },
    }
}

/// `2^attempt`.
fn backoff(attempt: u32) -> (r: u64)
    requires
        attempt < 64,
    ensures
        r == vstd::arithmetic::power2::pow2(attempt as nat),
{
    proof {
        vstd::arithmetic::power2::lemma2_to64();
    }
    let mut r: u64 = 1;
    let mut i: u32 = 0;
    while i < attempt
        invariant
            i <= attempt < 64,
            r == vstd::arithmetic::power2::pow2(i as nat),
            vstd::arithmetic::power2::pow2(64) == 0x1_0000_0000_0000_0000,
        decreases attempt - i,
    {
        proof {
            vstd::arithmetic::power2::lemma_pow2_unfold((i + 1) as nat);
            if i + 1 < 64 {
                vstd::arithmetic::power2::lemma_pow2_strictly_increases((i + 1) as nat, 64);
            }
        }
        r = r * 2;
        i = i + 1;
    }
    r
}

/// What comes after the last `/` of `s` (all of `s` when it holds none).
pub open spec fn after_last_slash(s: Seq<char>) -> Seq<char>
    decreases s.len(),
{
    if s.len() == 0 {
        s
    } else if s.last() == '/' {
        Seq::empty()
    } else {
        after_last_slash(s.drop_last()).push(s.last())
    }
}

/// The total size in a `Content-Range` header value (`bytes 0-0/1234`):
/// what follows the last `/`, read as a `u64`.
pub fn content_range_total(header: &str) -> (r: Option<u64>)
    ensures
        match r {
            Some(n) => parse_u64(after_last_slash(header@)) == Some(n as int),
            None => parse_u64(after_last_slash(header@)) is None,
        },
{
    let v = crate::text::chars_of(header);
    let mut i: usize = v.len();
    assert(v@.take(v.len() as int) =~= v@);
    assert(after_last_slash(v@) =~= after_last_slash(v@.take(i as int)) + v@.subrange(i as int, v.len() as int));
    while i > 0 && v[i - 1] != '/'
        invariant
            i <= v.len(),
            after_last_slash(v@) == after_last_slash(v@.take(i as int)) + v@.subrange(i as int, v.len() as int),
        decreases i,
    {
        proof {
            let t = v@.take(i as int);
            assert(t.drop_last() =~= v@.take(i - 1));
            assert(v@.subrange(i - 1, v.len() as int) =~= seq![t.last()] + v@.subrange(i as int, v.len() as int));
            assert(after_last_slash(t) =~= after_last_slash(t.drop_last()).push(t.last()));
            assert(after_last_slash(t.drop_last()).push(t.last()) + v@.subrange(i as int, v.len() as int)
                =~= after_last_slash(t.drop_last()) + v@.subrange(i - 1, v.len() as int));
        }
        i = i - 1;
    }
    proof {
        if i == 0 {
            assert(v@.take(0) =~= Seq::<char>::empty());
        } else {
            assert(v@.take(i as int).last() == '/');
        }
        assert(after_last_slash(v@) =~= v@.subrange(i as int, v.len() as int));
        assert(v@.take(v.len() as int) =~= v@);
    }
    assert(v@ == header@);
    parse_u64_chars(&v, i, v.len())
}

/// `.{name}.{nonce}.part`: the temporary file a download writes before it
/// moves into place; `resource` stands for a missing file name.
pub open spec fn download_temp_name_spec(file_name: Option<Seq<char>>, nonce: nat) -> Seq<char> {
    let name = match file_name {
        Some(n) => n,
        None => "resource"@,
    };
    "."@ + name + "."@ + decimal_digits(nonce) + ".part"@
}

/// The name of the temporary file that a download writes before moving it
/// into place.
pub fn download_temp_name(file_name: Option<&str>, nonce: u128) -> (r: String)
    ensures
        r@ == download_temp_name_spec(
            match file_name {
                Some(n) => Some(n@),
                None => None,
            },
            nonce as nat,
        ),
{
    let mut out: Vec<char> = Vec::new();
    push_str_chars(&mut out, ".");
    match file_name {
        Some(n) => push_str_chars(&mut out, n),
        None => push_str_chars(&mut out, "resource"),
    }
    push_str_chars(&mut out, ".");
    let digits = decimal_chars_wide(nonce);
    push_chars(&mut out, &digits);
    push_str_chars(&mut out, ".part");
    string_from_chars(out.as_slice())
}

/// `.{name}.part{index}`: the file that range `index` of a parallel
/// download goes to.
pub fn part_file_name(file_name: Option<&str>, index: usize) -> (r: String)
    ensures
        r@ == "."@ + match file_name {
            Some(n) => n@,
            None => "resource"@,
        } + ".part"@ + decimal_digits(index as nat),
{
    let mut out: Vec<char> = Vec::new();
    push_str_chars(&mut out, ".");
    match file_name {
        Some(n) => push_str_chars(&mut out, n),
        None => push_str_chars(&mut out, "resource"),
    }
    push_str_chars(&mut out, ".part");
    let digits = decimal_chars(index as u64);
    push_chars(&mut out, &digits);
    string_from_chars(out.as_slice())
}

/// The URL of an uploaded resource with SHA-256 digest `hash`.
pub fn resource_url(hash: &str) -> (r: String)
    ensures
        r@ == "https://cdn.fxn.ai/resources/"@ + hash@,
{
    let mut out: Vec<char> = Vec::new();
    push_str_chars(&mut out, "https://cdn.fxn.ai/resources/");
    push_str_chars(&mut out, hash);
    string_from_chars(out.as_slice())
}

/// The lowercase hexadecimal rendering of `bytes`, two digits per byte.
pub open spec fn hex_bytes(bytes: Seq<u8>) -> Seq<char>
    decreases bytes.len(),
{
    if bytes.len() == 0 {
        Seq::empty()
    } else {
        hex_bytes(bytes.drop_last()) + padded_hex(bytes.last() as nat, 2)
    }
}

/// The lowercase hexadecimal rendering of a digest (`{:x}`).
pub fn hex_lower(bytes: &[u8]) -> (r: String)
    ensures
        r@ == hex_bytes(bytes@),
{
    let mut out: Vec<char> = Vec::new();
    let mut i: usize = 0;
    assert(bytes@.take(0) =~= Seq::<u8>::empty());
    while i < bytes.len()
        invariant
            i <= bytes.len(),
            out@ == hex_bytes(bytes@.take(i as int)),
        decreases bytes.len() - i,
    {
        assert(bytes@.take(i + 1).drop_last() =~= bytes@.take(i as int));
        push_padded_hex(&mut out, bytes[i] as u64, 2);
        i = i + 1;
    }
    assert(bytes@.take(bytes.len() as int) =~= bytes@);
    string_from_chars(out.as_slice())
}

/// The identifier made from a timestamp in nanoseconds: the low 64 bits of
/// `t ^ (t >> 32)` as sixteen hexadecimal digits.
pub fn uuid_from_nanos(t: u128) -> (r: String)
    ensures
        r@ == padded_hex((t ^ (t >> 32u128)) as u64 as nat, 16),
{
    let mixed: u64 = (t ^ (t >> 32u128)) as u64;
    let mut out: Vec<char> = Vec::new();
    push_padded_hex(&mut out, mixed, 16);
    string_from_chars(out.as_slice())
}

/// Seconds since the epoch as an `i64`, at most `i64::MAX`.
pub fn unix_seconds(secs: u64) -> (r: i64)
    ensures
        r == if secs <= i64::MAX { secs as int } else { i64::MAX as int },
{
    if secs <= 9223372036854775807u64 {
        secs as i64
    } else {
        i64::MAX
    }
}

/// A timestamp in seconds as decimal text.
pub fn timestamp_text(secs: i64) -> (r: String)
    ensures
        r@ == signed_decimal(secs as int),
{
    let mut out: Vec<char> = Vec::new();
    push_signed_decimal(&mut out, secs);
    string_from_chars(out.as_slice())
}

} // verus!
