//! Values sent to and received from remote predictions: base64 data URLs,
//! and which decoder reads each data type.

use vstd::prelude::*;
use crate::dtype::{is_tensor, is_tensor_dtype, Dtype};
use crate::error::MunaError;
use crate::models::owned;
use crate::text::{chars_of, lacks, push_str_chars, push_string_chars, starts_with, string_from_chars, sub_chars};
use crate::types::RemoteValue;

verus! {

/// The standard base64 encoding (with padding) of `bytes`, as the
/// `base64` crate writes it.
pub uninterp spec fn base64_standard(bytes: Seq<u8>) -> Seq<char>;

/// The bytes that standard base64 text decodes to, or, where the `base64`
/// crate rejects the text, the message of its decode error.
pub uninterp spec fn base64_standard_decoded(text: Seq<char>) -> Result<Seq<u8>, Seq<char>>;

/// The bytes that URL-safe, unpadded base64 text decodes to, or `None`
/// where the `base64` crate rejects the text.
pub uninterp spec fn base64_url_decoded(text: Seq<char>) -> Option<Seq<u8>>;

/// Calls `base64::engine::general_purpose::STANDARD.encode`; the result is
/// named `base64_standard` of the bytes, and the same engine decodes it back
/// to the bytes (the round trip that the crate's own tests exercise).
#[verifier::external_body]
fn encode_base64(bytes: &[u8]) -> (r: String)
    ensures
        r@ == base64_standard(bytes@),
        (base64_standard_decoded(r@) == Ok::<Seq<u8>, Seq<char>>(bytes@)),
{
    base64::Engine::encode(&base64::engine::general_purpose::STANDARD, bytes)
}

/// Calls `base64::engine::general_purpose::STANDARD.decode`; the decoded
/// bytes, or the displayed decode error, are named `base64_standard_decoded`
/// of the text.
#[verifier::external_body]
pub(crate) fn decode_base64(text: &str) -> (r: Result<Vec<u8>, String>)
    ensures
        match r {
            Ok(bytes) => base64_standard_decoded(text@) == Ok::<Seq<u8>, Seq<char>>(bytes@),
            Err(e) => base64_standard_decoded(text@) == Err::<Seq<u8>, Seq<char>>(e@),
        },
{
    base64::Engine::decode(&base64::engine::general_purpose::STANDARD, text).map_err(|e| e.to_string())
}

/// Calls `base64::engine::general_purpose::URL_SAFE_NO_PAD.decode`; the
/// decoded bytes are named `base64_url_decoded` of the text.
#[verifier::external_body]
pub(crate) fn decode_base64_url(text: &str) -> (r: Option<Vec<u8>>)
    ensures
        match r {
            Some(bytes) => base64_url_decoded(text@) == Some(bytes@),
            None => base64_url_decoded(text@) is None,
        },
{
    base64::Engine::decode(&base64::engine::general_purpose::URL_SAFE_NO_PAD, text).ok()
}

/// `data:{mime};base64,{encoded}`.
pub open spec fn data_url_spec(mime: Seq<char>, bytes: Seq<u8>) -> Seq<char> {
    "data:"@ + mime + ";base64,"@ + base64_standard(bytes)
}

/// A base64 data URL that carries `buffer`. It reads back: for a media
/// type that does not itself hold `;base64,`, the payload that
/// `download_value_data` finds in it is the encoded text, which decodes to
/// `buffer`.
pub fn upload_value_data(buffer: &[u8], mime: &str) -> (r: String)
    ensures
        r@ == data_url_spec(mime@, buffer@),
        (base64_standard_decoded(base64_standard(buffer@)) == Ok::<Seq<u8>, Seq<char>>(buffer@)),
        lacks(mime@, ";base64,"@) ==> data_url_payload(r@) == Some(base64_standard(buffer@)),
{
    proof {
        if lacks(mime@, ";base64,"@) {
            lemma_data_url_payload(mime@, base64_standard(buffer@));
        }
    }
    let encoded = encode_base64(buffer);
    let mut out: Vec<char> = Vec::new();
    push_str_chars(&mut out, "data:");
    push_str_chars(&mut out, mime);
    push_str_chars(&mut out, ";base64,");
    push_string_chars(&mut out, &encoded);
    string_from_chars(out.as_slice())
}

/// The first index at or after `k` where `p` occurs in `s`, or `s.len()`.
pub open spec fn find_from(s: Seq<char>, p: Seq<char>, k: int) -> int
    decreases s.len() - k,
{
    if k < 0 || k + p.len() > s.len() {
        s.len() as int
    } else if s.subrange(k, k + p.len()) == p {
        k
    } else if k >= s.len() {
        s.len() as int
    } else {
        find_from(s, p, k + 1)
    }
}

pub(crate) proof fn lemma_find_from_bounds(s: Seq<char>, p: Seq<char>, k: int)
    requires
        0 <= k,
    ensures
        find_from(s, p, k) == s.len() || (k <= find_from(s, p, k) && find_from(s, p, k) + p.len() <= s.len()),
    decreases s.len() - k,
{
    if k + p.len() <= s.len() && s.subrange(k, k + p.len()) != p && k < s.len() {
        lemma_find_from_bounds(s, p, k + 1);
    }
}

/// No occurrence of `p` starts at or after `k` and before `find_from(s, p, k)`.
pub(crate) proof fn lemma_find_from_first(s: Seq<char>, p: Seq<char>, k: int, j: int)
    requires
        0 <= k <= j < find_from(s, p, k),
        j + p.len() <= s.len(),
    ensures
        s.subrange(j, j + p.len()) != p,
    decreases s.len() - k,
{
    if j > k {
        lemma_find_from_first(s, p, k + 1, j);
    }
}

/// Where `find_from` finds `p`, `p` occurs.
pub(crate) proof fn lemma_find_from_found(s: Seq<char>, p: Seq<char>, k: int)
    requires
        0 <= k,
        find_from(s, p, k) + p.len() <= s.len(),
    ensures
        s.subrange(find_from(s, p, k), find_from(s, p, k) + p.len()) == p,
    decreases s.len() - k,
{
    if k + p.len() <= s.len() && s.subrange(k, k + p.len()) != p && k < s.len() {
        lemma_find_from_found(s, p, k + 1);
    }
}

/// `str::split_once` with a string pattern: the text before and after the
/// first occurrence of `p`.
pub open spec fn split_once_str(s: Seq<char>, p: Seq<char>) -> Option<(Seq<char>, Seq<char>)> {
    let i = find_from(s, p, 0);
    if i + p.len() <= s.len() {
        Some((s.subrange(0, i), s.subrange(i + p.len(), s.len() as int)))
    } else {
        None
    }
}

/// The index of the first occurrence of `p` in `s` at or after `from`.
pub(crate) fn find_str(s: &Vec<char>, p: &Vec<char>, from: usize) -> (r: usize)
    requires
        from <= s.len(),
    ensures
        r == find_from(s@, p@, from as int),
    decreases s.len() - from,
{
    if p.len() > s.len() - from {
        return s.len();
    }
    let mut j: usize = 0;
    while j < p.len()
        invariant
            from + p.len() <= s.len(),
            j <= p.len(),
            s@.subrange(from as int, from + j) == p@.subrange(0, j as int),
        decreases p.len() - j,
    {
        if s[from + j] != p[j] {
            assert(s@.subrange(from as int, from + p.len())[j as int] != p@[j as int]);
            assert(from < s.len());
            return find_str(s, p, from + 1);
        }
        j = j + 1;
        assert(s@.subrange(from as int, from + j) =~= p@.subrange(0, j as int));
    }
    assert(p@.subrange(0, p.len() as int) =~= p@);
    from
}

/// The base64 payload of a data URL `data:{mime};base64,{payload}`.
pub open spec fn data_url_payload(url: Seq<char>) -> Option<Seq<char>> {
    if starts_with(url, "data:"@) {
        match split_once_str(url.skip(5), ";base64,"@) {
            Some((_, encoded)) => Some(encoded),
            None => None,
        }
    } else {
        None
    }
}

/// `find_from` reaches the first occurrence `m` when none starts in `[k, m)`.
proof fn lemma_find_from_at(s: Seq<char>, p: Seq<char>, k: int, m: int)
    requires
        0 <= k <= m,
        m + p.len() <= s.len(),
        s.subrange(m, m + p.len()) == p,
        forall|j: int| k <= j < m ==> #[trigger] s.subrange(j, j + p.len()) != p,
    ensures
        find_from(s, p, k) == m,
    decreases m - k,
{
    if k < m {
        lemma_find_from_at(s, p, k + 1, m);
    }
}

/// The payload of `data:{mime};base64,{encoded}` is `encoded` when `mime`
/// does not hold `;base64,`.
proof fn lemma_data_url_payload(mime: Seq<char>, encoded: Seq<char>)
    requires
        lacks(mime, ";base64,"@),
    ensures
        data_url_payload("data:"@ + mime + ";base64,"@ + encoded) == Some(encoded),
{
    reveal_strlit("data:");
    reveal_strlit(";base64,");
    let p = ";base64,"@;
    let url = "data:"@ + mime + p + encoded;
    let u = url.skip(5);
    let m = mime.len() as int;
    assert(u =~= mime + p + encoded);
    assert(url.subrange(0, 5) =~= "data:"@);
    assert(u.subrange(m, m + 8) =~= p);
    assert forall|j: int| 0 <= j < m implies #[trigger] u.subrange(j, j + p.len()) != p by {
        if j + 8 <= m {
            assert(u.subrange(j, j + 8) =~= mime.subrange(j, j + 8));
        } else {
            assert(u.subrange(j, j + 8)[m - j] == u[m]);
            assert(u[m] == ';');
            assert(p[m - j] != ';');
        }
    }
    lemma_find_from_at(u, p, 0, m);
    assert(u.subrange(m + 8, u.len() as int) =~= encoded);
}

/// The bytes of a base64 data URL: `None` when `url` is no such data URL
/// (it is then fetched), else the decoded payload or a decode error.
pub fn download_value_data(url: &str) -> (r: Option<Result<Vec<u8>, MunaError>>)
    ensures
        match data_url_payload(url@) {
            None => r is None,
            Some(encoded) => match base64_standard_decoded(encoded) {
                Ok(bytes) => r matches Some(Ok(b)) && b@ == bytes,
                Err(e) => r matches Some(Err(MunaError::Prediction(m))) && m@ == "Base64 decode error: "@ + e,
            },
        },
{
    let v = chars_of(url);
    let prefix = chars_of("data:");
    assert(prefix@ =~= "data:"@) by {
        reveal_strlit("data:");
    }
    if !crate::text::str_starts_with(url, "data:") {
        return None;
    }
    proof {
        reveal_strlit("data:");
        reveal_strlit(";base64,");
    }
    assert(v@.len() >= 5);
    let rest = sub_chars(&v, 5, v.len());
    assert(rest@ =~= url@.skip(5));
    let marker = chars_of(";base64,");
    let i = find_str(&rest, &marker, 0);
    proof {
        lemma_find_from_bounds(rest@, marker@, 0);
    }
    assert(marker@ =~= ";base64,"@);
    if i >= rest.len() || marker.len() > rest.len() - i {
        return None;
    }
    let encoded_chars = sub_chars(&rest, i + marker.len(), rest.len());
    let encoded = string_from_chars(encoded_chars.as_slice());
    match decode_base64(encoded.as_str()) {
        Ok(bytes) => Some(Ok(bytes)),
        Err(e) => {
            let mut out: Vec<char> = Vec::new();
            push_str_chars(&mut out, "Base64 decode error: ");
            push_string_chars(&mut out, &e);
            Some(Err(MunaError::Prediction(string_from_chars(out.as_slice()))))
        },
    }
}

/// The media type under which a value of `dtype` is sent: raw bytes for
/// tensors and binary data, UTF-8 text, JSON for lists and dicts, and the
/// image and array encodings; none for null.
pub open spec fn upload_mime_of(dtype: Dtype) -> Option<Seq<char>> {
    if is_tensor(dtype) {
        Some("application/octet-stream"@)
    } else {
        match dtype {
            Dtype::Null => None,
            Dtype::String => Some("text/plain"@),
            Dtype::List => Some("application/json"@),
            Dtype::Dict => Some("application/json"@),
            Dtype::Image => Some("image/png"@),
            Dtype::ArrayList => Some("application/x-npz"@),
            Dtype::ImageList => Some("image/avif"@),
            _ => Some("application/octet-stream"@),
        }
    }
}

/// A text without `;` does not hold `;base64,`.
proof fn lemma_no_marker(s: Seq<char>)
    requires
        forall|j: int| 0 <= j < s.len() ==> s[j] != ';',
    ensures
        lacks(s, ";base64,"@),
{
    reveal_strlit(";base64,");
    assert forall|j: int| 0 <= j && j + ";base64,"@.len() <= s.len() implies #[trigger] s.subrange(
        j,
        j + ";base64,"@.len(),
    ) != ";base64,"@ by {
        assert(s.subrange(j, j + 8)[0] == s[j]);
    }
}

/// The media types under which values are sent hold no `;`.
proof fn lemma_upload_mimes_lack_marker(dtype: Dtype)
    ensures
        upload_mime_of(dtype) matches Some(m) ==> lacks(m, ";base64,"@),
{
    reveal_strlit("application/octet-stream");
    reveal_strlit("text/plain");
    reveal_strlit("application/json");
    reveal_strlit("image/png");
    reveal_strlit("application/x-npz");
    reveal_strlit("image/avif");
    if let Some(m) = upload_mime_of(dtype) {
        assert forall|j: int| 0 <= j < m.len() implies m[j] != ';' by {
            assert(0 <= j < m.len());
        }
        lemma_no_marker(m);
    }
}

/// Every value but a null is sent as a data URL whose payload reads back
/// as the encoded bytes: images as PNG, text as plain text, lists and
/// dicts as JSON, tensors as raw bytes.
pub proof fn lemma_every_value_is_sent(dtype: Dtype, bytes: Seq<u8>)
    ensures
        (upload_mime_of(dtype) is None) == (dtype == Dtype::Null),
        dtype == Dtype::Image ==> upload_mime_of(dtype) == Some("image/png"@),
        dtype == Dtype::String ==> upload_mime_of(dtype) == Some("text/plain"@),
        dtype == Dtype::List || dtype == Dtype::Dict ==> upload_mime_of(dtype) == Some("application/json"@),
        is_tensor(dtype) ==> upload_mime_of(dtype) == Some("application/octet-stream"@),
        upload_mime_of(dtype) matches Some(m) ==> data_url_payload(data_url_spec(m, bytes)) == Some(
            base64_standard(bytes),
        ),
{
    lemma_upload_mimes_lack_marker(dtype);
    if let Some(m) = upload_mime_of(dtype) {
        lemma_data_url_payload(m, base64_standard(bytes));
    }
}

/// The media type under which a value of `dtype` is sent.
pub fn upload_mime(dtype: Dtype) -> (r: Option<&'static str>)
    ensures
        match r {
            Some(m) => upload_mime_of(dtype) == Some(m@),
            None => upload_mime_of(dtype) is None,
        },
{
    if is_tensor_dtype(dtype) {
        return Some("application/octet-stream");
    }
    match dtype {
        Dtype::Null => None,
        Dtype::String => Some("text/plain"),
        Dtype::List => Some("application/json"),
        Dtype::Dict => Some("application/json"),
        Dtype::Image => Some("image/png"),
        Dtype::ArrayList => Some("application/x-npz"),
        Dtype::ImageList => Some("image/avif"),
        _ => Some("application/octet-stream"),
    }
}

/// The remote value that carries the serialized value `data` of type
/// `dtype`: a null carries nothing; any other value carries its data URL,
/// which reads back: its payload is the encoded data, which decodes to
/// `data`.
pub fn create_remote_value(dtype: Dtype, data: &[u8]) -> (r: RemoteValue)
    ensures
        r.dtype == dtype,
        match upload_mime_of(dtype) {
            None => r.data is None,
            Some(mime) => (r.data matches Some(url) && url@ == data_url_spec(mime, data@) && data_url_payload(url@)
                == Some(base64_standard(data@)) && base64_standard_decoded(base64_standard(data@)) == Ok::<
                Seq<u8>,
                Seq<char>,
            >(data@)),
        },
{
    proof {
        lemma_upload_mimes_lack_marker(dtype);
    }
    match upload_mime(dtype) {
        None => RemoteValue { data: None, dtype },
        Some(mime) => RemoteValue { data: Some(upload_value_data(data, mime)), dtype },
    }
}

/// How the data of a remote value is read back.
#[derive(Debug, Clone, Copy, PartialEq, Eq)]
pub enum RemoteDecode {
    /// A null value; no data is read.
    Null,
    /// The native runtime decodes the bytes, given this media type.
    Native(&'static str),
    /// UTF-8 text.
    Text,
    /// A JSON list.
    List,
    /// A JSON object.
    Dict,
    /// The raw bytes.
    Binary,
}

/// How a remote value of type `dtype` is read: tensors, images and arrays
/// by the native runtime, text and JSON as such, binary data as raw bytes.
pub open spec fn remote_decode_spec(dtype: Dtype) -> (RemoteDecode, Seq<char>) {
    if dtype == Dtype::Null {
        (RemoteDecode::Null, Seq::empty())
    } else if is_tensor(dtype) {
        (RemoteDecode::Native("application/vnd.muna.tensor"), "application/vnd.muna.tensor"@)
    } else {
        match dtype {
            Dtype::String => (RemoteDecode::Text, Seq::empty()),
            Dtype::List => (RemoteDecode::List, Seq::empty()),
            Dtype::Dict => (RemoteDecode::Dict, Seq::empty()),
            Dtype::Image => (RemoteDecode::Native("image/*"), "image/*"@),
            Dtype::ArrayList => (RemoteDecode::Native("application/x-npz"), "application/x-npz"@),
            Dtype::ImageList => (RemoteDecode::Native("image/avif"), "image/avif"@),
            _ => (RemoteDecode::Binary, Seq::empty()),
        }
    }
}

/// How a remote value of type `dtype` is read back.
pub fn remote_decode(dtype: Dtype) -> (r: RemoteDecode)
    ensures
        r == remote_decode_spec(dtype).0,
        r matches RemoteDecode::Native(m) ==> m@ == remote_decode_spec(dtype).1,
{
    if dtype == Dtype::Null {
        return RemoteDecode::Null;
    }
    if is_tensor_dtype(dtype) {
        return RemoteDecode::Native("application/vnd.muna.tensor");
    }
    match dtype {
        Dtype::String => RemoteDecode::Text,
        Dtype::List => RemoteDecode::List,
        Dtype::Dict => RemoteDecode::Dict,
        Dtype::Image => RemoteDecode::Native("image/*"),
        Dtype::ArrayList => RemoteDecode::Native("application/x-npz"),
        Dtype::ImageList => RemoteDecode::Native("image/avif"),
        _ => RemoteDecode::Binary,
    }
}

/// The data URL of a remote value that is not null; an error when it has none.
pub fn remote_value_url(value: &RemoteValue) -> (r: Result<&str, MunaError>)
    ensures
        match value.data {
            Some(url) => r matches Ok(u) && u@ == url@,
            None => r matches Err(MunaError::Prediction(m)) && m@ == "Remote value has no data URL"@,
        },
{
    match &value.data {
        Some(url) => Ok(url.as_str()),
        None => Err(MunaError::Prediction(owned("Remote value has no data URL"))),
    }
}

/// The bytes of a configuration token's claims: its second dot-separated
/// segment, decoded as URL-safe unpadded base64. `None` for a token with
/// fewer than two segments or an undecodable segment.
pub open spec fn token_payload_spec(token: Seq<char>) -> Option<Seq<u8>> {
    match crate::text::split_once(token, '.') {
        Some((_, rest)) => match crate::text::split_once(rest, '.') {
            Some((segment, _)) => base64_url_decoded(segment),
            None => base64_url_decoded(rest),
        },
        None => None,
    }
}

/// The bytes of a configuration token's claims.
pub fn token_payload(token: &str) -> (r: Option<Vec<u8>>)
    ensures
        match r {
            Some(bytes) => token_payload_spec(token@) == Some(bytes@),
            None => token_payload_spec(token@) is None,
        },
{
    let v = chars_of(token);
    match crate::text::split_once_chars(&v, '.') {
        Some((_, rest)) => {
            let segment = match crate::text::split_once_chars(&rest, '.') {
                Some((segment, _)) => segment,
                None => rest,
            };
            let text = string_from_chars(segment.as_slice());
            decode_base64_url(text.as_str())
        },
        None => None,
    }
}

} // verus!
