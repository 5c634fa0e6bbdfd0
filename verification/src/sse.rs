//! Server-sent events: how a response body splits into event blocks, and
//! what event name and data each block carries.

use vstd::prelude::*;
use crate::text::{chars_of, lacks, starts_with, string_from_chars, sub_chars};

verus! {

/// Whether `c` is white space, as `char::is_whitespace` reads it (the
/// Unicode `White_Space` property).
pub open spec fn is_white(c: char) -> bool {
    ||| ('\u{9}' <= c && c <= '\u{d}')
    ||| c == ' '
    ||| c == '\u{85}'
    ||| c == '\u{a0}'
    ||| c == '\u{1680}'
    ||| ('\u{2000}' <= c && c <= '\u{200a}')
    ||| c == '\u{2028}'
    ||| c == '\u{2029}'
    ||| c == '\u{202f}'
    ||| c == '\u{205f}'
    ||| c == '\u{3000}'
}

fn white(c: char) -> (r: bool)
    ensures
        r == is_white(c),
{
    ('\u{9}' <= c && c <= '\u{d}') || c == ' ' || c == '\u{85}' || c == '\u{a0}' || c == '\u{1680}' || ('\u{2000}' <= c
        && c <= '\u{200a}') || c == '\u{2028}' || c == '\u{2029}' || c == '\u{202f}' || c == '\u{205f}' || c == '\u{3000}'
}

/// `s` without its leading and trailing white space (`str::trim`).
pub open spec fn trimmed(s: Seq<char>) -> Seq<char>
    decreases s.len(),
{
    if s.len() > 0 && is_white(s[0]) {
        trimmed(s.drop_first())
    } else if s.len() > 0 && is_white(s.last()) {
        trimmed(s.drop_last())
    } else {
        s
    }
}

proof fn lemma_trimmed_inner(s: Seq<char>, lo: int, hi: int)
    requires
        0 <= lo <= hi <= s.len(),
        forall|i: int| 0 <= i < lo ==> is_white(#[trigger] s[i]),
        forall|i: int| hi <= i < s.len() ==> is_white(#[trigger] s[i]),
        lo < hi ==> !is_white(s[lo]) && !is_white(s[hi - 1]),
        lo == hi ==> hi == s.len(),
    ensures
        trimmed(s) == s.subrange(lo, hi),
    decreases s.len(),
{
    if s.len() > 0 && is_white(s[0]) {
        assert(lo > 0 || (lo == 0 && lo == hi && hi == s.len()) || lo == 0);
        if lo == 0 {
            if lo == hi {
                assert(s.len() == 0 || hi == s.len());
                assert(false);
            } else {
                assert(false);
            }
        }
        let t = s.drop_first();
        assert forall|i: int| 0 <= i < lo - 1 implies is_white(#[trigger] t[i]) by {
            assert(t[i] == s[i + 1]);
        }
        assert forall|i: int| hi - 1 <= i < t.len() implies is_white(#[trigger] t[i]) by {
            assert(t[i] == s[i + 1]);
        }
        lemma_trimmed_inner(t, lo - 1, hi - 1);
        assert(t.subrange(lo - 1, hi - 1) =~= s.subrange(lo, hi));
    } else if s.len() > 0 && is_white(s.last()) {
        if hi == s.len() {
            if lo < hi {
                assert(false);
            } else {
                assert(lo == hi && s.len() > 0);
                assert(is_white(s[0]));
            }
        }
        let t = s.drop_last();
        assert forall|i: int| 0 <= i < lo implies is_white(#[trigger] t[i]) by {
            assert(t[i] == s[i]);
        }
        assert forall|i: int| hi <= i < t.len() implies is_white(#[trigger] t[i]) by {
            assert(t[i] == s[i]);
        }
        lemma_trimmed_inner(t, lo, hi);
        assert(t.subrange(lo, hi) =~= s.subrange(lo, hi));
    } else {
        if lo > 0 {
            assert(is_white(s[0]));
        }
        if hi < s.len() {
            assert(is_white(s[s.len() - 1]));
        }
        assert(s.subrange(lo, hi) =~= s);
    }
}

/// `v` without its leading and trailing white space.
fn trim_chars(v: &Vec<char>) -> (r: Vec<char>)
    ensures
        r@ == trimmed(v@),
{
    let mut lo: usize = 0;
    while lo < v.len() && white(v[lo])
        invariant
            lo <= v.len(),
            forall|i: int| 0 <= i < lo ==> is_white(#[trigger] v@[i]),
        decreases v.len() - lo,
    {
        lo = lo + 1;
    }
    let mut hi: usize = v.len();
    while hi > lo && white(v[hi - 1])
        invariant
            lo <= hi <= v.len(),
            forall|i: int| hi <= i < v.len() ==> is_white(#[trigger] v@[i]),
        decreases hi,
    {
        hi = hi - 1;
    }
    proof {
        if lo == hi && hi < v.len() {
            assert(lo < v.len());
            assert(!is_white(v@[lo as int]) || lo == v.len());
            assert(is_white(v@[hi as int]));
        }
        if lo == hi {
            assert(hi == v.len());
        }
        lemma_trimmed_inner(v@, lo as int, hi as int);
    }
    sub_chars(v, lo, hi)
}

/// The lines of `s` as `str::lines` yields them: split at each `\n`, one
/// `\r` before it dropped; a last line without `\n` kept when not empty.
pub open spec fn lines_of(s: Seq<char>) -> Seq<Seq<char>>
    decreases s.len(),
{
    let i = crate::text::index_from(s, '\n', 0);
    if s.len() == 0 {
        Seq::empty()
    } else if i < s.len() {
        proof {
            crate::text::lemma_index_from_bounds(s, '\n', 0);
        }
        let line = s.subrange(0, i);
        let line = if line.len() > 0 && line.last() == '\r' { line.drop_last() } else { line };
        seq![line] + lines_of(s.subrange(i + 1, s.len() as int))
    } else {
        seq![s]
    }
}

/// The event name and data of a block's lines: the text after the last
/// `event:` line's prefix and after the last `data:` line's prefix, trimmed.
pub open spec fn sse_fields(lines: Seq<Seq<char>>) -> (Seq<char>, Seq<char>)
    decreases lines.len(),
{
    if lines.len() == 0 {
        (Seq::empty(), Seq::empty())
    } else {
        let (event, data) = sse_fields(lines.drop_last());
        let line = lines.last();
        if starts_with(line, "event:"@) {
            (trimmed(line.skip(6)), data)
        } else if starts_with(line, "data:"@) {
            (event, trimmed(line.skip(5)))
        } else {
            (event, data)
        }
    }
}

/// The first event block of `buffer` and what follows it: the text before
/// the first blank line (`\n\n`) and the text after it; `None` while the
/// buffer holds no complete block.
pub open spec fn next_block_spec(buffer: Seq<char>) -> Option<(Seq<char>, Seq<char>)> {
    crate::remote::split_once_str(buffer, "\n\n"@)
}

/// Splitting the first event block off a buffer loses nothing: the buffer
/// is the block, a blank line and the rest, and the block holds no blank
/// line; a buffer from which no block splits holds no blank line.
pub proof fn lemma_sse_block_split(buffer: Seq<char>)
    ensures
        match next_block_spec(buffer) {
            Some((block, rest)) => buffer == block + "\n\n"@ + rest && lacks(block, "\n\n"@),
            None => lacks(buffer, "\n\n"@),
        },
{
    reveal_strlit("\n\n");
    let p = "\n\n"@;
    crate::remote::lemma_find_from_bounds(buffer, p, 0);
    let i = crate::remote::find_from(buffer, p, 0);
    match next_block_spec(buffer) {
        Some((block, rest)) => {
            assert(buffer == block + p + rest) by {
                crate::remote::lemma_find_from_found(buffer, p, 0);
                assert(buffer =~= buffer.subrange(0, i) + buffer.subrange(i, i + 2) + buffer.subrange(i + 2, buffer.len() as int));
            }
            assert forall|j: int| 0 <= j && j + p.len() <= block.len() implies #[trigger] block.subrange(j, j + p.len()) != p by {
                crate::remote::lemma_find_from_first(buffer, p, 0, j);
                assert(block.subrange(j, j + p.len()) =~= buffer.subrange(j, j + p.len()));
            }
        },
        None => {
            assert forall|j: int| 0 <= j && j + p.len() <= buffer.len() implies #[trigger] buffer.subrange(j, j + p.len()) != p by {
                crate::remote::lemma_find_from_first(buffer, p, 0, j);
            }
        },
    }
}

/// The first complete event block of `buffer`, and the rest of the buffer.
pub fn next_sse_block(buffer: &str) -> (r: Option<(String, String)>)
    ensures
        match next_block_spec(buffer@) {
            Some((block, rest)) => r matches Some((b, t)) && b@ == block && t@ == rest,
            None => r is None,
        },
{
    let v = chars_of(buffer);
    proof {
        reveal_strlit("\n\n");
    }
    let marker = chars_of("\n\n");
    let p = crate::remote::find_str(&v, &marker, 0);
    if p >= v.len() || v.len() - p < 2 {
        return None;
    }
    let block = sub_chars(&v, 0, p);
    let rest = sub_chars(&v, p + 2, v.len());
    Some((string_from_chars(block.as_slice()), string_from_chars(rest.as_slice())))
}

/// Whether `line` starts with the characters of `prefix`.
fn line_starts_with(line: &Vec<char>, prefix: &str) -> (r: bool)
    ensures
        r == starts_with(line@, prefix@),
{
    let p = chars_of(prefix);
    if p.len() > line.len() {
        return false;
    }
    let mut i: usize = 0;
    while i < p.len()
        invariant
            p@ == prefix@,
            p.len() <= line.len(),
            i <= p.len(),
            line@.subrange(0, i as int) == p@.subrange(0, i as int),
        decreases p.len() - i,
    {
        if line[i] != p[i] {
            assert(line@.subrange(0, p.len() as int)[i as int] != p@[i as int]);
            return false;
        }
        i = i + 1;
        assert(line@.subrange(0, i as int) =~= p@.subrange(0, i as int));
    }
    assert(p@.subrange(0, p.len() as int) =~= p@);
    true
}

/// The event name and data of an event block: the last `event:` and
/// `data:` lines, with their prefixes removed and white space trimmed.
#[verifier::loop_isolation(false)]
#[verifier::spinoff_prover]
#[verifier::rlimit(40)]
pub fn parse_sse_block(block: &str) -> (r: (String, String))
    ensures
        r.0@ == sse_fields(lines_of(block@)).0,
        r.1@ == sse_fields(lines_of(block@)).1,
{
    let v = chars_of(block);
    let mut event: Vec<char> = Vec::new();
    let mut data: Vec<char> = Vec::new();
    let mut start: usize = 0;
    let ghost mut done: Seq<Seq<char>> = Seq::empty();
    proof {
        reveal_strlit("event:");
        reveal_strlit("data:");
    }
    assert(v@.subrange(0, v.len() as int) =~= v@);
    assert(Seq::<Seq<char>>::empty() + lines_of(v@) =~= lines_of(v@));
    while start < v.len()
        invariant
            start <= v.len(),
            done + lines_of(v@.subrange(start as int, v.len() as int)) == lines_of(v@),
            event@ == sse_fields(done).0,
            data@ == sse_fields(done).1,
        decreases v.len() - start,
    {
        let ghost rest = v@.subrange(start as int, v.len() as int);
        let end = crate::text::find_char(&v, '\n', start);
        proof {
            crate::text::lemma_index_from_bounds(v@, '\n', start as int);
            crate::text::lemma_index_from_suffix(v@, '\n', start as int);
        }
        let mut line = sub_chars(&v, start, end);
        if line.len() > 0 && end < v.len() && line[line.len() - 1] == '\r' {
            line.pop();
        }
        let ghost this_line = line@;
        proof {
            let i = crate::text::index_from(rest, '\n', 0);
            assert(i == end - start);
            if end < v.len() {
                assert(rest.subrange(0, i) =~= v@.subrange(start as int, end as int));
                assert(rest.subrange(i + 1, rest.len() as int) =~= v@.subrange(end + 1, v.len() as int));
                assert(lines_of(rest) == seq![this_line] + lines_of(v@.subrange(end + 1, v.len() as int)));
            } else {
                assert(rest =~= v@.subrange(start as int, end as int));
                assert(lines_of(rest) == seq![this_line]);
            }
        }
        if line_starts_with(&line, "event:") {
            let value = sub_chars(&line, 6, line.len());
            assert(value@ =~= this_line.skip(6));
            event = trim_chars(&value);
        } else if line_starts_with(&line, "data:") {
            let value = sub_chars(&line, 5, line.len());
            assert(value@ =~= this_line.skip(5));
            data = trim_chars(&value);
        }
        proof {
            assert(done.push(this_line).drop_last() =~= done);
            if end < v.len() {
                assert(done.push(this_line) + lines_of(v@.subrange(end + 1, v.len() as int)) =~= done + lines_of(rest));
            } else {
                assert(done.push(this_line) + lines_of(v@.subrange(v.len() as int, v.len() as int)) =~= done
                    + lines_of(rest));
            }
            done = done.push(this_line);
        }
        start = if end < v.len() { end + 1 } else { v.len() };
    }
    proof {
        assert(v@.subrange(v.len() as int, v.len() as int) =~= Seq::<char>::empty());
        assert(done + Seq::<Seq<char>>::empty() =~= done);
    }
    (string_from_chars(event.as_slice()), string_from_chars(data.as_slice()))
}

} // verus!
