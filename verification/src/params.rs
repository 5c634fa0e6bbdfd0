//! Reading predictor signatures: finding parameters by data type and
//! denotation, and splitting predictor tags.

use vstd::prelude::*;
use crate::dtype::Dtype;
use crate::text::{
    chars_of, lemma_index_from_bounds, find_char, lemma_skip_from_bounds, opt_str_is,
    opt_string_eq, skip_char, skip_from, split_once, trim_start,
};
use crate::types::Parameter;

verus! {

/// The first index at or after `k` of an element of `s` satisfying `pred`,
/// or `s.len()`.
pub open spec fn first_index_where<T>(s: Seq<T>, pred: spec_fn(T) -> bool, k: int) -> int
    decreases s.len() - k,
{
    if k >= s.len() {
        s.len() as int
    } else if pred(s[k]) {
        k
    } else {
        first_index_where(s, pred, k + 1)
    }
}

pub proof fn lemma_first_index_where<T>(s: Seq<T>, pred: spec_fn(T) -> bool, k: int)
    requires
        0 <= k <= s.len(),
    ensures
        k <= first_index_where(s, pred, k) <= s.len(),
        first_index_where(s, pred, k) < s.len() ==> pred(s[first_index_where(s, pred, k)]),
        forall|j: int| k <= j < first_index_where(s, pred, k) ==> !pred(#[trigger] s[j]),
    decreases s.len() - k,
{
    if k < s.len() && !pred(s[k]) {
        lemma_first_index_where(s, pred, k + 1);
    }
}

/// The parameter has a data type among `dtypes` and, when a denotation
/// is asked for, exactly that denotation.
pub open spec fn parameter_matches(
    p: Parameter,
    dtypes: Seq<Dtype>,
    denotation: Option<Seq<char>>,
) -> bool {
    match p.dtype {
        Some(dt) => dtypes.contains(dt) && match denotation {
            None => true,
            Some(d) => opt_str_is(p.denotation, d),
        },
        None => false,
    }
}

/// The parameter carries exactly the denotation `d`.
pub open spec fn denoted(p: Parameter, d: Seq<char>) -> bool {
    opt_str_is(p.denotation, d)
}

/// Index of the first parameter matching `dtypes` and `denotation`, or
/// the number of parameters.
pub open spec fn first_matching(
    ps: Seq<Parameter>,
    dtypes: Seq<Dtype>,
    denotation: Option<Seq<char>>,
) -> int {
    first_index_where(ps, |p: Parameter| parameter_matches(p, dtypes, denotation), 0)
}

/// Index of the first parameter carrying denotation `d`, or the number of
/// parameters.
pub open spec fn first_denoted(ps: Seq<Parameter>, d: Seq<char>) -> int {
    first_index_where(ps, |p: Parameter| denoted(p, d), 0)
}

/// The first parameter carrying denotation `d`.
pub open spec fn find_denoted_spec(ps: Seq<Parameter>, d: Seq<char>) -> Option<Parameter> {
    let i = first_denoted(ps, d);
    if i < ps.len() {
        Some(ps[i])
    } else {
        None
    }
}

/// An optional `&str` viewed as characters.
pub open spec fn opt_str_view(s: Option<&str>) -> Option<Seq<char>> {
    match s {
        Some(x) => Some(x@),
        None => None,
    }
}

/// Whether `dtypes` holds `dtype`.
pub fn contains_dtype(dtypes: &[Dtype], dtype: Dtype) -> (r: bool)
    ensures
        r == dtypes@.contains(dtype),
{
    let mut i: usize = 0;
    while i < dtypes.len()
        invariant
            i <= dtypes.len(),
            forall|j: int| 0 <= j < i ==> dtypes@[j] != dtype,
        decreases dtypes.len() - i,
    {
        if dtypes[i] == dtype {
            assert(dtypes@[i as int] == dtype);
            return true;
        }
        i = i + 1;
    }
    false
}

fn matches_parameter(p: &Parameter, dtypes: &[Dtype], denotation: Option<&str>) -> (r: bool)
    ensures
        r == parameter_matches(*p, dtypes@, opt_str_view(denotation)),
{
    match p.dtype {
        Some(dt) => {
            if !contains_dtype(dtypes, dt) {
                return false;
            }
            match denotation {
                None => true,
                Some(d) => opt_string_eq(&p.denotation, d),
            }
        },
        None => false,
    }
}

/// The first parameter whose data type is among `dtypes` and, when
/// `denotation` is given, whose denotation is exactly `denotation`; with
/// its index.
pub fn get_parameter<'a>(
    parameters: &'a [Parameter],
    dtypes: &[Dtype],
    denotation: Option<&str>,
) -> (r: (Option<usize>, Option<&'a Parameter>))
    ensures
        0 <= first_matching(parameters@, dtypes@, opt_str_view(denotation)) <= parameters@.len(),
        ({
            let i = first_matching(parameters@, dtypes@, opt_str_view(denotation));
            if i < parameters@.len() {
                r.0 matches Some(j) && j as int == i && r.1 == Some(&parameters@[i])
            } else {
                r.0 is None && r.1 is None
            }
        }),
{
    let ghost pred = |p: Parameter| parameter_matches(p, dtypes@, opt_str_view(denotation));
    proof {
        lemma_first_index_where(parameters@, pred, 0);
    }
    let mut i: usize = 0;
    while i < parameters.len()
        invariant
            i <= parameters.len(),
            pred == (|p: Parameter| parameter_matches(p, dtypes@, opt_str_view(denotation))),
            first_index_where(parameters@, pred, 0) == first_index_where(parameters@, pred, i as int),
        decreases parameters.len() - i,
    {
        if matches_parameter(&parameters[i], dtypes, denotation) {
            return (Some(i), Some(&parameters[i]));
        }
        i = i + 1;
    }
    (None, None)
}

/// The first parameter carrying denotation `denotation`, with its index.
pub fn find_denoted<'a>(parameters: &'a [Parameter], denotation: &str) -> (r: Option<&'a Parameter>)
    ensures
        r == match find_denoted_spec(parameters@, denotation@) {
            Some(p) => Some(&p),
            None => None,
        },
{
    let ghost pred = |p: Parameter| denoted(p, denotation@);
    let mut i: usize = 0;
    while i < parameters.len()
        invariant
            i <= parameters.len(),
            pred == (|p: Parameter| denoted(p, denotation@)),
            first_index_where(parameters@, pred, 0) == first_index_where(parameters@, pred, i as int),
        decreases parameters.len() - i,
    {
        if opt_string_eq(&parameters[i].denotation, denotation) {
            return Some(&parameters[i]);
        }
        i = i + 1;
    }
    None
}

/// The owner and name that a tag `@owner/name` holds: the text before and
/// after the first `/`, the owner without its leading `@`s. A tag without
/// a slash is its own name (without leading `@`s) with an empty owner.
pub open spec fn tag_parts(tag: Seq<char>) -> (Seq<char>, Seq<char>) {
    match split_once(tag, '/') {
        Some((owner, name)) => (trim_start(owner, '@'), name),
        None => (Seq::empty(), trim_start(tag, '@')),
    }
}

/// Split `@owner/name` into `(owner, name)`. Tags without a slash are
/// their own name with an empty owner.
pub fn split_tag(tag: &str) -> (r: (&str, &str))
    ensures
        r.0@ == tag_parts(tag@).0,
        r.1@ == tag_parts(tag@).1,
{
    let v = chars_of(tag);
    let slash = find_char(&v, '/', 0);
    proof {
        lemma_index_from_bounds(v@, '/', 0);
    }
    if slash < v.len() {
        let start = skip_char(&v, '@', 0);
        proof {
            lemma_skip_from_bounds(v@, '@', 0);
            lemma_skip_within(v@, '@', slash as int);
        }
        let owner = tag.substring_char(start, slash);
        let name = tag.substring_char(slash + 1, v.len());
        proof {
            let o = v@.subrange(0, slash as int);
            assert(skip_from(o, '@', 0) == start);
            assert(trim_start(o, '@') =~= v@.subrange(start as int, slash as int));
        }
        (owner, name)
    } else {
        let start = skip_char(&v, '@', 0);
        proof {
            lemma_skip_from_bounds(v@, '@', 0);
        }
        let name = tag.substring_char(start, v.len());
        let owner = tag.substring_char(0, 0);
        assert(owner@ =~= Seq::<char>::empty());
        (owner, name)
    }
}

/// Skipping a leading run of `c` in `s` stops at the same place in a
/// prefix of `s` that holds a character other than `c` before its end.
proof fn lemma_skip_within(s: Seq<char>, c: char, n: int)
    requires
        0 <= n <= s.len(),
        n < s.len() ==> s[n] != c,
    ensures
        skip_from(s.subrange(0, n), c, 0) == skip_from(s, c, 0),
        skip_from(s, c, 0) <= n,
{
    lemma_skip_prefix(s, c, n, 0);
}

proof fn lemma_skip_prefix(s: Seq<char>, c: char, n: int, k: int)
    requires
        0 <= k <= n <= s.len(),
        n < s.len() ==> s[n] != c,
    ensures
        skip_from(s.subrange(0, n), c, k) == skip_from(s, c, k),
        skip_from(s, c, k) <= n,
    decreases n - k,
{
    if k < n {
        assert(s.subrange(0, n)[k] == s[k]);
        if s[k] == c {
            lemma_skip_prefix(s, c, n, k + 1);
        }
    }
}

} // verus!
