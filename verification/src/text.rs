//! Character-level helpers shared by the parsers and formatters of the
//! library: strings are handled as sequences of `char`.

use vstd::prelude::*;

verus! {

/// The characters of `s`, in order.
pub fn chars_of(s: &str) -> (v: Vec<char>)
    ensures
        v@ == s@,
{
    broadcast use vstd::string::group_string_axioms;

    let mut v: Vec<char> = Vec::new();
    for c in it: s.chars()
        invariant
            v@ == it.seq().take(it.index()),
            it.seq() == s@,
    {
        v.push(c);
    }
    v
}

/// Collects characters into a `String` (std's `FromIterator<char>` for
/// `String`); the string holds exactly the given characters.
#[verifier::external_body]
pub(crate) fn string_from_chars(v: &[char]) -> (s: String)
    ensures
        s@ == v@,
{
    v.iter().collect()
}

/// Whether `c` is an ASCII decimal digit.
pub open spec fn is_digit(c: char) -> bool {
    '0' <= c && c <= '9'
}

/// The value of an ASCII decimal digit.
pub open spec fn digit_value(c: char) -> nat {
    (c as int - '0' as int) as nat
}

/// The ASCII digit for a value below ten.
pub open spec fn digit_char(d: nat) -> char {
    ('0' as int + d) as char
}

/// Every character of `s` is a decimal digit.
pub open spec fn all_digits(s: Seq<char>) -> bool {
    forall|i: int| 0 <= i < s.len() ==> is_digit(#[trigger] s[i])
}

/// The number that the decimal digits `s` denote (most significant first).
pub open spec fn decimal_value(s: Seq<char>) -> nat
    decreases s.len(),
{
    if s.len() == 0 {
        0
    } else {
        decimal_value(s.drop_last()) * 10 + digit_value(s.last())
    }
}

/// The shortest decimal rendering of `n`.
pub open spec fn decimal_digits(n: nat) -> Seq<char>
    decreases n,
{
    if n < 10 {
        seq![digit_char(n)]
    } else {
        decimal_digits(n / 10).push(digit_char(n % 10))
    }
}

/// The decimal rendering of `n`, left-padded with zeros to at least
/// `width` characters (Rust's `{:0width$}` on an unsigned integer).
pub open spec fn padded_decimal(n: nat, width: nat) -> Seq<char> {
    let digits = decimal_digits(n);
    if digits.len() < width {
        Seq::new((width - digits.len()) as nat, |i: int| '0') + digits
    } else {
        digits
    }
}

/// What `str::parse::<i64>` gives for `s`: an optional `+` or `-` sign,
/// then one or more decimal digits, whose value fits in an `i64`.
pub open spec fn parse_i64(s: Seq<char>) -> Option<int> {
    if s.len() > 0 && s[0] == '-' {
        let r = s.drop_first();
        if r.len() > 0 && all_digits(r) && decimal_value(r) <= 9223372036854775808 {
            Some(-(decimal_value(r) as int))
        } else {
            None
        }
    } else {
        let r = if s.len() > 0 && s[0] == '+' { s.drop_first() } else { s };
        if r.len() > 0 && all_digits(r) && decimal_value(r) <= 9223372036854775807 {
            Some(decimal_value(r) as int)
        } else {
            None
        }
    }
}

/// What `str::parse::<u64>` gives for `s`: an optional `+` sign, then one
/// or more decimal digits, whose value fits in a `u64`.
pub open spec fn parse_u64(s: Seq<char>) -> Option<int> {
    let r = if s.len() > 0 && s[0] == '+' { s.drop_first() } else { s };
    if r.len() > 0 && all_digits(r) && decimal_value(r) <= 18446744073709551615 {
        Some(decimal_value(r) as int)
    } else {
        None
    }
}

/// The first index at or after `k` where `c` occurs in `s`, or `s.len()`.
pub open spec fn index_from(s: Seq<char>, c: char, k: int) -> int
    decreases s.len() - k,
{
    if k >= s.len() {
        s.len() as int
    } else if s[k] == c {
        k
    } else {
        index_from(s, c, k + 1)
    }
}

/// `str::split_once(c)`: the text before and after the first `c`.
pub open spec fn split_once(s: Seq<char>, c: char) -> Option<(Seq<char>, Seq<char>)> {
    let i = index_from(s, c, 0);
    if i < s.len() {
        Some((s.subrange(0, i), s.subrange(i + 1, s.len() as int)))
    } else {
        None
    }
}

/// `str::splitn(3, c)` when it yields three pieces.
pub open spec fn split3(s: Seq<char>, c: char) -> Option<(Seq<char>, Seq<char>, Seq<char>)> {
    match split_once(s, c) {
        Some((a, rest)) => match split_once(rest, c) {
            Some((b, d)) => Some((a, b, d)),
            None => None,
        },
        None => None,
    }
}

pub proof fn lemma_index_from_bounds(s: Seq<char>, c: char, k: int)
    requires
        0 <= k <= s.len(),
    ensures
        k <= index_from(s, c, k) <= s.len(),
        index_from(s, c, k) < s.len() ==> s[index_from(s, c, k)] == c,
        forall|j: int| k <= j < index_from(s, c, k) ==> s[j] != c,
    decreases s.len() - k,
{
    if k < s.len() && s[k] != c {
        lemma_index_from_bounds(s, c, k + 1);
    }
}

/// The index in `s` of the first `c` at or after `from`, or `s.len()`.
pub fn find_char(s: &Vec<char>, c: char, from: usize) -> (i: usize)
    requires
        from <= s.len(),
    ensures
        i == index_from(s@, c, from as int),
{
    let mut i = from;
    while i < s.len()
        invariant
            from <= i <= s.len(),
            index_from(s@, c, from as int) == index_from(s@, c, i as int),
        decreases s.len() - i,
    {
        if s[i] == c {
            return i;
        }
        i = i + 1;
    }
    i
}

pub proof fn lemma_index_from_shift(a: Seq<char>, b: Seq<char>, c: char, k: int)
    requires
        0 <= k <= a.len(),
        forall|j: int| k <= j < a.len() ==> a[j] != c,
    ensures
        index_from(a + b, c, k) == a.len() + index_from(b, c, 0) - 0,
    decreases a.len() - k,
{
    if k < a.len() {
        lemma_index_from_shift(a, b, c, k + 1);
    } else {
        lemma_index_from_offset(a, b, c, 0);
    }
}

proof fn lemma_index_from_offset(a: Seq<char>, b: Seq<char>, c: char, k: int)
    requires
        0 <= k <= b.len(),
    ensures
        index_from(a + b, c, a.len() + k) == a.len() + index_from(b, c, k),
    decreases b.len() - k,
{
    if k < b.len() {
        assert((a + b)[a.len() + k] == b[k]);
        lemma_index_from_offset(a, b, c, k + 1);
    }
}

/// `split_once` on `a + [c] + b` where `a` holds no `c`.
pub proof fn lemma_split_once_concat(a: Seq<char>, c: char, b: Seq<char>)
    requires
        forall|j: int| 0 <= j < a.len() ==> a[j] != c,
    ensures
        split_once(a + seq![c] + b, c) == Some((a, b)),
{
    let s = a + seq![c] + b;
    assert(s == a + (seq![c] + b));
    lemma_index_from_shift(a, seq![c] + b, c, 0);
    assert(index_from(seq![c] + b, c, 0) == 0);
    assert(s.subrange(0, a.len() as int) =~= a);
    assert(s.subrange(a.len() as int + 1, s.len() as int) =~= b);
}

/// The decimal number that the digits in `v[lo..hi]` denote, saturated at
/// `cap + 1`, or `None` when a character there is not a digit.
fn saturated_decimal(v: &Vec<char>, lo: usize, hi: usize, cap: u128) -> (r: Option<u128>)
    requires
        lo <= hi <= v.len(),
        9 <= cap <= u64::MAX,
    ensures
        match r {
            Some(n) => all_digits(v@.subrange(lo as int, hi as int)) && n as int == if decimal_value(
                v@.subrange(lo as int, hi as int),
            ) > cap {
                cap + 1
            } else {
                decimal_value(v@.subrange(lo as int, hi as int)) as int
            },
            None => !all_digits(v@.subrange(lo as int, hi as int)),
        },
{
    let mut acc: u128 = 0;
    let mut i = lo;
    assert(v@.subrange(lo as int, lo as int) =~= Seq::<char>::empty());
    while i < hi
        invariant
            lo <= i <= hi <= v.len(),
            9 <= cap <= u64::MAX,
            all_digits(v@.subrange(lo as int, i as int)),
            acc as int == if decimal_value(v@.subrange(lo as int, i as int)) > cap {
                cap + 1
            } else {
                decimal_value(v@.subrange(lo as int, i as int)) as int
            },
        decreases hi - i,
    {
        let c = v[i];
        let prefix = Ghost(v@.subrange(lo as int, i as int));
        let next = Ghost(v@.subrange(lo as int, i + 1));
        assert(next@.drop_last() =~= prefix@);
        assert(next@.last() == c);
        if !('0' <= c && c <= '9') {
            assert(!all_digits(v@.subrange(lo as int, hi as int))) by {
                assert(v@.subrange(lo as int, hi as int)[i - lo] == c);
            }
            return None;
        }
        let d: u128 = (c as u32 - '0' as u32) as u128;
        assert(d as nat == digit_value(c));
        assert(decimal_value(next@) == decimal_value(prefix@) * 10 + d);
        if acc > cap {
            assert(decimal_value(next@) > cap) by (nonlinear_arith)
                requires
                    decimal_value(next@) == decimal_value(prefix@) * 10 + d,
                    decimal_value(prefix@) > cap,
                    d >= 0,
            ;
        } else {
            let n = acc * 10 + d;
            if n > cap {
                acc = cap + 1;
            } else {
                acc = n;
            }
        }
        assert(all_digits(next@)) by {
            assert forall|j: int| 0 <= j < next@.len() implies is_digit(#[trigger] next@[j]) by {
                if j < next@.len() - 1 {
                    assert(next@[j] == prefix@[j]);
                }
            }
        }
        i = i + 1;
    }
    Some(acc)
}

/// `parse_i64` as an `Option` of `int`.
pub open spec fn i64_option_view(r: Option<i64>) -> Option<int> {
    match r {
        Some(x) => Some(x as int),
        None => None,
    }
}

/// `str::parse::<i64>` on the characters `v[lo..hi]`.
pub fn parse_i64_chars(v: &Vec<char>, lo: usize, hi: usize) -> (r: Option<i64>)
    requires
        lo <= hi <= v.len(),
    ensures
        i64_option_view(r) == parse_i64(v@.subrange(lo as int, hi as int)),
{
    let ghost s = v@.subrange(lo as int, hi as int);
    if lo < hi && v[lo] == '-' {
        assert(s.drop_first() =~= v@.subrange(lo + 1, hi as int));
        if lo + 1 == hi {
            return None;
        }
        match saturated_decimal(v, lo + 1, hi, 9223372036854775808) {
            Some(n) => {
                if n > 9223372036854775808 {
                    None
                } else if n == 9223372036854775808 {
                    Some(i64::MIN)
                } else {
                    Some(-(n as i64))
                }
            },
            None => None,
        }
    } else {
        let start = if lo < hi && v[lo] == '+' {
            lo + 1
        } else {
            lo
        };
        assert(lo < hi && v@[lo as int] == '+' ==> s.drop_first() =~= v@.subrange(start as int, hi as int));
        assert(!(lo < hi && v@[lo as int] == '+') ==> s =~= v@.subrange(start as int, hi as int));
        if start == hi {
            return None;
        }
        match saturated_decimal(v, start, hi, 9223372036854775807) {
            Some(n) => {
                if n > 9223372036854775807 {
                    None
                } else {
                    Some(n as i64)
                }
            },
            None => None,
        }
    }
}

/// `str::parse::<u64>` on the characters `v[lo..hi]`.
pub fn parse_u64_chars(v: &Vec<char>, lo: usize, hi: usize) -> (r: Option<u64>)
    requires
        lo <= hi <= v.len(),
    ensures
        match r {
            Some(x) => parse_u64(v@.subrange(lo as int, hi as int)) == Some(x as int),
            None => parse_u64(v@.subrange(lo as int, hi as int)) is None,
        },
{
    let ghost s = v@.subrange(lo as int, hi as int);
    let start = if lo < hi && v[lo] == '+' {
        lo + 1
    } else {
        lo
    };
    assert(lo < hi && v@[lo as int] == '+' ==> s.drop_first() =~= v@.subrange(start as int, hi as int));
    assert(!(lo < hi && v@[lo as int] == '+') ==> s =~= v@.subrange(start as int, hi as int));
    if start == hi {
        return None;
    }
    match saturated_decimal(v, start, hi, 18446744073709551615) {
        Some(n) => {
            if n > 18446744073709551615 {
                None
            } else {
                Some(n as u64)
            }
        },
        None => None,
    }
}

/// The shortest decimal rendering of `n`.
pub fn decimal_chars(n: u64) -> (v: Vec<char>)
    ensures
        v@ == decimal_digits(n as nat),
    decreases n,
{
    let d = (n % 10) as u32;
    let c = char_of_digit(d);
    if n < 10 {
        vec![c]
    } else {
        let mut v = decimal_chars(n / 10);
        v.push(c);
        v
    }
}

fn char_of_digit(d: u32) -> (c: char)
    requires
        d < 10,
    ensures
        c == digit_char(d as nat),
{
    match d {
        0 => '0',
        1 => '1',
        2 => '2',
        3 => '3',
        4 => '4',
        5 => '5',
        6 => '6',
        7 => '7',
        8 => '8',
        _ => '9',
    }
}

/// Appends the decimal rendering of `n`, zero-padded to `width`.
pub fn push_padded_decimal(out: &mut Vec<char>, n: u64, width: usize)
    ensures
        final(out)@ == old(out)@ + padded_decimal(n as nat, width as nat),
{
    let digits = decimal_chars(n);
    let ghost start = out@;
    if digits.len() < width {
        let pad = width - digits.len();
        let mut k: usize = 0;
        while k < pad
            invariant
                k <= pad,
                out@ == start + Seq::new(k as nat, |i: int| '0'),
            decreases pad - k,
        {
            out.push('0');
            k = k + 1;
            assert(out@ =~= start + Seq::new(k as nat, |i: int| '0'));
        }
    }
    let ghost mid = out@;
    let mut j: usize = 0;
    while j < digits.len()
        invariant
            j <= digits.len(),
            out@ == mid + digits@.take(j as int),
        decreases digits.len() - j,
    {
        out.push(digits[j]);
        j = j + 1;
        assert(out@ =~= mid + digits@.take(j as int));
    }
    assert(digits@.take(digits.len() as int) =~= digits@);
    assert(out@ =~= start + padded_decimal(n as nat, width as nat));
}

/// Appends the characters of `s`.
pub fn push_str_chars(out: &mut Vec<char>, s: &str)
    ensures
        final(out)@ == old(out)@ + s@,
{
    let cs = chars_of(s);
    let ghost start = out@;
    let mut j: usize = 0;
    while j < cs.len()
        invariant
            j <= cs.len(),
            out@ == start + cs@.take(j as int),
        decreases cs.len() - j,
    {
        out.push(cs[j]);
        j = j + 1;
        assert(out@ =~= start + cs@.take(j as int));
    }
    assert(cs@.take(cs.len() as int) =~= cs@);
}


/// A copy of `v[lo..hi]`.
pub fn sub_chars(v: &Vec<char>, lo: usize, hi: usize) -> (r: Vec<char>)
    requires
        lo <= hi <= v.len(),
    ensures
        r@ == v@.subrange(lo as int, hi as int),
{
    let mut r: Vec<char> = Vec::new();
    let mut i = lo;
    while i < hi
        invariant
            lo <= i <= hi <= v.len(),
            r@ == v@.subrange(lo as int, i as int),
        decreases hi - i,
    {
        r.push(v[i]);
        i = i + 1;
        assert(r@ =~= v@.subrange(lo as int, i as int));
    }
    r
}

/// `str::split_once(c)` on characters.
pub fn split_once_chars(s: &Vec<char>, c: char) -> (r: Option<(Vec<char>, Vec<char>)>)
    ensures
        match r {
            Some((a, b)) => split_once(s@, c) == Some((a@, b@)),
            None => split_once(s@, c) is None,
        },
{
    let i = find_char(s, c, 0);
    proof {
        lemma_index_from_bounds(s@, c, 0);
    }
    if i < s.len() {
        Some((sub_chars(s, 0, i), sub_chars(s, i + 1, s.len())))
    } else {
        None
    }
}

/// `str::splitn(3, c)` on characters, when it yields three pieces.
pub fn split3_chars(s: &Vec<char>, c: char) -> (r: Option<(Vec<char>, Vec<char>, Vec<char>)>)
    ensures
        match r {
            Some((a, b, d)) => split3(s@, c) == Some((a@, b@, d@)),
            None => split3(s@, c) is None,
        },
{
    match split_once_chars(s, c) {
        Some((a, rest)) => match split_once_chars(&rest, c) {
            Some((b, d)) => Some((a, b, d)),
            None => None,
        },
        None => None,
    }
}


proof fn lemma_digit_char(d: nat)
    requires
        d < 10,
    ensures
        is_digit(digit_char(d)),
        digit_value(digit_char(d)) == d,
{
    assert(digit_char(d) as int == '0' as int + d);
}

proof fn lemma_decimal_digits(n: nat)
    ensures
        decimal_digits(n).len() >= 1,
        all_digits(decimal_digits(n)),
        decimal_value(decimal_digits(n)) == n,
    decreases n,
{
    lemma_digit_char(n % 10);
    if n < 10 {
        assert(n % 10 == n);
        assert(decimal_digits(n).drop_last() =~= Seq::<char>::empty());
        assert(decimal_digits(n)[0] == digit_char(n));
        assert(decimal_value(decimal_digits(n)) == decimal_value(Seq::<char>::empty()) * 10
            + digit_value(digit_char(n)));
    } else {
        lemma_decimal_digits(n / 10);
        let s = decimal_digits(n);
        assert(s.drop_last() =~= decimal_digits(n / 10));
        assert(s.last() == digit_char(n % 10));
        assert(decimal_value(s) == decimal_value(decimal_digits(n / 10)) * 10 + digit_value(
            digit_char(n % 10),
        ));
        assert((n / 10) * 10 + n % 10 == n);
        assert forall|i: int| 0 <= i < s.len() implies is_digit(#[trigger] s[i]) by {
            if i < s.len() - 1 {
                assert(s[i] == decimal_digits(n / 10)[i]);
            } else {
                assert(s[i] == digit_char(n % 10));
            }
        }
    }
}

proof fn lemma_zeros_value(k: nat)
    ensures
        decimal_value(Seq::new(k, |i: int| '0')) == 0,
    decreases k,
{
    if k > 0 {
        assert(Seq::new(k, |i: int| '0').drop_last() =~= Seq::new((k - 1) as nat, |i: int| '0'));
        lemma_zeros_value((k - 1) as nat);
    }
}

proof fn lemma_zeros_prefix_value(k: nat, s: Seq<char>)
    ensures
        decimal_value(Seq::new(k, |i: int| '0') + s) == decimal_value(s),
    decreases s.len(),
{
    let z = Seq::new(k, |i: int| '0');
    if s.len() == 0 {
        assert(z + s =~= z);
        lemma_zeros_value(k);
    } else {
        assert((z + s).drop_last() =~= z + s.drop_last());
        lemma_zeros_prefix_value(k, s.drop_last());
    }
}

/// A zero-padded decimal rendering is all digits and denotes its number.
pub proof fn lemma_padded_decimal(n: nat, width: nat)
    ensures
        padded_decimal(n, width).len() >= 1,
        all_digits(padded_decimal(n, width)),
        decimal_value(padded_decimal(n, width)) == n,
{
    lemma_decimal_digits(n);
    let d = decimal_digits(n);
    if d.len() < width {
        let k = (width - d.len()) as nat;
        let z = Seq::new(k, |i: int| '0');
        lemma_zeros_prefix_value(k, d);
        let p = z + d;
        assert forall|i: int| 0 <= i < p.len() implies is_digit(#[trigger] p[i]) by {
            if i >= z.len() {
                assert(p[i] == d[i - z.len()]);
            }
        }
    }
}

/// `str::parse::<i64>` reads back a zero-padded decimal rendering.
pub proof fn lemma_parse_padded_decimal(n: nat, width: nat)
    requires
        n <= 9223372036854775807,
    ensures
        parse_i64(padded_decimal(n, width)) == Some(n as int),
{
    lemma_padded_decimal(n, width);
    let s = padded_decimal(n, width);
    assert(is_digit(s[0]));
}

/// No occurrence of `c` in `s`: `split_once` finds nothing.
pub proof fn lemma_split_once_absent(s: Seq<char>, c: char)
    requires
        forall|j: int| 0 <= j < s.len() ==> s[j] != c,
    ensures
        split_once(s, c) is None,
{
    lemma_index_from_bounds(s, c, 0);
}


/// Whether `s` begins with `prefix`.
pub open spec fn starts_with(s: Seq<char>, prefix: Seq<char>) -> bool {
    prefix.len() <= s.len() && s.subrange(0, prefix.len() as int) == prefix
}

/// Whether the text `p` occurs nowhere in `s`.
pub open spec fn lacks(s: Seq<char>, p: Seq<char>) -> bool {
    forall|j: int| 0 <= j && j + p.len() <= s.len() ==> #[trigger] s.subrange(j, j + p.len()) != p
}

/// `str::starts_with` on two strings.
pub fn str_starts_with(s: &str, prefix: &str) -> (r: bool)
    ensures
        r == starts_with(s@, prefix@),
{
    let a = chars_of(s);
    let b = chars_of(prefix);
    if b.len() > a.len() {
        return false;
    }
    let mut i: usize = 0;
    while i < b.len()
        invariant
            a@ == s@,
            b@ == prefix@,
            b.len() <= a.len(),
            i <= b.len(),
            a@.subrange(0, i as int) == b@.subrange(0, i as int),
        decreases b.len() - i,
    {
        if a[i] != b[i] {
            assert(a@.subrange(0, b.len() as int)[i as int] == a@[i as int]);
            assert(a@.subrange(0, b.len() as int)[i as int] != b@[i as int]);
            return false;
        }
        i = i + 1;
        assert(a@.subrange(0, i as int) =~= b@.subrange(0, i as int));
    }
    assert(b@.subrange(0, b.len() as int) =~= b@);
    true
}

/// Whether two strings hold the same characters.
pub fn str_eq(s: &str, t: &str) -> (r: bool)
    ensures
        r == (s@ == t@),
{
    let a = chars_of(s);
    let b = chars_of(t);
    if a.len() != b.len() {
        return false;
    }
    let mut i: usize = 0;
    while i < a.len()
        invariant
            a@ == s@,
            b@ == t@,
            a.len() == b.len(),
            i <= a.len(),
            a@.subrange(0, i as int) == b@.subrange(0, i as int),
        decreases a.len() - i,
    {
        if a[i] != b[i] {
            assert(a@[i as int] != b@[i as int]);
            return false;
        }
        i = i + 1;
        assert(a@.subrange(0, i as int) =~= b@.subrange(0, i as int));
    }
    assert(a@.subrange(0, a.len() as int) =~= a@);
    assert(b@.subrange(0, b.len() as int) =~= b@);
    true
}

/// Whether an optional string holds exactly `t`.
pub open spec fn opt_str_is(s: Option<String>, t: Seq<char>) -> bool {
    match s {
        Some(x) => x@ == t,
        None => false,
    }
}

/// Whether `s` is `Some` and holds the same characters as `t`.
pub fn opt_string_eq(s: &Option<String>, t: &str) -> (r: bool)
    ensures
        r == opt_str_is(*s, t@),
{
    match s {
        Some(x) => str_eq(x.as_str(), t),
        None => false,
    }
}

/// The first index at or after `k` whose character is not `c`, or `s.len()`.
pub open spec fn skip_from(s: Seq<char>, c: char, k: int) -> int
    decreases s.len() - k,
{
    if k >= s.len() {
        s.len() as int
    } else if s[k] == c {
        skip_from(s, c, k + 1)
    } else {
        k
    }
}

/// `str::trim_start_matches(c)`: `s` without its leading run of `c`.
pub open spec fn trim_start(s: Seq<char>, c: char) -> Seq<char> {
    s.subrange(skip_from(s, c, 0), s.len() as int)
}

pub proof fn lemma_skip_from_bounds(s: Seq<char>, c: char, k: int)
    requires
        0 <= k <= s.len(),
    ensures
        k <= skip_from(s, c, k) <= s.len(),
    decreases s.len() - k,
{
    if k < s.len() && s[k] == c {
        lemma_skip_from_bounds(s, c, k + 1);
    }
}

/// The index in `s` of the first character at or after `from` that is not
/// `c`, or `s.len()`.
pub fn skip_char(s: &Vec<char>, c: char, from: usize) -> (i: usize)
    requires
        from <= s.len(),
    ensures
        i == skip_from(s@, c, from as int),
{
    let mut i = from;
    while i < s.len()
        invariant
            from <= i <= s.len(),
            skip_from(s@, c, from as int) == skip_from(s@, c, i as int),
        decreases s.len() - i,
    {
        if s[i] != c {
            return i;
        }
        i = i + 1;
    }
    i
}


/// The decimal rendering of a signed integer, with a leading `-` when
/// negative (Rust's `{}` on an integer).
pub open spec fn signed_decimal(n: int) -> Seq<char> {
    if n < 0 {
        seq!['-'] + decimal_digits((-n) as nat)
    } else {
        decimal_digits(n as nat)
    }
}

/// Appends the decimal rendering of `n`.
pub fn push_signed_decimal(out: &mut Vec<char>, n: i64)
    ensures
        final(out)@ == old(out)@ + signed_decimal(n as int),
{
    let magnitude: u64 = if n < 0 {
        if n == i64::MIN {
            9223372036854775808u64
        } else {
            (-n) as u64
        }
    } else {
        n as u64
    };
    let digits = decimal_chars(magnitude);
    let ghost start = out@;
    if n < 0 {
        out.push('-');
    }
    let ghost mid = out@;
    let mut j: usize = 0;
    while j < digits.len()
        invariant
            j <= digits.len(),
            out@ == mid + digits@.take(j as int),
        decreases digits.len() - j,
    {
        out.push(digits[j]);
        j = j + 1;
        assert(out@ =~= mid + digits@.take(j as int));
    }
    assert(digits@.take(digits.len() as int) =~= digits@);
    assert(out@ =~= start + signed_decimal(n as int));
}

/// Appends the characters of `s` (a `String`).
pub fn push_string_chars(out: &mut Vec<char>, s: &String)
    ensures
        final(out)@ == old(out)@ + s@,
{
    push_str_chars(out, s.as_str());
}


/// The shortest decimal rendering of a `u128`.
pub fn decimal_chars_wide(n: u128) -> (v: Vec<char>)
    ensures
        v@ == decimal_digits(n as nat),
    decreases n,
{
    let d = (n % 10) as u32;
    let c = char_of_digit(d);
    if n < 10 {
        vec![c]
    } else {
        let mut v = decimal_chars_wide(n / 10);
        v.push(c);
        v
    }
}

/// Appends the characters `cs`.
pub fn push_chars(out: &mut Vec<char>, cs: &Vec<char>)
    ensures
        final(out)@ == old(out)@ + cs@,
{
    let ghost start = out@;
    let mut j: usize = 0;
    while j < cs.len()
        invariant
            j <= cs.len(),
            out@ == start + cs@.take(j as int),
        decreases cs.len() - j,
    {
        out.push(cs[j]);
        j = j + 1;
        assert(out@ =~= start + cs@.take(j as int));
    }
    assert(cs@.take(cs.len() as int) =~= cs@);
}

/// The lowercase hexadecimal digit for a value below sixteen.
pub open spec fn hex_char(d: nat) -> char {
    if d < 10 {
        digit_char(d)
    } else {
        ('a' as int + d - 10) as char
    }
}

/// The shortest lowercase hexadecimal rendering of `n`.
pub open spec fn hex_digits(n: nat) -> Seq<char>
    decreases n,
{
    if n < 16 {
        seq![hex_char(n)]
    } else {
        hex_digits(n / 16).push(hex_char(n % 16))
    }
}

/// The lowercase hexadecimal rendering of `n`, left-padded with zeros to
/// at least `width` characters (Rust's `{:0width$x}`).
pub open spec fn padded_hex(n: nat, width: nat) -> Seq<char> {
    let digits = hex_digits(n);
    if digits.len() < width {
        Seq::new((width - digits.len()) as nat, |i: int| '0') + digits
    } else {
        digits
    }
}

fn char_of_hex_digit(d: u32) -> (c: char)
    requires
        d < 16,
    ensures
        c == hex_char(d as nat),
{
    match d {
        0 => '0',
        1 => '1',
        2 => '2',
        3 => '3',
        4 => '4',
        5 => '5',
        6 => '6',
        7 => '7',
        8 => '8',
        9 => '9',
        10 => 'a',
        11 => 'b',
        12 => 'c',
        13 => 'd',
        14 => 'e',
        _ => 'f',
    }
}

/// The shortest lowercase hexadecimal rendering of `n`.
pub fn hex_chars(n: u64) -> (v: Vec<char>)
    ensures
        v@ == hex_digits(n as nat),
    decreases n,
{
    let d = (n % 16) as u32;
    let c = char_of_hex_digit(d);
    if n < 16 {
        vec![c]
    } else {
        let mut v = hex_chars(n / 16);
        v.push(c);
        v
    }
}

/// Appends the lowercase hexadecimal rendering of `n`, zero-padded to `width`.
pub fn push_padded_hex(out: &mut Vec<char>, n: u64, width: usize)
    ensures
        final(out)@ == old(out)@ + padded_hex(n as nat, width as nat),
{
    let digits = hex_chars(n);
    let ghost start = out@;
    if digits.len() < width {
        let pad = width - digits.len();
        let mut k: usize = 0;
        while k < pad
            invariant
                k <= pad,
                out@ == start + Seq::new(k as nat, |i: int| '0'),
            decreases pad - k,
        {
            out.push('0');
            k = k + 1;
            assert(out@ =~= start + Seq::new(k as nat, |i: int| '0'));
        }
    }
    let ghost mid = out@;
    push_chars(out, &digits);
    assert(out@ =~= start + padded_hex(n as nat, width as nat));
}

/// Searching from `k` is searching the rest of `s` from its start.
pub proof fn lemma_index_from_suffix(s: Seq<char>, c: char, k: int)
    requires
        0 <= k <= s.len(),
    ensures
        index_from(s, c, k) == k + index_from(s.subrange(k, s.len() as int), c, 0),
{
    let a = s.subrange(0, k);
    let b = s.subrange(k, s.len() as int);
    assert(s =~= a + b);
    lemma_index_from_offset(a, b, c, 0);
}
} // verus!
