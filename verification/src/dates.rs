//! Conversions between Unix seconds and the API's RFC 3339 date format,
//! `YYYY-MM-DDTHH:MM:SS[.fff]Z`, in the proleptic Gregorian calendar.

use vstd::prelude::*;
use crate::text::{
    all_digits, is_digit, lemma_padded_decimal, lemma_parse_padded_decimal, lemma_split_once_absent,
    lemma_split_once_concat,
    chars_of, i64_option_view, padded_decimal, parse_i64, parse_i64_chars, push_padded_decimal,
    split3, split3_chars, split_once, split_once_chars, string_from_chars, sub_chars,
};

verus! {

/// Gregorian leap year.
pub open spec fn is_leap_year(y: int) -> bool {
    y % 4 == 0 && (y % 100 != 0 || y % 400 == 0)
}

/// Number of days in month `m` (1-12) of year `y`.
pub open spec fn days_in_month(y: int, m: int) -> int {
    if m == 2 {
        if is_leap_year(y) { 29 } else { 28 }
    } else if m == 4 || m == 6 || m == 9 || m == 11 {
        30
    } else {
        31
    }
}

/// A calendar date that exists.
pub open spec fn valid_date(y: int, m: int, d: int) -> bool {
    1 <= m <= 12 && 1 <= d <= days_in_month(y, m)
}

/// Leap years among years `1..=n` (counted from year zero for any `n`).
pub open spec fn leap_years_through(n: int) -> int {
    n / 4 - n / 100 + n / 400
}

/// Days of year `y` before the first day of month `m`.
pub open spec fn days_before_month(y: int, m: int) -> int {
    let base = if m == 1 {
        0int
    } else if m == 2 {
        31
    } else if m == 3 {
        59
    } else if m == 4 {
        90
    } else if m == 5 {
        120
    } else if m == 6 {
        151
    } else if m == 7 {
        181
    } else if m == 8 {
        212
    } else if m == 9 {
        243
    } else if m == 10 {
        273
    } else if m == 11 {
        304
    } else {
        334
    };
    if m > 2 && is_leap_year(y) { base + 1 } else { base }
}

/// Days from 1970-01-01 to year `y`, month `m`, day `d`; a day past the
/// end of its month counts on into the next.
pub open spec fn days_from_civil(y: int, m: int, d: int) -> int {
    365 * (y - 1970) + leap_years_through(y - 1) - leap_years_through(1969) + days_before_month(y, m)
        + d - 1
}

/// The calendar date of day `z` counted from 1970-01-01.
pub open spec fn civil_from_days(z: int) -> (int, int, int) {
    choose|date: (int, int, int)|
        valid_date(date.0, date.1, date.2) && days_from_civil(date.0, date.1, date.2) == z
}

/// `YYYY-MM-DDTHH:MM:SSZ`, each field zero-padded.
pub open spec fn timestamp_text(y: nat, m: nat, d: nat, hh: nat, mm: nat, ss: nat) -> Seq<char> {
    padded_decimal(y, 4) + seq!['-'] + padded_decimal(m, 2) + seq!['-'] + padded_decimal(d, 2)
        + seq!['T'] + padded_decimal(hh, 2) + seq![':'] + padded_decimal(mm, 2) + seq![':']
        + padded_decimal(ss, 2) + seq!['Z']
}

/// The text that `unix_to_rfc3339` gives for `unix` seconds.
pub open spec fn unix_text(unix: nat) -> Seq<char> {
    let date = civil_from_days((unix / 86400) as int);
    let secs = unix % 86400;
    timestamp_text(
        date.0 as nat,
        date.1 as nat,
        date.2 as nat,
        secs / 3600,
        (secs % 3600) / 60,
        secs % 60,
    )
}

/// The fields `(y, m, d, hh, mm, ss)` that `text` spells when it has the
/// shape `Y-M-DTH:M:S[.frac]Z`, each field as `str::parse::<i64>` reads it.
pub open spec fn rfc3339_fields(text: Seq<char>) -> Option<(int, int, int, int, int, int)> {
    if text.len() == 0 || text.last() != 'Z' {
        None
    } else {
        match split_once(text.drop_last(), 'T') {
            None => None,
            Some((date, time)) => {
                let whole = match split_once(time, '.') {
                    Some((w, _)) => w,
                    None => time,
                };
                match (split3(date, '-'), split3(whole, ':')) {
                    (Some((a, b, c)), Some((h, i, j))) => match (
                        parse_i64(a),
                        parse_i64(b),
                        parse_i64(c),
                        parse_i64(h),
                        parse_i64(i),
                        parse_i64(j),
                    ) {
                        (Some(y), Some(m), Some(d), Some(hh), Some(mm), Some(ss)) => Some(
                            (y, m, d, hh, mm, ss),
                        ),
                        _ => None,
                    },
                    _ => None,
                }
            },
        }
    }
}

/// Unix seconds that `text` denotes: its fields must have month 1-12,
/// day 1-31, hour at most 23, minute at most 59 and second at most 60.
pub open spec fn rfc3339_seconds(text: Seq<char>) -> Option<int> {
    match rfc3339_fields(text) {
        Some((y, m, d, hh, mm, ss)) => {
            if 1 <= m <= 12 && 1 <= d <= 31 && hh <= 23 && mm <= 59 && ss <= 60 {
                Some(days_from_civil(y, m, d) * 86400 + hh * 3600 + mm * 60 + ss)
            } else {
                None
            }
        },
        None => None,
    }
}

/// Start of the March-based year `k` of a 400-year era, in days.
spec fn era_year_start(k: int) -> int {
    365 * k + k / 4 - k / 100
}

/// Start of month `mp` (0 = March) of a March-based year, in days.
spec fn march_month_start(mp: int) -> int {
    (153 * mp + 2) / 5
}

/// Howard Hinnant's days-from-civil, as the implementation computes it.
spec fn hinnant_days(y: int, m: int, d: int) -> int {
    let yy = if m <= 2 { y - 1 } else { y };
    let era = yy / 400;
    let yoe = yy % 400;
    let mp = if m > 2 { m - 3 } else { m + 9 };
    let doy = march_month_start(mp) + d - 1;
    let doe = yoe * 365 + yoe / 4 - yoe / 100 + doy;
    era * 146097 + doe - 719468
}

proof fn lemma_leap_step(y: int)
    ensures
        leap_years_through(y) == leap_years_through(y - 1) + if is_leap_year(y) { 1int } else { 0 },
{
}

proof fn lemma_hinnant_days(y: int, m: int, d: int)
    requires
        1 <= m <= 12,
    ensures
        hinnant_days(y, m, d) == days_from_civil(y, m, d),
{
    let yy = if m <= 2 { y - 1 } else { y };
    let era = yy / 400;
    let yoe = yy % 400;
    assert(yy == 400 * era + yoe);
    assert(yy / 4 == 100 * era + yoe / 4);
    assert(yy / 100 == 4 * era + yoe / 100);
    assert(yy / 400 == era);
    assert(era * 146097 + yoe * 365 + yoe / 4 - yoe / 100 == 365 * yy + leap_years_through(yy));
    lemma_leap_step(y);
    assert(leap_years_through(1969) == 477);
    let mp = if m > 2 { m - 3 } else { m + 9 };
    assert(march_month_start(mp) == if m > 2 {
        days_before_month(y, m) - 59 - if is_leap_year(y) { 1int } else { 0 }
    } else {
        days_before_month(y, m) + 306
    });
}

proof fn lemma_year_of_era(doe: int)
    requires
        0 <= doe < 146097,
    ensures
        ({
            let yoe = (doe - doe / 1460 + doe / 36524 - doe / 146096) / 365;
            &&& 0 <= yoe <= 399
            &&& 0 <= doe - era_year_start(yoe) <= 365
            &&& doe - era_year_start(yoe) == 365 ==> is_leap_year(yoe + 1)
        }),
{
    if doe == 146096 {
        assert(era_year_start(399) == 145731);
    } else {
        let c = doe / 36524;
        let r = doe % 36524;
        assert(doe == 36524 * c + r);
        assert(0 <= c <= 3);
        let q = r / 1461;
        let s = r % 1461;
        assert(r == 1461 * q + s);
        assert(0 <= q <= 24);
        let e: int = if q + s + 24 * c >= 1460 { 1 } else { 0 };
        assert(doe / 1460 == 25 * c + q + e);
        assert(doe / 146096 == 0);
        assert(doe - doe / 1460 + doe / 36524 - doe / 146096 == 36500 * c + 1460 * q + s - e);
        let t = (s - e) / 365;
        assert(0 <= t <= 3);
        let y = 100 * c + 4 * q + t;
        assert((doe - doe / 1460 + doe / 36524 - doe / 146096) / 365 == y);
        assert(y / 4 == 25 * c + q);
        assert(y / 100 == c);
        assert(era_year_start(y) == 36524 * c + 1461 * q + 365 * t);
        assert(s - 365 * t <= 365);
        if s - 365 * t == 365 {
            assert(t == 3);
            assert(q < 24);
            assert((y + 1) % 4 == 0);
            assert((y + 1) % 100 != 0);
        }
    }
}

proof fn lemma_month_of_year(doy: int, leap: bool)
    requires
        0 <= doy <= 365,
        doy == 365 ==> leap,
    ensures
        ({
            let mp = (5 * doy + 2) / 153;
            let d = doy - march_month_start(mp) + 1;
            let m = if mp < 10 { mp + 3 } else { mp - 9 };
            &&& 0 <= mp <= 11
            &&& 1 <= d
            &&& d <= if m == 2 {
                if leap { 29int } else { 28 }
            } else if m == 4 || m == 6 || m == 9 || m == 11 {
                30
            } else {
                31
            }
        }),
{
    let mp = (5 * doy + 2) / 153;
    assert(0 <= mp <= 11);
    assert(march_month_start(0) == 0);
    assert(march_month_start(1) == 31);
    assert(march_month_start(2) == 61);
    assert(march_month_start(3) == 92);
    assert(march_month_start(4) == 122);
    assert(march_month_start(5) == 153);
    assert(march_month_start(6) == 184);
    assert(march_month_start(7) == 214);
    assert(march_month_start(8) == 245);
    assert(march_month_start(9) == 275);
    assert(march_month_start(10) == 306);
    assert(march_month_start(11) == 337);
}


/// Howard Hinnant's civil-from-days for a day `z` on or after 0000-03-01,
/// as the implementation computes it.
spec fn hinnant_civil(z: int) -> (int, int, int) {
    let zz = z + 719468;
    let era = zz / 146097;
    let doe = zz % 146097;
    let yoe = (doe - doe / 1460 + doe / 36524 - doe / 146096) / 365;
    let doy = doe - era_year_start(yoe);
    let mp = (5 * doy + 2) / 153;
    let d = doy - march_month_start(mp) + 1;
    let m = if mp < 10 { mp + 3 } else { mp - 9 };
    let y = yoe + era * 400;
    (if m <= 2 { y + 1 } else { y }, m, d)
}

#[verifier::spinoff_prover]
#[verifier::rlimit(40)]
proof fn lemma_hinnant_civil(z: int)
    requires
        z + 719468 >= 0,
    ensures
        valid_date(hinnant_civil(z).0, hinnant_civil(z).1, hinnant_civil(z).2),
        days_from_civil(hinnant_civil(z).0, hinnant_civil(z).1, hinnant_civil(z).2) == z,
        0 <= hinnant_civil(z).0 <= (z + 719468) / 146097 * 400 + 400,
{
    let zz = z + 719468;
    let era = zz / 146097;
    let doe = zz % 146097;
    lemma_year_of_era(doe);
    let yoe = (doe - doe / 1460 + doe / 36524 - doe / 146096) / 365;
    let doy = doe - era_year_start(yoe);
    let yy = yoe + era * 400;
    assert(is_leap_year(yoe + 1) == is_leap_year(yy + 1));
    lemma_month_of_year(doy, is_leap_year(yy + 1));
    let (y, m, d) = hinnant_civil(z);
    let mp = (5 * doy + 2) / 153;
    assert(m <= 2 ==> y == yy + 1);
    assert(m > 2 ==> y == yy);
    assert(valid_date(y, m, d));
    lemma_hinnant_days(y, m, d);
    assert((if m <= 2 { y - 1 } else { y }) == yy);
    assert(yy / 400 == era);
    assert(yy % 400 == yoe);
    assert((if m > 2 { m - 3 } else { m + 9 }) == mp);
}

proof fn lemma_leap_count_grows(a: int, b: int)
    requires
        a <= b,
    ensures
        365 * (b - a) + leap_years_through(b) - leap_years_through(a) >= 0,
{
}

/// Two dates that exist and fall on the same day are the same date.
pub proof fn lemma_days_from_civil_injective(y1: int, m1: int, d1: int, y2: int, m2: int, d2: int)
    requires
        valid_date(y1, m1, d1),
        valid_date(y2, m2, d2),
        days_from_civil(y1, m1, d1) == days_from_civil(y2, m2, d2),
    ensures
        y1 == y2 && m1 == m2 && d1 == d2,
{
    lemma_date_in_year(y1, m1, d1);
    lemma_date_in_year(y2, m2, d2);
    if y1 < y2 {
        lemma_leap_count_grows(y1, y2 - 1);
        lemma_leap_step(y1);
    } else if y2 < y1 {
        lemma_leap_count_grows(y2, y1 - 1);
        lemma_leap_step(y2);
    } else {
        if m1 < m2 {
            lemma_months_ordered(y1, m1, m2);
        } else if m2 < m1 {
            lemma_months_ordered(y1, m2, m1);
        }
    }
}

proof fn lemma_date_in_year(y: int, m: int, d: int)
    requires
        valid_date(y, m, d),
    ensures
        0 <= days_before_month(y, m) + d - 1 < 365 + if is_leap_year(y) { 1int } else { 0 },
{
}

proof fn lemma_months_ordered(y: int, m1: int, m2: int)
    requires
        1 <= m1 < m2 <= 12,
    ensures
        days_before_month(y, m1) + days_in_month(y, m1) <= days_before_month(y, m2),
{
}

/// A day on or after 1970-01-01 names the date that `hinnant_civil` gives.
proof fn lemma_civil_from_days(z: int)
    requires
        z >= 0,
    ensures
        civil_from_days(z) == hinnant_civil(z),
        valid_date(civil_from_days(z).0, civil_from_days(z).1, civil_from_days(z).2),
        days_from_civil(civil_from_days(z).0, civil_from_days(z).1, civil_from_days(z).2) == z,
{
    lemma_hinnant_civil(z);
    let w = hinnant_civil(z);
    assert(valid_date(w.0, w.1, w.2) && days_from_civil(w.0, w.1, w.2) == z);
    let c = civil_from_days(z);
    lemma_days_from_civil_injective(c.0, c.1, c.2, w.0, w.1, w.2);
}


/// The signed value of a parsed field, for the checks of `rfc3339_to_unix`.
fn parse_field(v: &Vec<char>) -> (r: Option<i64>)
    ensures
        i64_option_view(r) == parse_i64(v@),
{
    assert(v@.subrange(0, v@.len() as int) =~= v@);
    parse_i64_chars(v, 0, v.len())
}

/// `YYYY-MM-DDTHH:MM:SS[.fff]Z` (the API's date format) to Unix seconds,
/// counted in the proleptic Gregorian calendar. `None` for any other text,
/// offsets other than `Z` included, and for times before the epoch or past
/// what a `u64` holds.
pub fn rfc3339_to_unix(value: &str) -> (r: Option<u64>)
    ensures
        r == match rfc3339_seconds(value@) {
            Some(secs) => if 0 <= secs <= u64::MAX {
                Some(secs as u64)
            } else {
                None
            },
            None => None,
        },
{
    let v = chars_of(value);
    let n = v.len();
    if n == 0 || v[n - 1] != 'Z' {
        return None;
    }
    let body = sub_chars(&v, 0, n - 1);
    assert(body@ =~= value@.drop_last());
    let (date, time) = match split_once_chars(&body, 'T') {
        Some(parts) => parts,
        None => return None,
    };
    let whole = match split_once_chars(&time, '.') {
        Some((w, _)) => w,
        None => time,
    };
    let (a, b, c) = match split3_chars(&date, '-') {
        Some(parts) => parts,
        None => return None,
    };
    let (h, i, j) = match split3_chars(&whole, ':') {
        Some(parts) => parts,
        None => return None,
    };
    let y = match parse_field(&a) {
        Some(x) => x,
        None => return None,
    };
    let m = match parse_field(&b) {
        Some(x) => x,
        None => return None,
    };
    let d = match parse_field(&c) {
        Some(x) => x,
        None => return None,
    };
    let hh = match parse_field(&h) {
        Some(x) => x,
        None => return None,
    };
    let mm = match parse_field(&i) {
        Some(x) => x,
        None => return None,
    };
    let ss = match parse_field(&j) {
        Some(x) => x,
        None => return None,
    };
    assert(rfc3339_fields(value@) == Some((y as int, m as int, d as int, hh as int, mm as int, ss as int)));
    if !(1 <= m && m <= 12) || !(1 <= d && d <= 31) || hh > 23 || mm > 59 || ss > 60 {
        return None;
    }
    civil_seconds(y, m, d, hh, mm, ss)
}

/// Unix seconds of the given civil time, when they fit in a `u64`.
fn civil_seconds(y: i64, m: i64, d: i64, hh: i64, mm: i64, ss: i64) -> (r: Option<u64>)
    requires
        1 <= m <= 12,
        1 <= d <= 31,
    ensures
        ({
            let secs = days_from_civil(y as int, m as int, d as int) * 86400 + hh * 3600 + mm * 60
                + ss;
            r == if 0 <= secs <= u64::MAX {
                Some(secs as u64)
            } else {
                None
            }
        }),
{
    let days = civil_days(y, m, d);
    assert(-1000000000000000000000000000i128 <= days * 86400 <= 1000000000000000000000000000i128) by (nonlinear_arith)
        requires
            -10000000000000000000000i128 <= days <= 10000000000000000000000i128,
    ;
    let secs: i128 = days * 86400 + hh as i128 * 3600 + mm as i128 * 60 + ss as i128;
    if secs < 0 || secs > u64::MAX as i128 {
        None
    } else {
        Some(secs as u64)
    }
}

/// Days from 1970-01-01 to the given date (Howard Hinnant's algorithm).
fn civil_days(y: i64, m: i64, d: i64) -> (days: i128)
    requires
        1 <= m <= 12,
        1 <= d <= 31,
    ensures
        days == days_from_civil(y as int, m as int, d as int),
        -10000000000000000000000i128 <= days <= 10000000000000000000000i128,
{
    let yy: i128 = if m <= 2 {
        y as i128 - 1
    } else {
        y as i128
    };
    let era: i128 = if yy >= 0 {
        yy / 400
    } else {
        -((399 - yy) / 400)
    };
    assert(era == yy / 400);
    let yoe: i128 = yy - era * 400;
    assert(yoe == yy % 400);
    let mp: i128 = if m > 2 {
        m as i128 - 3
    } else {
        m as i128 + 9
    };
    let doy: i128 = (153 * mp + 2) / 5 + d as i128 - 1;
    let doe: i128 = yoe * 365 + yoe / 4 - yoe / 100 + doy;
    let days: i128 = era * 146097 + doe - 719468;
    assert(days == hinnant_days(y as int, m as int, d as int));
    proof {
        lemma_hinnant_days(y as int, m as int, d as int);
    }
    days
}

/// Unix seconds to `YYYY-MM-DDTHH:MM:SSZ` (UTC, proleptic Gregorian
/// calendar).
pub fn unix_to_rfc3339(unix: u64) -> (s: String)
    ensures
        s@ == unix_text(unix as nat),
{
    let days = unix / 86400;
    let secs = unix % 86400;
    let z = days + 719468;
    let era = z / 146097;
    let doe = z % 146097;
    let yoe = (doe - doe / 1460 + doe / 36524 - doe / 146096) / 365;
    proof {
        lemma_year_of_era(doe as int);
    }
    let doy = doe - (365 * yoe + yoe / 4 - yoe / 100);
    let mp = (5 * doy + 2) / 153;
    let d = doy - (153 * mp + 2) / 5 + 1;
    let m = if mp < 10 {
        mp + 3
    } else {
        mp - 9
    };
    let y0 = yoe + era * 400;
    let y = if m <= 2 {
        y0 + 1
    } else {
        y0
    };
    proof {
        lemma_civil_from_days(days as int);
        assert(civil_from_days(days as int) == (y as int, m as int, d as int));
    }
    let mut out: Vec<char> = Vec::new();
    push_padded_decimal(&mut out, y, 4);
    out.push('-');
    push_padded_decimal(&mut out, m, 2);
    out.push('-');
    push_padded_decimal(&mut out, d, 2);
    out.push('T');
    push_padded_decimal(&mut out, secs / 3600, 2);
    out.push(':');
    push_padded_decimal(&mut out, (secs % 3600) / 60, 2);
    out.push(':');
    push_padded_decimal(&mut out, secs % 60, 2);
    out.push('Z');
    assert(out@ =~= unix_text(unix as nat));
    string_from_chars(out.as_slice())
}


proof fn lemma_split3_digits(a: Seq<char>, b: Seq<char>, d: Seq<char>, c: char)
    requires
        all_digits(a),
        all_digits(b),
        !is_digit(c),
    ensures
        split3(a + seq![c] + b + seq![c] + d, c) == Some((a, b, d)),
{
    let s = a + seq![c] + b + seq![c] + d;
    let rest = b + seq![c] + d;
    assert(s =~= a + seq![c] + rest);
    assert forall|j: int| 0 <= j < a.len() implies a[j] != c by {
        assert(is_digit(a[j]));
    }
    lemma_split_once_concat(a, c, rest);
    assert forall|j: int| 0 <= j < b.len() implies b[j] != c by {
        assert(is_digit(b[j]));
    }
    lemma_split_once_concat(b, c, d);
}

proof fn lemma_joined_lacks(a: Seq<char>, b: Seq<char>, d: Seq<char>, sep: char, c: char)
    requires
        all_digits(a),
        all_digits(b),
        all_digits(d),
        !is_digit(c),
        sep != c,
    ensures
        forall|j: int|
            0 <= j < (a + seq![sep] + b + seq![sep] + d).len() ==> (a + seq![sep] + b + seq![sep]
                + d)[j] != c,
{
    let s = a + seq![sep] + b + seq![sep] + d;
    assert forall|j: int| 0 <= j < s.len() implies s[j] != c by {
        if j < a.len() {
            assert(s[j] == a[j]);
            assert(is_digit(a[j]));
        } else if j == a.len() {
        } else if j < a.len() + 1 + b.len() {
            assert(s[j] == b[j - a.len() - 1]);
            assert(is_digit(b[j - a.len() - 1]));
        } else if j == a.len() + 1 + b.len() {
        } else {
            assert(s[j] == d[j - a.len() - 2 - b.len()]);
            assert(is_digit(d[j - a.len() - 2 - b.len()]));
        }
    }
}

/// The fields of a timestamp text read back as written.
proof fn lemma_timestamp_fields(y: nat, m: nat, d: nat, hh: nat, mm: nat, ss: nat)
    requires
        y <= 9223372036854775807,
        m <= 99,
        d <= 99,
        hh <= 99,
        mm <= 99,
        ss <= 99,
    ensures
        rfc3339_fields(timestamp_text(y, m, d, hh, mm, ss)) == Some(
            (y as int, m as int, d as int, hh as int, mm as int, ss as int),
        ),
{
    let py = padded_decimal(y, 4);
    let pm = padded_decimal(m, 2);
    let pd = padded_decimal(d, 2);
    let ph = padded_decimal(hh, 2);
    let pi = padded_decimal(mm, 2);
    let ps = padded_decimal(ss, 2);
    lemma_padded_decimal(y, 4);
    lemma_padded_decimal(m, 2);
    lemma_padded_decimal(d, 2);
    lemma_padded_decimal(hh, 2);
    lemma_padded_decimal(mm, 2);
    lemma_padded_decimal(ss, 2);
    lemma_parse_padded_decimal(y, 4);
    lemma_parse_padded_decimal(m, 2);
    lemma_parse_padded_decimal(d, 2);
    lemma_parse_padded_decimal(hh, 2);
    lemma_parse_padded_decimal(mm, 2);
    lemma_parse_padded_decimal(ss, 2);
    let date = py + seq!['-'] + pm + seq!['-'] + pd;
    let time = ph + seq![':'] + pi + seq![':'] + ps;
    let text = timestamp_text(y, m, d, hh, mm, ss);
    assert(text =~= date + seq!['T'] + time + seq!['Z']);
    assert(text.drop_last() =~= date + seq!['T'] + time);
    lemma_joined_lacks(py, pm, pd, '-', 'T');
    lemma_split_once_concat(date, 'T', time);
    lemma_joined_lacks(ph, pi, ps, ':', '.');
    lemma_split_once_absent(time, '.');
    lemma_split3_digits(py, pm, pd, '-');
    lemma_split3_digits(ph, pi, ps, ':');
}

proof fn lemma_day_seconds(secs: int)
    requires
        0 <= secs < 86400,
    ensures
        (secs / 3600) * 3600 + ((secs % 3600) / 60) * 60 + secs % 60 == secs,
        0 <= secs / 3600 <= 23,
        0 <= (secs % 3600) / 60 <= 59,
        0 <= secs % 60 <= 59,
{
}

/// Formatting Unix seconds and parsing the text back gives the same
/// seconds: `rfc3339_to_unix(&unix_to_rfc3339(u)) == Some(u)` for every `u`.
pub proof fn lemma_rfc3339_round_trip(unix: u64)
    ensures
        rfc3339_seconds(unix_text(unix as nat)) == Some(unix as int),
{
    let z = (unix / 86400) as int;
    let secs = (unix % 86400) as int;
    assert(unix == z * 86400 + secs);
    assert(0 <= z <= 213503982334601);
    lemma_civil_from_days(z);
    lemma_hinnant_civil(z);
    let date = civil_from_days(z);
    let y = date.0;
    let m = date.1;
    let d = date.2;
    assert(y <= (z + 719468) / 146097 * 400 + 400);
    assert(y <= 9223372036854775807);
    let hh = secs / 3600;
    let mm = (secs % 3600) / 60;
    let ss = secs % 60;
    lemma_day_seconds(secs);
    lemma_timestamp_fields(y as nat, m as nat, d as nat, hh as nat, mm as nat, ss as nat);
    assert(unix_text(unix as nat) == timestamp_text(
        y as nat,
        m as nat,
        d as nat,
        hh as nat,
        mm as nat,
        ss as nat,
    ));
    assert(days_from_civil(y, m, d) == z);
}

} // verus!
