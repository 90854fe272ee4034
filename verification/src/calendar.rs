//! The proleptic Gregorian calendar from 1970 on, and the text of a UTC
//! time in the release name format, `YYYY-MM-DDTHH-MM-SSZ`.

use vstd::prelude::*;
use vstd::utf8::{encode_utf8, is_ascii_chars, is_ascii_chars_encode_utf8};
use crate::releases::bytes_lt;

verus! {

/// A leap year of the Gregorian calendar.
pub open spec fn is_leap_year(y: int) -> bool {
    y % 4 == 0 && (y % 100 != 0 || y % 400 == 0)
}

/// The number of days of a year.
pub open spec fn year_days(y: int) -> int {
    if is_leap_year(y) {
        366
    } else {
        365
    }
}

/// The number of days of month `m` (1 to 12) of year `y`.
pub open spec fn month_days(y: int, m: int) -> int {
    if m == 2 {
        if is_leap_year(y) {
            29
        } else {
            28
        }
    } else if m == 4 || m == 6 || m == 9 || m == 11 {
        30
    } else {
        31
    }
}

/// The days of year `y` before the first of month `m`.
pub open spec fn days_before_month(y: int, m: int) -> int
    decreases m,
{
    if m <= 1 {
        0
    } else {
        days_before_month(y, m - 1) + month_days(y, m - 1)
    }
}

/// The days from 1970-01-01 to the first of January of year `y` (1970 or
/// later).
pub open spec fn days_before_year(y: int) -> int
    decreases y - 1970,
{
    if y <= 1970 {
        0
    } else {
        days_before_year(y - 1) + year_days(y - 1)
    }
}

/// A date of the calendar from 1970 on.
pub open spec fn is_valid_date(y: int, m: int, d: int) -> bool {
    y >= 1970 && 1 <= m <= 12 && 1 <= d <= month_days(y, m)
}

/// The number of the day `y-m-d`, counted from 1970-01-01 as day 0.
pub open spec fn day_number(y: int, m: int, d: int) -> int {
    days_before_year(y) + days_before_month(y, m) + d - 1
}

/// `(y1, m1, d1)` comes before `(y2, m2, d2)`.
pub open spec fn date_before(y1: int, m1: int, d1: int, y2: int, m2: int, d2: int) -> bool {
    y1 < y2 || (y1 == y2 && (m1 < m2 || (m1 == m2 && d1 < d2)))
}

proof fn lemma_year_is_months(y: int)
    ensures
        days_before_month(y, 13) == year_days(y),
{
    reveal_with_fuel(days_before_month, 13);
}

proof fn lemma_months_increase(y: int, m1: int, m2: int)
    requires
        1 <= m1 < m2 <= 13,
    ensures
        days_before_month(y, m1) + month_days(y, m1) <= days_before_month(y, m2),
    decreases m2,
{
    if m2 > m1 + 1 {
        lemma_months_increase(y, m1, m2 - 1);
    }
}

proof fn lemma_days_before_month_nonneg(y: int, m: int)
    ensures
        days_before_month(y, m) >= 0,
    decreases m,
{
    if m > 1 {
        lemma_days_before_month_nonneg(y, m - 1);
    }
}

proof fn lemma_years_increase(y1: int, y2: int)
    requires
        1970 <= y1 < y2,
    ensures
        days_before_year(y1) + year_days(y1) <= days_before_year(y2),
    decreases y2,
{
    if y2 > y1 + 1 {
        lemma_years_increase(y1, y2 - 1);
    }
}

/// Later dates have larger day numbers.
pub proof fn lemma_day_number_increases(y1: int, m1: int, d1: int, y2: int, m2: int, d2: int)
    requires
        is_valid_date(y1, m1, d1),
        is_valid_date(y2, m2, d2),
        date_before(y1, m1, d1, y2, m2, d2),
    ensures
        day_number(y1, m1, d1) < day_number(y2, m2, d2),
{
    if y1 < y2 {
        lemma_months_increase(y1, m1, 13);
        lemma_year_is_months(y1);
        lemma_years_increase(y1, y2);
        lemma_days_before_month_nonneg(y2, m2);
    } else if m1 < m2 {
        lemma_months_increase(y1, m1, m2);
    }
}

/// Every day from 1970-01-01 on has a date.
pub proof fn lemma_date_exists(days: nat)
    ensures
        exists|y: int, m: int, d: int| is_valid_date(y, m, d) && day_number(y, m, d) == days,
    decreases days,
{
    if days == 0 {
        assert(is_valid_date(1970, 1, 1) && day_number(1970, 1, 1) == 0);
    } else {
        lemma_date_exists((days - 1) as nat);
        let (y, m, d) = choose|y: int, m: int, d: int|
            is_valid_date(y, m, d) && day_number(y, m, d) == days - 1;
        if d < month_days(y, m) {
            assert(is_valid_date(y, m, d + 1) && day_number(y, m, d + 1) == days);
        } else if m < 12 {
            assert(is_valid_date(y, m + 1, 1) && day_number(y, m + 1, 1) == days);
        } else {
            lemma_year_is_months(y);
            assert(days_before_year(y + 1) == days_before_year(y) + year_days(y));
            assert(is_valid_date(y + 1, 1, 1) && day_number(y + 1, 1, 1) == days);
        }
    }
}


/// Two valid dates with the same day number are the same date.
pub proof fn lemma_date_unique(y1: int, m1: int, d1: int, y2: int, m2: int, d2: int)
    requires
        is_valid_date(y1, m1, d1),
        is_valid_date(y2, m2, d2),
        day_number(y1, m1, d1) == day_number(y2, m2, d2),
    ensures
        y1 == y2 && m1 == m2 && d1 == d2,
{
    if date_before(y1, m1, d1, y2, m2, d2) {
        lemma_day_number_increases(y1, m1, d1, y2, m2, d2);
    } else if date_before(y2, m2, d2, y1, m1, d1) {
        lemma_day_number_increases(y2, m2, d2, y1, m1, d1);
    }
}

/// The date of day `days` counted from 1970-01-01, as year, month, day.
pub open spec fn civil_date(days: nat) -> (int, int, int) {
    choose|y: int, m: int, d: int| is_valid_date(y, m, d) && day_number(y, m, d) == days
}

/// `civil_date` gives the one valid date with the day number asked for.
pub proof fn lemma_civil_date_is_the_date(days: nat, y: int, m: int, d: int)
    requires
        is_valid_date(y, m, d),
        day_number(y, m, d) == days,
    ensures
        civil_date(days) == (y, m, d),
{
    let (cy, cm, cd) = civil_date(days);
    lemma_date_unique(cy, cm, cd, y, m, d);
}

/// The character of a decimal digit.
pub open spec fn digit_char(d: int) -> char {
    if d <= 0 {
        '0'
    } else if d == 1 {
        '1'
    } else if d == 2 {
        '2'
    } else if d == 3 {
        '3'
    } else if d == 4 {
        '4'
    } else if d == 5 {
        '5'
    } else if d == 6 {
        '6'
    } else if d == 7 {
        '7'
    } else if d == 8 {
        '8'
    } else {
        '9'
    }
}

/// The last `k` decimal digits of `n`, zero-padded.
pub open spec fn decimal_digits(n: int, k: nat) -> Seq<char>
    decreases k,
{
    if k == 0 {
        seq![]
    } else {
        decimal_digits(n / 10, (k - 1) as nat).push(digit_char(n % 10))
    }
}

/// `a` comes before `b` at their first difference.
pub open spec fn chars_before(a: Seq<char>, b: Seq<char>) -> bool {
    exists|i: int|
        0 <= i < a.len() && i < b.len() && a.subrange(0, i) == b.subrange(0, i)
            && (#[trigger] a[i]) < b[i]
}

proof fn lemma_digit_chars_increase(a: int, b: int)
    requires
        0 <= a < b <= 9,
    ensures
        digit_char(a) < digit_char(b),
{
}

proof fn lemma_decimal_digits_len(n: int, k: nat)
    ensures
        decimal_digits(n, k).len() == k,
    decreases k,
{
    if k > 0 {
        lemma_decimal_digits_len(n / 10, (k - 1) as nat);
    }
}


/// Ten to the power `k`.
pub open spec fn pow10(k: nat) -> int
    decreases k,
{
    if k == 0 {
        1
    } else {
        10 * pow10((k - 1) as nat)
    }
}

/// Zero-padded decimals of the same width sort as the numbers do.
proof fn lemma_decimal_digits_increase(a: int, b: int, k: nat)
    requires
        0 <= a < b < pow10(k),
    ensures
        chars_before(decimal_digits(a, k), decimal_digits(b, k)),
    decreases k,
{
    let da = decimal_digits(a, k);
    let db = decimal_digits(b, k);
    let pa = decimal_digits(a / 10, (k - 1) as nat);
    let pb = decimal_digits(b / 10, (k - 1) as nat);
    lemma_decimal_digits_len(a / 10, (k - 1) as nat);
    lemma_decimal_digits_len(b / 10, (k - 1) as nat);
    if a / 10 < b / 10 {
        lemma_decimal_digits_increase(a / 10, b / 10, (k - 1) as nat);
        let i = choose|i: int|
            0 <= i < pa.len() && i < pb.len() && pa.subrange(0, i) == pb.subrange(0, i)
                && (#[trigger] pa[i]) < pb[i];
        assert(da.subrange(0, i) == pa.subrange(0, i));
        assert(db.subrange(0, i) == pb.subrange(0, i));
        assert(da[i] == pa[i] && db[i] == pb[i]);
    } else {
        let i = (k - 1) as int;
        lemma_digit_chars_increase(a % 10, b % 10);
        assert(da.subrange(0, i) == pa);
        assert(db.subrange(0, i) == pb);
        assert(da[i] < db[i]);
    }
}


proof fn lemma_before_prefix(p: Seq<char>, a: Seq<char>, b: Seq<char>)
    requires
        chars_before(a, b),
    ensures
        chars_before(p + a, p + b),
{
    let i = choose|i: int|
        0 <= i < a.len() && i < b.len() && a.subrange(0, i) == b.subrange(0, i)
            && (#[trigger] a[i]) < b[i];
    let j = p.len() + i;
    assert((p + a).subrange(0, j) == p + a.subrange(0, i));
    assert((p + b).subrange(0, j) == p + b.subrange(0, i));
    assert((p + a)[j] == a[i] && (p + b)[j] == b[i]);
}

proof fn lemma_before_suffix(a: Seq<char>, b: Seq<char>, s: Seq<char>, t: Seq<char>)
    requires
        chars_before(a, b),
        a.len() == b.len(),
    ensures
        chars_before(a + s, b + t),
{
    let i = choose|i: int|
        0 <= i < a.len() && i < b.len() && a.subrange(0, i) == b.subrange(0, i)
            && (#[trigger] a[i]) < b[i];
    assert((a + s).subrange(0, i) == a.subrange(0, i));
    assert((b + t).subrange(0, i) == b.subrange(0, i));
    assert((a + s)[i] == a[i] && (b + t)[i] == b[i]);
}


/// A separator followed by two digits.
pub open spec fn sep_two(sep: char, n: int) -> Seq<char> {
    seq![sep] + decimal_digits(n, 2)
}

/// The text `YYYY-MM-DDTHH-MM-SSZ` of a date and a time of day.
pub open spec fn timestamp_text(y: int, mo: int, d: int, h: int, mi: int, s: int) -> Seq<char> {
    decimal_digits(y, 4) + (sep_two('-', mo) + (sep_two('-', d) + (sep_two('T', h) + (sep_two(
        '-',
        mi,
    ) + (sep_two('-', s) + seq!['Z'])))))
}

/// The UTC time `secs` seconds after 1970-01-01T00:00:00Z, written
/// `YYYY-MM-DDTHH-MM-SSZ`.
pub open spec fn utc_text(secs: nat) -> Seq<char> {
    let (y, mo, d) = civil_date(secs / 86400);
    let t = (secs % 86400) as int;
    timestamp_text(y, mo, d, t / 3600, t % 3600 / 60, t % 60)
}

proof fn lemma_sep_two_before(sep: char, a: int, b: int, s: Seq<char>, t: Seq<char>)
    requires
        0 <= a < b < 100,
    ensures
        chars_before(sep_two(sep, a) + s, sep_two(sep, b) + t),
{
    reveal_with_fuel(pow10, 3);
    lemma_decimal_digits_increase(a, b, 2);
    lemma_before_prefix(seq![sep], decimal_digits(a, 2), decimal_digits(b, 2));
    lemma_decimal_digits_len(a, 2);
    lemma_decimal_digits_len(b, 2);
    lemma_before_suffix(sep_two(sep, a), sep_two(sep, b), s, t);
}

/// `(h1, mi1, s1)` comes before `(h2, mi2, s2)`.
pub open spec fn time_before(h1: int, mi1: int, s1: int, h2: int, mi2: int, s2: int) -> bool {
    h1 < h2 || (h1 == h2 && (mi1 < mi2 || (mi1 == mi2 && s1 < s2)))
}

/// An earlier date and time gives an earlier text.
proof fn lemma_timestamp_text_increases(
    y1: int,
    mo1: int,
    d1: int,
    h1: int,
    mi1: int,
    s1: int,
    y2: int,
    mo2: int,
    d2: int,
    h2: int,
    mi2: int,
    s2: int,
)
    requires
        0 <= y1 < 10000 && 0 <= y2 < 10000,
        0 <= mo1 < 100 && 0 <= mo2 < 100 && 0 <= d1 < 100 && 0 <= d2 < 100,
        0 <= h1 < 100 && 0 <= h2 < 100 && 0 <= mi1 < 100 && 0 <= mi2 < 100,
        0 <= s1 < 100 && 0 <= s2 < 100,
        date_before(y1, mo1, d1, y2, mo2, d2) || (y1 == y2 && mo1 == mo2 && d1 == d2
            && time_before(h1, mi1, s1, h2, mi2, s2)),
    ensures
        chars_before(
            timestamp_text(y1, mo1, d1, h1, mi1, s1),
            timestamp_text(y2, mo2, d2, h2, mi2, s2),
        ),
{
    let r5a = sep_two('-', s1) + seq!['Z'];
    let r5b = sep_two('-', s2) + seq!['Z'];
    let r4a = sep_two('-', mi1) + r5a;
    let r4b = sep_two('-', mi2) + r5b;
    let r3a = sep_two('T', h1) + r4a;
    let r3b = sep_two('T', h2) + r4b;
    let r2a = sep_two('-', d1) + r3a;
    let r2b = sep_two('-', d2) + r3b;
    let r1a = sep_two('-', mo1) + r2a;
    let r1b = sep_two('-', mo2) + r2b;
    let ya = decimal_digits(y1, 4);
    let yb = decimal_digits(y2, 4);
    if y1 < y2 {
        reveal_with_fuel(pow10, 5);
        lemma_decimal_digits_increase(y1, y2, 4);
        lemma_decimal_digits_len(y1, 4);
        lemma_decimal_digits_len(y2, 4);
        lemma_before_suffix(ya, yb, r1a, r1b);
    } else {
        if mo1 < mo2 {
            lemma_sep_two_before('-', mo1, mo2, r2a, r2b);
        } else {
            if d1 < d2 {
                lemma_sep_two_before('-', d1, d2, r3a, r3b);
            } else {
                if h1 < h2 {
                    lemma_sep_two_before('T', h1, h2, r4a, r4b);
                } else {
                    if mi1 < mi2 {
                        lemma_sep_two_before('-', mi1, mi2, r5a, r5b);
                    } else {
                        lemma_sep_two_before('-', s1, s2, seq!['Z'], seq!['Z']);
                        lemma_before_prefix(sep_two('-', mi1), r5a, r5b);
                    }
                    lemma_before_prefix(sep_two('T', h1), r4a, r4b);
                }
                lemma_before_prefix(sep_two('-', d1), r3a, r3b);
            }
            lemma_before_prefix(sep_two('-', mo1), r2a, r2b);
        }
        lemma_before_prefix(ya, r1a, r1b);
    }
}


proof fn lemma_days_before_year_formula(y: int)
    requires
        y >= 1970,
    ensures
        days_before_year(y) == 365 * (y - 1970) + (y - 1) / 4 - (y - 1) / 100 + (y - 1) / 400 - 477,
    decreases y - 1970,
{
    if y > 1970 {
        lemma_days_before_year_formula(y - 1);
    }
}

/// A date whose day number lies before 10000-01-01 has a year of four
/// digits.
proof fn lemma_year_below_10000(y: int, m: int, d: int)
    requires
        is_valid_date(y, m, d),
        day_number(y, m, d) < 2932897,
    ensures
        y < 10000,
{
    lemma_days_before_month_nonneg(y, m);
    if y >= 10000 {
        lemma_days_before_year_formula(10000);
        if y > 10000 {
            lemma_years_increase(10000, y);
        }
    }
}


/// The date of a day from 1970-01-01 on is a valid date with that day
/// number, and before 10000-01-01 its year has four digits.
proof fn lemma_civil_date(days: nat)
    ensures
        ({
            let (y, m, d) = civil_date(days);
            is_valid_date(y, m, d) && day_number(y, m, d) == days && (days < 2932897 ==> y
                < 10000)
        }),
{
    lemma_date_exists(days);
    let (y, m, d) = civil_date(days);
    if days < 2932897 {
        lemma_year_below_10000(y, m, d);
    }
}

/// Later times before the year 10000 have later texts.
pub proof fn lemma_utc_text_increases(secs1: nat, secs2: nat)
    requires
        secs1 < secs2 < 253402300800,
    ensures
        chars_before(utc_text(secs1), utc_text(secs2)),
{
    let days1 = secs1 / 86400;
    let days2 = secs2 / 86400;
    lemma_civil_date(days1);
    lemma_civil_date(days2);
    let (y1, m1, d1) = civil_date(days1);
    let (y2, m2, d2) = civil_date(days2);
    let t1 = (secs1 % 86400) as int;
    let t2 = (secs2 % 86400) as int;
    assert(days1 <= days2);
    if days1 < days2 {
        if date_before(y2, m2, d2, y1, m1, d1) {
            lemma_day_number_increases(y2, m2, d2, y1, m1, d1);
        }
        assert(date_before(y1, m1, d1, y2, m2, d2));
    } else {
        assert(t1 < t2);
        assert(time_before(t1 / 3600, t1 % 3600 / 60, t1 % 60, t2 / 3600, t2 % 3600 / 60, t2 % 60));
    }
    lemma_timestamp_text_increases(
        y1,
        m1,
        d1,
        t1 / 3600,
        t1 % 3600 / 60,
        t1 % 60,
        y2,
        m2,
        d2,
        t2 / 3600,
        t2 % 3600 / 60,
        t2 % 60,
    );
}


proof fn lemma_decimal_digits_ascii(n: int, k: nat)
    ensures
        is_ascii_chars(decimal_digits(n, k)),
    decreases k,
{
    if k > 0 {
        lemma_decimal_digits_ascii(n / 10, (k - 1) as nat);
        let p = decimal_digits(n / 10, (k - 1) as nat);
        assert forall|i: int| 0 <= i < decimal_digits(n, k).len() implies '\0' <= #[trigger] decimal_digits(n, k)[i] <= '\u{7f}' by {
            if i < p.len() {
                assert(decimal_digits(n, k)[i] == p[i]);
            }
        }
    }
}

proof fn lemma_ascii_concat(a: Seq<char>, b: Seq<char>)
    requires
        is_ascii_chars(a),
        is_ascii_chars(b),
    ensures
        is_ascii_chars(a + b),
{
    assert forall|i: int| 0 <= i < (a + b).len() implies '\0' <= #[trigger] (a + b)[i] <= '\u{7f}' by {
        if i < a.len() {
            assert((a + b)[i] == a[i]);
        } else {
            assert((a + b)[i] == b[i - a.len()]);
        }
    }
}

proof fn lemma_sep_two_ascii(sep: char, n: int)
    requires
        '\0' <= sep <= '\u{7f}',
    ensures
        is_ascii_chars(sep_two(sep, n)),
{
    lemma_decimal_digits_ascii(n, 2);
    lemma_ascii_concat(seq![sep], decimal_digits(n, 2));
}

/// The text of a date and time is ASCII.
proof fn lemma_timestamp_text_ascii(y: int, mo: int, d: int, h: int, mi: int, s: int)
    ensures
        is_ascii_chars(timestamp_text(y, mo, d, h, mi, s)),
{
    lemma_sep_two_ascii('-', s);
    lemma_ascii_concat(sep_two('-', s), seq!['Z']);
    let r5 = sep_two('-', s) + seq!['Z'];
    lemma_sep_two_ascii('-', mi);
    lemma_ascii_concat(sep_two('-', mi), r5);
    let r4 = sep_two('-', mi) + r5;
    lemma_sep_two_ascii('T', h);
    lemma_ascii_concat(sep_two('T', h), r4);
    let r3 = sep_two('T', h) + r4;
    lemma_sep_two_ascii('-', d);
    lemma_ascii_concat(sep_two('-', d), r3);
    let r2 = sep_two('-', d) + r3;
    lemma_sep_two_ascii('-', mo);
    lemma_ascii_concat(sep_two('-', mo), r2);
    let r1 = sep_two('-', mo) + r2;
    lemma_decimal_digits_ascii(y, 4);
    lemma_ascii_concat(decimal_digits(y, 4), r1);
}

proof fn lemma_bytes_lt_at(a: Seq<u8>, b: Seq<u8>, i: int)
    requires
        0 <= i < a.len(),
        i < b.len(),
        forall|j: int| 0 <= j < i ==> a[j] == b[j],
        a[i] < b[i],
    ensures
        bytes_lt(a, b),
    decreases i,
{
    if i > 0 {
        lemma_bytes_lt_at(a.drop_first(), b.drop_first(), i - 1);
    }
}

/// For ASCII text, the order of the first difference is the byte order.
pub proof fn lemma_ascii_before_bytes(a: Seq<char>, b: Seq<char>)
    requires
        is_ascii_chars(a),
        is_ascii_chars(b),
        chars_before(a, b),
    ensures
        bytes_lt(encode_utf8(a), encode_utf8(b)),
{
    let i = choose|i: int|
        0 <= i < a.len() && i < b.len() && a.subrange(0, i) == b.subrange(0, i)
            && (#[trigger] a[i]) < b[i];
    is_ascii_chars_encode_utf8(a);
    is_ascii_chars_encode_utf8(b);
    let ea = encode_utf8(a);
    let eb = encode_utf8(b);
    assert forall|j: int| 0 <= j < i implies ea[j] == eb[j] by {
        assert(a.subrange(0, i)[j] == a[j]);
        assert(b.subrange(0, i)[j] == b[j]);
    }
    let ca = a[i];
    let cb = b[i];
    assert(ca <= '\u{7f}' && cb <= '\u{7f}');
    assert((ca as u8) < (cb as u8));
    lemma_bytes_lt_at(ea, eb, i);
}


/// The text of a time is ASCII.
pub proof fn lemma_utc_text_ascii(secs: nat)
    ensures
        is_ascii_chars(utc_text(secs)),
{
    let (y, mo, d) = civil_date(secs / 86400);
    let t = (secs % 86400) as int;
    lemma_timestamp_text_ascii(y, mo, d, t / 3600, t % 3600 / 60, t % 60);
}

}
