//! Calendar dates and the UTC stamps that name backup files.

use vstd::arithmetic::div_mod::{
    lemma_div_denominator, lemma_fundamental_div_mod, lemma_fundamental_div_mod_converse,
};
use vstd::prelude::*;
use vstd::string::*;

use crate::text::{
    decimal, decimal_text, digit, digits_value, is_digit, joined, law_numbers_are_read_as_written,
    law_zeros_do_not_count, zero_filled, zero_filled_text,
};

verus! {

// ---------------------------------------------------------------------------
// The proleptic Gregorian calendar
// ---------------------------------------------------------------------------

/// Whether `y` is a leap year.
pub open spec fn is_leap(y: int) -> bool {
    y % 4 == 0 && (y % 100 != 0 || y % 400 == 0)
}

/// The number of days of month `m` in year `y`.
pub open spec fn month_len(y: int, m: int) -> int {
    if m == 2 {
        if is_leap(y) {
            29
        } else {
            28
        }
    } else if m == 4 || m == 6 || m == 9 || m == 11 {
        30
    } else {
        31
    }
}

/// Whether `(y, m, d)` names a day of the calendar.
pub open spec fn valid_date(y: int, m: int, d: int) -> bool {
    1 <= m <= 12 && 1 <= d <= month_len(y, m)
}

/// The days of year `y` before month `m`.
pub open spec fn days_before_month(y: int, m: int) -> int
    decreases m,
{
    if m <= 1 {
        0
    } else {
        days_before_month(y, m - 1) + month_len(y, m - 1)
    }
}

/// The days from the start of year 0 to the start of year `y`: 365 for each
/// year and one more for each leap year between.
pub open spec fn days_before_year(y: int) -> int {
    365 * y + (y + 3) / 4 - (y + 99) / 100 + (y + 399) / 400
}

/// The days from 1970-01-01 to `(y, m, d)`.
pub open spec fn day_number(y: int, m: int, d: int) -> int {
    days_before_year(y) - days_before_year(1970) + days_before_month(y, m) + d - 1
}

/// The day after `(y, m, d)`.
pub open spec fn next_day(y: int, m: int, d: int) -> (int, int, int) {
    if d < month_len(y, m) {
        (y, m, d + 1)
    } else if m < 12 {
        (y, m + 1, 1)
    } else {
        (y + 1, 1, 1)
    }
}

/// The days before each month, spelled out.
proof fn lemma_days_before_month(y: int)
    ensures
        days_before_month(y, 1) == 0,
        days_before_month(y, 2) == 31,
        days_before_month(y, 3) == 31 + month_len(y, 2),
        days_before_month(y, 4) == 62 + month_len(y, 2),
        days_before_month(y, 5) == 92 + month_len(y, 2),
        days_before_month(y, 6) == 123 + month_len(y, 2),
        days_before_month(y, 7) == 153 + month_len(y, 2),
        days_before_month(y, 8) == 184 + month_len(y, 2),
        days_before_month(y, 9) == 215 + month_len(y, 2),
        days_before_month(y, 10) == 245 + month_len(y, 2),
        days_before_month(y, 11) == 276 + month_len(y, 2),
        days_before_month(y, 12) == 306 + month_len(y, 2),
        days_before_month(y, 13) == 337 + month_len(y, 2),
{
    reveal_with_fuel(days_before_month, 13);
}

/// `y / k` rounded up is one more than rounded down unless `k` divides `y`.
proof fn lemma_round_up(y: int, k: int)
    requires
        k > 0,
    ensures
        (y + k - 1) / k == y / k + (if y % k == 0 { 0int } else { 1 }),
        (y + k) / k == y / k + 1,
{
    let q = y / k;
    let r = y % k;
    lemma_fundamental_div_mod(y, k);
    if r == 0 {
        lemma_fundamental_div_mod_converse(y + k - 1, k, q, k - 1);
    } else {
        assert(k * (q + 1) == k * q + k) by (nonlinear_arith);
        lemma_fundamental_div_mod_converse(y + k - 1, k, q + 1, r - 1);
    }
    assert(k * (q + 1) == k * q + k) by (nonlinear_arith);
    lemma_fundamental_div_mod_converse(y + k, k, q + 1, r);
}

/// How many multiples of 4, 100 and 400 lie below `y` and up to it, and how
/// being such a multiple relates.
#[verifier::spinoff_prover]
proof fn lemma_multiples(y: int)
    ensures
        (y + 3) / 4 + (if y % 4 == 0 { 1int } else { 0 }) == y / 4 + 1 == (y + 4) / 4,
        (y + 99) / 100 + (if y % 100 == 0 { 1int } else { 0 }) == y / 100 + 1 == (y + 100) / 100,
        (y + 399) / 400 + (if y % 400 == 0 { 1int } else { 0 }) == y / 400 + 1 == (y + 400) / 400,
        y % 400 == 0 ==> y % 100 == 0,
        y % 100 == 0 ==> y % 4 == 0,
{
    lemma_round_up(y, 4);
    lemma_round_up(y, 100);
    lemma_round_up(y, 400);
    lemma_fundamental_div_mod(y, 400);
    lemma_fundamental_div_mod(y, 100);
    if y % 400 == 0 {
        lemma_fundamental_div_mod_converse(y, 100, 4 * (y / 400), 0);
    }
    if y % 100 == 0 {
        lemma_fundamental_div_mod_converse(y, 4, 25 * (y / 100), 0);
    }
}

/// A year has 366 days if it is a leap year and 365 otherwise.
proof fn lemma_year_len(y: int)
    ensures
        days_before_year(y + 1) - days_before_year(y) == 337 + month_len(y, 2),
{
    lemma_multiples(y);
}

/// Day 0 is 1970-01-01, and each day's successor has the next number.
pub proof fn law_day_number_counts_days(y: int, m: int, d: int)
    requires
        valid_date(y, m, d),
    ensures
        day_number(1970, 1, 1) == 0,
        valid_date(next_day(y, m, d).0, next_day(y, m, d).1, next_day(y, m, d).2),
        day_number(next_day(y, m, d).0, next_day(y, m, d).1, next_day(y, m, d).2) == day_number(
            y,
            m,
            d,
        ) + 1,
{
    lemma_days_before_month(y);
    lemma_days_before_month(1970);
    lemma_days_before_month(y + 1);
    lemma_year_len(y);
}

/// A date lies within its year.
proof fn lemma_day_of_year(y: int, m: int, d: int)
    requires
        valid_date(y, m, d),
    ensures
        0 <= days_before_month(y, m) + d - 1 < 337 + month_len(y, 2),
{
    lemma_days_before_month(y);
}

/// Years start in order.
proof fn lemma_years_in_order(y1: int, y2: int)
    requires
        y1 < y2,
    ensures
        days_before_year(y1 + 1) <= days_before_year(y2),
{
}

/// No two dates have the same number.
pub proof fn law_day_number_is_injective(
    y1: int,
    m1: int,
    d1: int,
    y2: int,
    m2: int,
    d2: int,
)
    requires
        valid_date(y1, m1, d1),
        valid_date(y2, m2, d2),
        day_number(y1, m1, d1) == day_number(y2, m2, d2),
    ensures
        y1 == y2 && m1 == m2 && d1 == d2,
{
    lemma_day_of_year(y1, m1, d1);
    lemma_day_of_year(y2, m2, d2);
    lemma_year_len(y1);
    lemma_year_len(y2);
    if y1 < y2 {
        lemma_years_in_order(y1, y2);
    } else if y2 < y1 {
        lemma_years_in_order(y2, y1);
    }
    lemma_days_before_month(y1);
}

// ---------------------------------------------------------------------------
// From a day's number to its date
// ---------------------------------------------------------------------------

/// The year of a 400-year era, counted from March, that holds day `doe` of the
/// era: the days left over fit in that year.
#[verifier::spinoff_prover]
proof fn lemma_year_of_era(doe: int)
    requires
        0 <= doe < 146097,
    ensures
        ({
            let yoe = (doe - doe / 1460 + doe / 36524 - doe / 146096) / 365;
            let doy = doe - (365 * yoe + yoe / 4 - yoe / 100);
            &&& 0 <= yoe < 400
            &&& 0 <= doy <= 365
            &&& doy == 365 ==> (yoe == 399 || (yoe + 1) % 4 == 0 && (yoe + 1) % 100 != 0)
        }),
{
}

/// The month, counted from March, that holds day `doy` of a year that starts
/// in March, and the day of that month.
#[verifier::spinoff_prover]
proof fn lemma_month_of_year(doy: int)
    requires
        0 <= doy <= 365,
    ensures
        ({
            let mp = (5 * doy + 2) / 153;
            let start = (153 * mp + 2) / 5;
            &&& 0 <= mp <= 11
            &&& start <= doy
            &&& mp == 0 ==> start == 0 && doy < 31
            &&& mp == 1 ==> start == 31 && doy < 61
            &&& mp == 2 ==> start == 61 && doy < 92
            &&& mp == 3 ==> start == 92 && doy < 122
            &&& mp == 4 ==> start == 122 && doy < 153
            &&& mp == 5 ==> start == 153 && doy < 184
            &&& mp == 6 ==> start == 184 && doy < 214
            &&& mp == 7 ==> start == 214 && doy < 245
            &&& mp == 8 ==> start == 245 && doy < 275
            &&& mp == 9 ==> start == 275 && doy < 306
            &&& mp == 10 ==> start == 306 && doy < 337
            &&& mp == 11 ==> start == 337
        }),
{
}

/// The days before the first of March of year `y`.
proof fn lemma_days_before_march(y: int)
    ensures
        days_before_year(y) + 31 + month_len(y, 2) == 365 * y + y / 4 - y / 100 + y / 400 + 60,
{
    lemma_multiples(y);
}

/// Quotients of a year by its place in a 400-year era.
#[verifier::spinoff_prover]
proof fn lemma_era_quotients(y: int, era: int, yoe: int)
    requires
        y == era * 400 + yoe,
        0 <= yoe < 400,
    ensures
        y / 4 == era * 100 + yoe / 4,
        y / 100 == era * 4 + yoe / 100,
        y / 400 == era,
{
    lemma_fundamental_div_mod(yoe, 4);
    lemma_fundamental_div_mod(yoe, 100);
    lemma_fundamental_div_mod_converse(y, 4, era * 100 + yoe / 4, yoe % 4);
    lemma_fundamental_div_mod_converse(y, 100, era * 4 + yoe / 100, yoe % 100);
    lemma_fundamental_div_mod_converse(y, 400, era, yoe);
}

/// Leap years by their place in a 400-year era.
#[verifier::spinoff_prover]
proof fn lemma_era_leap(y: int, era: int, yoe: int)
    requires
        y == era * 400 + yoe,
        0 <= yoe < 400,
    ensures
        is_leap(y + 1) <==> (yoe == 399 || (yoe + 1) % 4 == 0 && (yoe + 1) % 100 != 0),
{
    let k = yoe + 1;
    lemma_fundamental_div_mod(k, 4);
    lemma_fundamental_div_mod(k, 100);
    lemma_fundamental_div_mod_converse(y + 1, 4, era * 100 + k / 4, k % 4);
    lemma_fundamental_div_mod_converse(y + 1, 100, era * 4 + k / 100, k % 100);
    if k == 400 {
        lemma_fundamental_div_mod_converse(y + 1, 400, era + 1, 0);
    } else {
        lemma_fundamental_div_mod_converse(y + 1, 400, era, k);
    }
}

/// The date reached from its place in an era has the number it was reached
/// from.
#[verifier::spinoff_prover]
proof fn lemma_civil(days: int, era: int, yoe: int, doy: int, mp: int)
    requires
        days + 719468 == era * 146097 + 365 * yoe + yoe / 4 - yoe / 100 + doy,
        0 <= yoe < 400,
        0 <= doy <= 365,
        doy == 365 ==> (yoe == 399 || (yoe + 1) % 4 == 0 && (yoe + 1) % 100 != 0),
        mp == (5 * doy + 2) / 153,
    ensures
        ({
            let y = era * 400 + yoe;
            let m = if mp < 10 { mp + 3 } else { mp - 9 };
            let d = doy - (153 * mp + 2) / 5 + 1;
            let year = if m <= 2 { y + 1 } else { y };
            &&& 0 <= mp <= 11
            &&& valid_date(year, m, d)
            &&& day_number(year, m, d) == days
        }),
{
    let y = era * 400 + yoe;
    lemma_days_before_march(y);
    lemma_era_quotients(y, era, yoe);
    lemma_era_leap(y, era, yoe);
    assert(days_before_year(y) + 31 + month_len(y, 2) == days + 719468 - doy + 60);
    assert(days_before_year(1970) == 719528);
    lemma_month_of_year(doy);
    lemma_days_before_month(y);
    lemma_days_before_month(y + 1);
    lemma_year_len(y);
    let before = days_before_year(y);
    let next = days_before_year(y + 1);
    assert(next == before + 337 + month_len(y, 2));
}

/// `a / b` rounded down.
pub fn floor_div(a: i64, b: i64) -> (r: i64)
    requires
        b > 0,
    ensures
        r == a as int / b as int,
{
    if a >= 0 {
        a / b
    } else {
        let q: i64 = (-1 - a) / b;
        assert(-1 - q == a as int / b as int) by (nonlinear_arith)
            requires
                a < 0,
                b > 0,
                q == (-1 - a) as int / b as int,
        ;
        -1 - q
    }
}

/// What `floor_div` leaves over.
pub fn floor_mod(a: i64, b: i64) -> (r: i64)
    requires
        b > 0,
    ensures
        r == a as int % b as int,
{
    if a >= 0 {
        a % b
    } else {
        let k: i64 = (-1 - a) % b;
        proof {
            let q = (-1 - a) as int / b as int;
            lemma_fundamental_div_mod(-1 - a, b as int);
            assert(b * (-1 - q) == -b - b * q) by (nonlinear_arith);
            lemma_fundamental_div_mod_converse(a as int, b as int, -1 - q, b - 1 - k);
        }
        b - 1 - k
    }
}

/// The date of the day that comes `days_since_epoch` days after 1970-01-01.
pub fn civil_from_days(days_since_epoch: i64) -> (r: (i64, u32, u32))
    requires
        days_since_epoch <= i64::MAX - 719_468,
    ensures
        valid_date(r.0 as int, r.1 as int, r.2 as int),
        day_number(r.0 as int, r.1 as int, r.2 as int) == days_since_epoch,
{
    let z: i64 = days_since_epoch + 719_468;
    let era: i64 = floor_div(z, 146_097);
    let doe: i64 = z - era * 146_097;
    let yoe: i64 = (doe - doe / 1460 + doe / 36_524 - doe / 146_096) / 365;
    proof {
        lemma_year_of_era(doe as int);
    }
    let y: i64 = yoe + era * 400;
    let doy: i64 = doe - (365 * yoe + yoe / 4 - yoe / 100);
    let mp: i64 = (5 * doy + 2) / 153;
    proof {
        lemma_civil(
            days_since_epoch as int,
            era as int,
            yoe as int,
            doy as int,
            mp as int,
        );
    }
    let d: i64 = doy - (153 * mp + 2) / 5 + 1;
    let m: i64 = if mp < 10 {
        mp + 3
    } else {
        mp - 9
    };
    let year: i64 = if m <= 2 {
        y + 1
    } else {
        y
    };
    (year, m as u32, d as u32)
}

/// The date with number `n`.
pub open spec fn date_of(n: int) -> (int, int, int) {
    choose|t: (int, int, int)| #[trigger]
        valid_date(t.0, t.1, t.2) && day_number(t.0, t.1, t.2) == n
}

/// Each number has a date.
proof fn lemma_date_exists(n: int)
    ensures
        valid_date(date_of(n).0, date_of(n).1, date_of(n).2),
        day_number(date_of(n).0, date_of(n).1, date_of(n).2) == n,
{
    let z = n + 719468;
    let era = z / 146097;
    let doe = z % 146097;
    lemma_year_of_era(doe);
    let yoe = (doe - doe / 1460 + doe / 36524 - doe / 146096) / 365;
    let doy = doe - (365 * yoe + yoe / 4 - yoe / 100);
    let mp = (5 * doy + 2) / 153;
    lemma_civil(n, era, yoe, doy, mp);
    let m = if mp < 10 {
        mp + 3
    } else {
        mp - 9
    };
    let d = doy - (153 * mp + 2) / 5 + 1;
    let y = era * 400 + yoe;
    let t = (if m <= 2 { y + 1 } else { y }, m, d);
    assert(valid_date(t.0, t.1, t.2) && day_number(t.0, t.1, t.2) == n);
}

// ---------------------------------------------------------------------------
// Stamps
// ---------------------------------------------------------------------------

/// `n` in decimal, filled with zeros behind its sign to a length of at least
/// `width`.
pub open spec fn filled(n: int, width: int) -> Seq<char> {
    if n < 0 {
        seq!['-'] + zero_filled(decimal((-n) as nat), width - 1)
    } else {
        zero_filled(decimal(n as nat), width)
    }
}

/// The stamp `YYYYMMDD-HHMMSS` of the second `rem` of the day `date`.
pub open spec fn stamp_text(date: (int, int, int), rem: int) -> Seq<char> {
    filled(date.0, 4) + filled(date.1, 2) + filled(date.2, 2) + "-"@ + filled(rem / 3600, 2)
        + filled((rem % 3600) / 60, 2) + filled(rem % 60, 2)
}

/// The UTC stamp of the second `secs` after 1970-01-01 00:00:00.
pub open spec fn stamp_of(secs: int) -> Seq<char> {
    stamp_text(date_of(secs / 86400), secs % 86400)
}

/// `n` in decimal, filled with zeros to a length of at least `width`.
fn filled_text(n: i64, width: usize) -> (r: String)
    requires
        n > i64::MIN,
        width >= 1,
    ensures
        r@ == filled(n as int, width as int),
{
    if n < 0 {
        let digits = decimal_text((-n) as u64);
        let body = zero_filled_text(digits.as_str(), width - 1);
        proof {
            reveal_strlit("-");
        }
        let out = joined("-", body.as_str());
        assert(out@ =~= filled(n as int, width as int));
        out
    } else {
        let digits = decimal_text(n as u64);
        zero_filled_text(digits.as_str(), width)
    }
}

/// The UTC stamp of the second `secs` after 1970-01-01 00:00:00.
pub fn utc_stamp_at(secs: i64) -> (r: String)
    ensures
        r@ == stamp_of(secs as int),
{
    let days: i64 = floor_div(secs, 86_400);
    let rem: i64 = floor_mod(secs, 86_400);
    let (y, m, d) = civil_from_days(days);
    proof {
        let t = (y as int, m as int, d as int);
        assert(valid_date(t.0, t.1, t.2) && day_number(t.0, t.1, t.2) == days);
        let u = date_of(days as int);
        law_day_number_is_injective(t.0, t.1, t.2, u.0, u.1, u.2);
        lemma_year_bound(t.0, t.1, t.2);
    }
    let mut out = filled_text(y, 4);
    out.append(filled_text(m as i64, 2).as_str());
    out.append(filled_text(d as i64, 2).as_str());
    out.append("-");
    out.append(filled_text(rem / 3600, 2).as_str());
    out.append(filled_text((rem % 3600) / 60, 2).as_str());
    out.append(filled_text(rem % 60, 2).as_str());
    out
}

/// The year of a date is no larger in size than its number allows.
proof fn lemma_year_bound(y: int, m: int, d: int)
    requires
        valid_date(y, m, d),
    ensures
        y >= 0 ==> 365 * y <= day_number(y, m, d) + 719528,
        y < 0 ==> day_number(y, m, d) + 719528 <= 365 * (y + 1),
{
    lemma_day_of_year(y, m, d);
    lemma_year_len(y);
}

/// The seconds since 1970-01-01 00:00:00 by the system's clock, or `None` where
/// the clock stands before that time.
///
/// Calls `std::time::SystemTime::elapsed` on `UNIX_EPOCH` and takes the whole
/// seconds. The reading depends on when the call is made, so nothing is claimed
/// of it.
#[verifier::external_body]
fn clock_seconds() -> (r: Option<u64>) {
    std::time::UNIX_EPOCH.elapsed().ok().map(|d| d.as_secs())
}

/// The UTC stamp of the second at which it is called.
pub fn utc_stamp() -> (r: String)
    ensures
        exists|secs: i64| r@ == #[trigger] stamp_of(secs as int),
{
    let secs: i64 = match clock_seconds() {
        Some(s) => s as i64,
        None => 0,
    };
    utc_stamp_at(secs)
}

/// The digits of a number below a hundred, filled to two places.
proof fn lemma_two_places(n: int)
    requires
        0 <= n < 100,
    ensures
        filled(n, 2).len() == 2,
        forall|i: int| 0 <= i < 2 ==> is_digit(#[trigger] filled(n, 2)[i]),
{
    reveal_with_fuel(decimal, 3);
}

/// The digits of a number below ten thousand, filled to four places.
#[verifier::spinoff_prover]
proof fn lemma_four_places(n: int)
    requires
        0 <= n < 10000,
    ensures
        filled(n, 4).len() == 4,
        forall|i: int| 0 <= i < 4 ==> is_digit(#[trigger] filled(n, 4)[i]),
{
    reveal_with_fuel(decimal, 5);
}

/// Every stamp ends in a digit.
pub proof fn lemma_stamp_ends_in_a_digit(secs: int)
    ensures
        stamp_of(secs).len() > 0,
        is_digit(stamp_of(secs).last()),
{
    let rem = secs % 86400;
    let seconds = filled(rem % 60, 2);
    lemma_two_places(rem % 60);
    assert(stamp_of(secs).last() == seconds[1]);
}

/// Whether two texts are the same up to a place at which the first has the smaller
/// character.
pub open spec fn differ_at(s: Seq<char>, t: Seq<char>, k: int) -> bool {
    &&& 0 <= k < s.len()
    &&& k < t.len()
    &&& s.take(k) == t.take(k)
    &&& s[k] < t[k]
}

/// Whether a text comes before another as long as it in the order of their
/// characters.
pub open spec fn sorts_before(s: Seq<char>, t: Seq<char>) -> bool {
    exists|k: int| differ_at(s, t, k)
}

/// Dates are in the order of their numbers: by year, then by month, then by day.
proof fn lemma_dates_in_order(y1: int, m1: int, d1: int, y2: int, m2: int, d2: int)
    requires
        valid_date(y1, m1, d1),
        valid_date(y2, m2, d2),
        day_number(y1, m1, d1) < day_number(y2, m2, d2),
    ensures
        y1 < y2 || y1 == y2 && (m1 < m2 || m1 == m2 && d1 < d2),
{
    lemma_day_of_year(y1, m1, d1);
    lemma_day_of_year(y2, m2, d2);
    lemma_year_len(y2);
    if y1 > y2 {
        lemma_years_in_order(y2, y1);
    } else if y1 == y2 && m1 > m2 {
        lemma_days_before_month(y1);
    }
}

/// The two places of a number below a hundred, and how they are ordered.
#[verifier::spinoff_prover]
proof fn lemma_two_places_order(x: int, y: int) -> (k: int)
    requires
        0 <= x < y < 100,
    ensures
        0 <= k < 2,
        filled(x, 2).len() == 2 && filled(y, 2).len() == 2,
        forall|j: int| 0 <= j < k ==> filled(x, 2)[j] == filled(y, 2)[j],
        filled(x, 2)[k] < filled(y, 2)[k],
{
    reveal_with_fuel(decimal, 3);
    lemma_two_places(x);
    lemma_two_places(y);
    assert(filled(x, 2)[0] == digit(x / 10) && filled(x, 2)[1] == digit(x % 10));
    assert(filled(y, 2)[0] == digit(y / 10) && filled(y, 2)[1] == digit(y % 10));
    if x / 10 < y / 10 {
        0
    } else {
        1
    }
}

/// The four places of a number below ten thousand.
#[verifier::spinoff_prover]
proof fn lemma_four_digits(n: int)
    requires
        0 <= n < 10000,
    ensures
        filled(n, 4).len() == 4,
        filled(n, 4)[0] == digit(n / 1000),
        filled(n, 4)[1] == digit(n / 100 % 10),
        filled(n, 4)[2] == digit(n / 10 % 10),
        filled(n, 4)[3] == digit(n % 10),
{
    reveal_with_fuel(decimal, 5);
    lemma_four_places(n);
}

/// A number below ten thousand is made of its four digits.
#[verifier::spinoff_prover]
proof fn lemma_digits_of(n: int)
    requires
        0 <= n < 10000,
    ensures
        n == n / 1000 * 1000 + n / 100 % 10 * 100 + n / 10 % 10 * 10 + n % 10,
        0 <= n / 1000 < 10,
        0 <= n / 100 % 10 < 10,
        0 <= n / 10 % 10 < 10,
        0 <= n % 10 < 10,
{
    let a = n / 10;
    let b = a / 10;
    let c = b / 10;
    lemma_fundamental_div_mod(n, 10);
    lemma_fundamental_div_mod(a, 10);
    lemma_fundamental_div_mod(b, 10);
    lemma_div_denominator(n, 10, 10);
    lemma_div_denominator(n, 100, 10);
    assert(n / 100 == b && n / 1000 == c);
}

/// The four places of a number below ten thousand, and how they are ordered.
#[verifier::spinoff_prover]
proof fn lemma_four_places_order(x: int, y: int) -> (k: int)
    requires
        0 <= x < y < 10000,
    ensures
        0 <= k < 4,
        filled(x, 4).len() == 4 && filled(y, 4).len() == 4,
        forall|j: int| 0 <= j < k ==> filled(x, 4)[j] == filled(y, 4)[j],
        filled(x, 4)[k] < filled(y, 4)[k],
{
    lemma_four_digits(x);
    lemma_four_digits(y);
    lemma_digits_of(x);
    lemma_digits_of(y);
    if x / 1000 < y / 1000 {
        0
    } else if x / 100 % 10 < y / 100 % 10 {
        1
    } else if x / 10 % 10 < y / 10 % 10 && x / 100 % 10 == y / 100 % 10 {
        2
    } else {
        3
    }
}

/// Texts that are made of the same text, then of parts that differ at a place, sort
/// as these parts do.
proof fn lemma_sorts_by_part(
    head: Seq<char>,
    a: Seq<char>,
    b: Seq<char>,
    k: int,
    s: Seq<char>,
    t: Seq<char>,
)
    requires
        0 <= k < a.len(),
        a.len() == b.len(),
        forall|j: int| 0 <= j < k ==> a[j] == b[j],
        a[k] < b[k],
        head + a == s.take((head.len() + a.len()) as int),
        head + b == t.take((head.len() + b.len()) as int),
        head.len() + a.len() <= s.len(),
        head.len() + b.len() <= t.len(),
    ensures
        sorts_before(s, t),
{
    let n = head.len() + k;
    let (u, v) = (head + a, head + b);
    assert(u[n] == a[k] && v[n] == b[k]);
    assert(s[n] == s.take((head.len() + a.len()) as int)[n]);
    assert(t[n] == t.take((head.len() + b.len()) as int)[n]);
    assert(s.take(n) =~= u.take(n));
    assert(t.take(n) =~= v.take(n));
    assert(u.take(n) =~= v.take(n)) by {
        assert forall|j: int| 0 <= j < n implies u[j] == v[j] by {
            if j >= head.len() {
                assert(a[j - head.len()] == b[j - head.len()]);
            }
        }
    }
    assert(differ_at(s, t, n));
}

/// The stamp of a date before the year 10000 and of a second of its day, by its
/// parts.
#[verifier::spinoff_prover]
proof fn lemma_stamp_parts(date: (int, int, int), rem: int)
    requires
        valid_date(date.0, date.1, date.2),
        0 <= date.0 < 10000,
        0 <= rem < 86400,
    ensures
        ({
            let s = stamp_text(date, rem);
            let y = filled(date.0, 4);
            let ym = y + filled(date.1, 2);
            let ymd = ym + filled(date.2, 2);
            let h = ymd + "-"@ + filled(rem / 3600, 2);
            let hm = h + filled((rem % 3600) / 60, 2);
            &&& s.len() == 15
            &&& s.take(4) == y
            &&& s.take(6) == ym
            &&& s.take(8) == ymd
            &&& s.take(9) == ymd + "-"@
            &&& s.take(11) == h
            &&& s.take(13) == hm
            &&& s == hm + filled(rem % 60, 2)
            &&& y.len() == 4 && ym.len() == 6 && ymd.len() == 8 && h.len() == 11 && hm.len()
                == 13
        }),
{
    lemma_day_of_year(date.0, date.1, date.2);
    lemma_four_places(date.0);
    lemma_two_places(date.1);
    lemma_two_places(date.2);
    lemma_two_places(rem / 3600);
    lemma_two_places((rem % 3600) / 60);
    lemma_two_places(rem % 60);
    reveal_strlit("-");
    let s = stamp_text(date, rem);
    let y = filled(date.0, 4);
    let ym = y + filled(date.1, 2);
    let ymd = ym + filled(date.2, 2);
    let h = ymd + "-"@ + filled(rem / 3600, 2);
    let hm = h + filled((rem % 3600) / 60, 2);
    assert(s.take(4) =~= y);
    assert(s.take(6) =~= ym);
    assert(s.take(8) =~= ymd);
    assert(s.take(9) =~= ymd + "-"@);
    assert(s.take(11) =~= h);
    assert(s.take(13) =~= hm);
}

/// Two stamps of different days sort as the days do.
proof fn lemma_days_sort(d1: (int, int, int), r1: int, d2: (int, int, int), r2: int)
    requires
        valid_date(d1.0, d1.1, d1.2),
        valid_date(d2.0, d2.1, d2.2),
        0 <= d1.0 < 10000,
        0 <= d2.0 < 10000,
        0 <= r1 < 86400,
        0 <= r2 < 86400,
        day_number(d1.0, d1.1, d1.2) < day_number(d2.0, d2.1, d2.2),
    ensures
        sorts_before(stamp_text(d1, r1), stamp_text(d2, r2)),
{
    let (s, t) = (stamp_text(d1, r1), stamp_text(d2, r2));
    lemma_stamp_parts(d1, r1);
    lemma_stamp_parts(d2, r2);
    lemma_dates_in_order(d1.0, d1.1, d1.2, d2.0, d2.1, d2.2);
    let y = filled(d1.0, 4);
    let ym = y + filled(d1.1, 2);
    if d1.0 < d2.0 {
        let k = lemma_four_places_order(d1.0, d2.0);
        let e = Seq::<char>::empty();
        assert(e + filled(d1.0, 4) =~= s.take(4));
        assert(e + filled(d2.0, 4) =~= t.take(4));
        lemma_sorts_by_part(e, filled(d1.0, 4), filled(d2.0, 4), k, s, t);
    } else if d1.1 < d2.1 {
        let k = lemma_two_places_order(d1.1, d2.1);
        lemma_sorts_by_part(y, filled(d1.1, 2), filled(d2.1, 2), k, s, t);
    } else {
        let k = lemma_two_places_order(d1.2, d2.2);
        lemma_sorts_by_part(ym, filled(d1.2, 2), filled(d2.2, 2), k, s, t);
    }
}

/// Two stamps of one day sort as the seconds do.
proof fn lemma_seconds_sort(date: (int, int, int), r1: int, r2: int)
    requires
        valid_date(date.0, date.1, date.2),
        0 <= date.0 < 10000,
        0 <= r1 < r2 < 86400,
    ensures
        sorts_before(stamp_text(date, r1), stamp_text(date, r2)),
{
    let (s, t) = (stamp_text(date, r1), stamp_text(date, r2));
    lemma_stamp_parts(date, r1);
    lemma_stamp_parts(date, r2);
    let ymd = filled(date.0, 4) + filled(date.1, 2) + filled(date.2, 2) + "-"@;
    reveal_strlit("-");
    let (h1, h2) = (r1 / 3600, r2 / 3600);
    let (m1, m2) = ((r1 % 3600) / 60, (r2 % 3600) / 60);
    let h = ymd + filled(h1, 2);
    let hm = h + filled(m1, 2);
    if h1 < h2 {
        let k = lemma_two_places_order(h1, h2);
        lemma_sorts_by_part(ymd, filled(h1, 2), filled(h2, 2), k, s, t);
    } else if m1 < m2 {
        let k = lemma_two_places_order(m1, m2);
        lemma_sorts_by_part(h, filled(m1, 2), filled(m2, 2), k, s, t);
    } else {
        let k = lemma_two_places_order(r1 % 60, r2 % 60);
        assert(s.take(15) =~= s);
        assert(t.take(15) =~= t);
        lemma_sorts_by_part(hm, filled(r1 % 60, 2), filled(r2 % 60, 2), k, s, t);
    }
}

/// The year of a day from 1970 to the end of year 9999.
proof fn lemma_year_of_stamp(n: int)
    requires
        0 <= n < 2932897,
    ensures
        0 <= date_of(n).0 < 10000,
        valid_date(date_of(n).0, date_of(n).1, date_of(n).2),
        day_number(date_of(n).0, date_of(n).1, date_of(n).2) == n,
{
    let (y, m, d) = date_of(n);
    lemma_date_exists(n);
    lemma_year_bound(y, m, d);
    lemma_day_of_year(y, m, d);
    if y >= 10000 {
        lemma_years_in_order(9999, y);
    }
}

/// From 1970 to the end of year 9999 stamps sort by time: a later second has a
/// stamp that comes later in the order of the characters.
pub proof fn law_stamps_sort_by_time(a: int, b: int)
    requires
        0 <= a < b < 253_402_300_800,
    ensures
        sorts_before(stamp_of(a), stamp_of(b)),
{
    let (n1, n2) = (a / 86400, b / 86400);
    lemma_year_of_stamp(n1);
    lemma_year_of_stamp(n2);
    if n1 < n2 {
        lemma_days_sort(date_of(n1), a % 86400, date_of(n2), b % 86400);
    } else {
        lemma_seconds_sort(date_of(n1), a % 86400, b % 86400);
    }
}

/// From 1970 to the end of year 9999 a stamp has fifteen characters: eight
/// digits, a hyphen and six digits.
pub proof fn law_stamp_shape(secs: int)
    requires
        0 <= secs < 253_402_300_800,
    ensures
        stamp_of(secs).len() == 15,
        stamp_of(secs)[8] == '-',
        forall|i: int| 0 <= i < 15 && i != 8 ==> is_digit(#[trigger] stamp_of(secs)[i]),
{
    let n = secs / 86400;
    let rem = secs % 86400;
    let (y, m, d) = date_of(n);
    lemma_date_exists(n);
    lemma_year_bound(y, m, d);
    lemma_day_of_year(y, m, d);
    assert(y <= 9999) by {
        if y >= 10000 {
            lemma_years_in_order(9999, y);
        }
    }
    assert(y >= 0);
    lemma_four_places(y);
    lemma_two_places(m);
    lemma_two_places(d);
    lemma_two_places(rem / 3600);
    lemma_two_places((rem % 3600) / 60);
    lemma_two_places(rem % 60);
    reveal_strlit("-");
}

/// The months have their lengths: February has a day more in every fourth year, but
/// not in a full century unless its number is a multiple of 400.
pub proof fn law_the_months_have_their_lengths(y: int, m: int)
    requires
        1 <= m <= 12,
    ensures
        m == 1 || m == 3 || m == 5 || m == 7 || m == 8 || m == 10 || m == 12 ==> month_len(y, m)
            == 31,
        m == 4 || m == 6 || m == 9 || m == 11 ==> month_len(y, m) == 30,
        m == 2 && (y % 400 == 0 || y % 4 == 0 && y % 100 != 0) ==> month_len(y, m) == 29,
        m == 2 && (y % 4 != 0 || y % 100 == 0 && y % 400 != 0) ==> month_len(y, m) == 28,
{
}

/// A number that is filled up reads as itself.
proof fn lemma_filled_reads(n: int, width: int)
    requires
        0 <= n,
        0 <= width,
    ensures
        digits_value(filled(n, width)) == n,
{
    law_numbers_are_read_as_written(n as nat);
    law_zeros_do_not_count(decimal(n as nat), width);
}

/// A stamp reads as the time: its first eight digits are the year, the month and the
/// day on which so many days have passed since 1970 began, and the six behind the
/// hyphen are the hour, the minute and the second of that day.
pub proof fn law_a_stamp_reads_as_the_time(secs: int, y: int, m: int, d: int)
    requires
        0 <= secs < 253_402_300_800,
        valid_date(y, m, d),
        day_number(y, m, d) == secs / 86400,
    ensures
        ({
            let s = stamp_of(secs);
            &&& s.len() == 15
            &&& digits_value(s.subrange(0, 4)) == y
            &&& digits_value(s.subrange(4, 6)) == m
            &&& digits_value(s.subrange(6, 8)) == d
            &&& digits_value(s.subrange(9, 11)) * 3600 + digits_value(s.subrange(11, 13)) * 60
                + digits_value(s.subrange(13, 15)) == secs % 86400
            &&& digits_value(s.subrange(11, 13)) < 60
            &&& digits_value(s.subrange(13, 15)) < 60
        }),
{
    let n = secs / 86400;
    let rem = secs % 86400;
    let date = date_of(n);
    assert(0 <= n < 2932897);
    lemma_year_of_stamp(n);
    law_day_number_is_injective(y, m, d, date.0, date.1, date.2);
    lemma_stamp_parts(date, rem);
    let s = stamp_of(secs);
    let yy = filled(y, 4);
    let ym = yy + filled(m, 2);
    let ymd = ym + filled(d, 2);
    let h = rem / 3600;
    let mi = (rem % 3600) / 60;
    let sec = rem % 60;
    let hh = ymd + "-"@ + filled(h, 2);
    let hm = hh + filled(mi, 2);
    lemma_two_places(m);
    lemma_two_places(d);
    lemma_two_places(h);
    lemma_two_places(mi);
    lemma_two_places(sec);
    assert(s.subrange(0, 4) =~= yy);
    assert(s.subrange(4, 6) =~= filled(m, 2)) by {
        assert(s.take(6) == ym);
        assert(s.subrange(4, 6) =~= s.take(6).subrange(4, 6));
        assert(ym.subrange(4, 6) =~= filled(m, 2));
    }
    assert(s.subrange(6, 8) =~= filled(d, 2)) by {
        assert(s.take(8) == ymd);
        assert(s.subrange(6, 8) =~= s.take(8).subrange(6, 8));
        assert(ymd.subrange(6, 8) =~= filled(d, 2));
    }
    assert(s.subrange(9, 11) =~= filled(h, 2)) by {
        assert(s.take(11) == hh);
        assert(s.subrange(9, 11) =~= s.take(11).subrange(9, 11));
        assert((ymd + "-"@).len() == 9);
        assert(hh.subrange(9, 11) =~= filled(h, 2));
    }
    assert(s.subrange(11, 13) =~= filled(mi, 2)) by {
        assert(s.take(13) == hm);
        assert(s.subrange(11, 13) =~= s.take(13).subrange(11, 13));
        assert(hm.subrange(11, 13) =~= filled(mi, 2));
    }
    assert(s.subrange(13, 15) =~= filled(sec, 2)) by {
        assert(s == hm + filled(sec, 2));
    }
    lemma_filled_reads(y, 4);
    lemma_filled_reads(m, 2);
    lemma_filled_reads(d, 2);
    lemma_filled_reads(h, 2);
    lemma_filled_reads(mi, 2);
    lemma_filled_reads(sec, 2);
}

} // verus!
