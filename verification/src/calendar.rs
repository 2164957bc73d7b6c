//! Gregorian calendar arithmetic: leap years, month and year lengths, and
//! the count of days between 1970-01-01 and the start of a year.

use vstd::prelude::*;

verus! {

/// First year that a `DateTime` can hold.
pub const UNIX_START_YEAR: i64 = 1970;

pub const SECS_IN_MIN: i64 = 60;

pub const MINS_IN_HOUR: i64 = 60;

pub const SECS_IN_HOUR: i64 = 3600;

pub const HOURS_IN_DAY: i64 = 24;

pub const DAYS_IN_YEAR: i64 = 365;

pub const MONTHS_IN_YEAR: i64 = 12;

pub const SECS_IN_DAY: i64 = 86400;

pub const SECS_IN_WEEK: i64 = 604800;

pub const DAYS_IN_WEEK: i64 = 7;

// ---------------------------------------------------------------------
// The mathematical model

/// Gregorian leap-year rule.
pub open spec fn leap(year: int) -> bool {
    year % 4 == 0 && (year % 100 != 0 || year % 400 == 0)
}

/// Number of days of `month` (1 to 12) in `year`.
pub open spec fn days_in_month(month: int, year: int) -> int {
    if month == 2 {
        if leap(year) {
            29
        } else {
            28
        }
    } else if month == 4 || month == 6 || month == 9 || month == 11 {
        30
    } else {
        31
    }
}

/// Number of days of `year`.
pub open spec fn days_in_year(year: int) -> int {
    if leap(year) {
        366
    } else {
        365
    }
}

/// Days of `year` that lie before the first day of `month`.
pub open spec fn days_before_month(month: int, year: int) -> int
    decreases month,
{
    if month <= 1 {
        0
    } else {
        days_before_month(month - 1, year) + days_in_month(month - 1, year)
    }
}

/// Days from 1970-01-01 to the first day of `year` (for `year >= 1970`):
/// the sum of the lengths of the years 1970 .. year - 1.
pub open spec fn days_before_year(year: int) -> int
    decreases year - 1970,
{
    if year <= 1970 {
        0
    } else {
        days_before_year(year - 1) + days_in_year(year - 1)
    }
}

/// Number of leap years in 1 ..= year (counted with floor division, so that
/// differences count leap years in any range of years, negative ones too).
pub open spec fn leaps_through(year: int) -> int {
    year / 4 - year / 100 + year / 400
}

/// Signed count of days from 1970-01-01 to the first day of `year`, for any year.
pub open spec fn year_start(year: int) -> int {
    365 * (year - 1970) + leaps_through(year - 1) - leaps_through(1969)
}

// ---------------------------------------------------------------------
// Lemmas

pub proof fn lemma_leaps_step(year: int)
    ensures
        leaps_through(year) - leaps_through(year - 1) == (if leap(year) {
            1int
        } else {
            0int
        }),
{
    assert(year / 4 - (year - 1) / 4 == (if year % 4 == 0 { 1int } else { 0int }));
    assert(year / 100 - (year - 1) / 100 == (if year % 100 == 0 { 1int } else { 0int }));
    assert(year / 400 - (year - 1) / 400 == (if year % 400 == 0 { 1int } else { 0int }));
    assert(year % 400 == 0 ==> year % 100 == 0);
    assert(year % 100 == 0 ==> year % 4 == 0);
}

pub proof fn lemma_year_start_step(year: int)
    ensures
        year_start(year + 1) == year_start(year) + days_in_year(year),
{
    lemma_leaps_step(year);
}

pub proof fn lemma_year_start_is_sum(year: int)
    requires
        year >= 1970,
    ensures
        year_start(year) == days_before_year(year),
    decreases year - 1970,
{
    if year > 1970 {
        lemma_year_start_is_sum(year - 1);
        lemma_year_start_step(year - 1);
    }
}

/// `year_start` grows by at least 365 days a year.
pub proof fn lemma_year_start_grows(a: int, b: int)
    requires
        a <= b,
    ensures
        year_start(a) + 365 * (b - a) <= year_start(b),
        year_start(b) <= year_start(a) + 366 * (b - a),
    decreases b - a,
{
    if a < b {
        lemma_year_start_grows(a, b - 1);
        lemma_year_start_step(b - 1);
    }
}

/// Between two year ends, the count of leap years is at least 0 and at most
/// the count of years.
pub proof fn lemma_leaps_between(a: int, b: int)
    requires
        a <= b,
    ensures
        0 <= leaps_through(b) - leaps_through(a) <= b - a,
    decreases b - a,
{
    if a < b {
        lemma_leaps_between(a, b - 1);
        lemma_leaps_step(b);
    }
}

pub proof fn lemma_months_fill_year(year: int)
    ensures
        days_before_month(13, year) == days_in_year(year),
{
    reveal_with_fuel(days_before_month, 13);
}

/// Every month ends no later than the year.
pub proof fn lemma_month_in_year(month: int, year: int)
    requires
        1 <= month <= 12,
    ensures
        days_before_month(month, year) + days_in_month(month, year) <= days_in_year(year),
        0 <= days_before_month(month, year),
{
    reveal_with_fuel(days_before_month, 13);
}

/// Months start in increasing order.
pub proof fn lemma_months_ordered(m1: int, m2: int, year: int)
    requires
        1 <= m1 < m2 <= 13,
    ensures
        days_before_month(m1, year) + days_in_month(m1, year) <= days_before_month(m2, year),
    decreases m2 - m1,
{
    if m1 + 1 < m2 {
        lemma_months_ordered(m1, m2 - 1, year);
        assert(days_in_month(m2 - 1, year) >= 28);
    }
}

// ---------------------------------------------------------------------
// The search for the year that holds a given day

/// `days` counts days from the start of `year` and falls within that year.
pub open spec fn in_year(days: int, year: int) -> bool {
    0 <= days < days_in_year(year)
}

/// Measure of the distance of a search state from its end.
pub open spec fn year_search_measure(days: int, year: int) -> int {
    if in_year(days, year) {
        0
    } else if days >= 0 {
        2 * days + 1
    } else {
        2 - 2 * days
    }
}

/// Bound on the day offsets met during the search.
pub open spec fn search_bound() -> int {
    110_000_000_000_000
}

/// One step of the search: guess the year as if every year had 365 days,
/// then correct the day offset by the leap days in between.
pub open spec fn search_next_days(days: int, year: int) -> int {
    let yg = year + days / 365;
    days - (365 * (yg - year) + leaps_through(yg - 1) - leaps_through(year - 1))
}

pub proof fn lemma_year_search_step(days: int, year: int)
    requires
        !in_year(days, year),
        -search_bound() <= days <= search_bound(),
    ensures
        ({
            let yg = year + days / 365;
            let nd = search_next_days(days, year);
            &&& nd + year_start(yg) == days + year_start(year)
            &&& year_search_measure(nd, yg) < year_search_measure(days, year)
            &&& -search_bound() <= nd <= search_bound()
        }),
{
    let q = days / 365;
    let r = days % 365;
    let yg = year + q;
    let nd = search_next_days(days, year);
    assert(days == 365 * q + r && 0 <= r < 365);
    if days >= 0 {
        assert(days >= 365);
        assert(q >= 1);
        lemma_leaps_between(year - 1, yg - 1);
        assert(-q <= nd <= 364);
        assert(365 * q <= days);
    } else {
        assert(q <= -1);
        lemma_leaps_between(yg - 1, year - 1);
        assert(0 <= nd <= 364 - q);
        if days >= -365 {
            assert(q == -1);
            lemma_leaps_step(year - 1);
            assert(in_year(nd, yg));
        } else {
            assert(365 * (-q) <= -days + 364);
        }
    }
}

/// The years that the search visits stay within bounds.
pub proof fn lemma_search_year_bounds(days: int, year: int, total: int)
    requires
        days + year_start(year) == total,
        -search_bound() <= days <= search_bound(),
        -search_bound() <= total <= search_bound(),
    ensures
        -1_000_000_000_000 <= year <= 1_000_000_000_000,
{
    if year >= 1970 {
        lemma_year_start_grows(1970, year);
    } else {
        lemma_year_start_grows(year, 1970);
    }
}

/// Where the search stops, the year is 1970 or later exactly when the day
/// is on or after 1970-01-01.
pub proof fn lemma_search_end(days: int, year: int, total: int)
    requires
        days + year_start(year) == total,
        in_year(days, year),
    ensures
        year >= 1970 <==> total >= 0,
{
    lemma_year_start_step(year);
    if year >= 1970 {
        lemma_year_start_grows(1970, year);
    } else {
        lemma_year_start_grows(year + 1, 1970);
    }
}

// ---------------------------------------------------------------------
// Executable calendar functions

/// (a / b, a % b), with Rust's truncating division.
pub fn divmod(a: i64, b: i64) -> (r: (i64, i64))
    requires
        b > 0,
    ensures
        r.0 * b + r.1 == a,
        a >= 0 ==> 0 <= r.1 < b,
        a < 0 ==> -b < r.1 <= 0,
{
    let q = a / b;
    let m = a % b;
    proof {
        if a >= 0 {
            assert(q == a / b && m == a % b);
            assert(q * b + m == a) by (nonlinear_arith)
                requires
                    q == a / b,
                    m == a % b,
                    b > 0,
            ;
        } else {
            let na: int = -(a as int);
            assert(-q == na / (b as int));
            assert(-m == na % (b as int));
            assert((-q) * b + (-m) == na && 0 <= -m < b) by (nonlinear_arith)
                requires
                    -q == na / (b as int),
                    -m == na % (b as int),
                    b > 0,
            ;
            assert(q * b + m == a) by (nonlinear_arith)
                requires
                    (-q) * b + (-m) == na,
                    na == -(a as int),
            ;
        }
    }
    (q, m)
}

/// Floor division, for a positive divisor.
pub fn div(a: i64, b: i64) -> (r: i64)
    requires
        b > 0,
    ensures
        r == a as int / b as int,
{
    let (q, m) = divmod(a, b);
    proof {
        if m < 0 && q == i64::MIN {
            assert(q * b <= q) by (nonlinear_arith)
                requires
                    q < 0,
                    b > 0,
            ;
        }
    }
    let r = if m < 0 {
        q - 1
    } else {
        q
    };
    proof {
        let k: int = if m < 0 {
            m + b
        } else {
            m as int
        };
        assert(r * b + k == a) by (nonlinear_arith)
            requires
                q * b + m == a,
                r == (if m < 0 {
                    q - 1
                } else {
                    q as int
                }),
                k == (if m < 0 {
                    m + b
                } else {
                    m as int
                }),
        ;
        assert(0 <= k < b);
        vstd::arithmetic::div_mod::lemma_fundamental_div_mod_converse(
            a as int,
            b as int,
            r as int,
            k,
        );
    }
    r
}

pub fn is_leap(year: i64) -> (r: bool)
    ensures
        r == leap(year as int),
{
    year % 4 == 0 && (year % 100 != 0 || year % 400 == 0)
}

/// Count of leap years in 1 ..= year.
pub fn leaps_thru_end_of(year: i64) -> (r: i64)
    ensures
        r == leaps_through(year as int),
{
    div(year, 4) - div(year, 100) + div(year, 400)
}

/// Length of a month in a year without a 29 February.
fn common_month_days(month: i64) -> (r: i64)
    requires
        1 <= month <= 12,
    ensures
        r == days_in_month(month as int, 1971),
{
    match month {
        2 => 28,
        4 | 6 | 9 | 11 => 30,
        _ => 31,
    }
}

/// Days in `month` of `year`.
pub fn month_days(month: i64, year: i64) -> (r: i64)
    requires
        1 <= month <= 12,
    ensures
        r == days_in_month(month as int, year as int),
{
    common_month_days(month) + if month == 2 && is_leap(year) {
        1
    } else {
        0
    }
}

/// Days in `year`.
pub fn year_days(year: i64) -> (r: i64)
    ensures
        r == days_in_year(year as int),
{
    DAYS_IN_YEAR + if is_leap(year) {
        1
    } else {
        0
    }
}

/// Days of the year before the first day of `month`.
pub fn month_start_in_year(month: i64, leap_year: bool) -> (r: i64)
    requires
        1 <= month <= 13,
    ensures
        forall|y: int| leap(y) == leap_year ==> r == days_before_month(month as int, y),
{
    proof {
        assert forall|y: int| leap(y) == leap_year implies days_before_month(month as int, y) == (
        if leap_year {
            seq![0int, 31, 60, 91, 121, 152, 182, 213, 244, 274, 305, 335, 366]
        } else {
            seq![0int, 31, 59, 90, 120, 151, 181, 212, 243, 273, 304, 334, 365]
        })[month - 1] by {
            reveal_with_fuel(days_before_month, 13);
        }
    }
    let extra: i64 = if leap_year && month > 2 {
        1
    } else {
        0
    };
    let base: i64 = match month {
        1 => 0,
        2 => 31,
        3 => 59,
        4 => 90,
        5 => 120,
        6 => 151,
        7 => 181,
        8 => 212,
        9 => 243,
        10 => 273,
        11 => 304,
        12 => 334,
        _ => 365,
    };
    base + extra
}

} // verus!
