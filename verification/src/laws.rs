//! Properties that hold across the operations of `DateTime`, stated over the
//! model that their contracts use.

use vstd::prelude::*;
use crate::calendar::{days_in_month, days_in_year, leap, lemma_months_fill_year, days_before_month};
use core::time::Duration;
use std::time::SystemTimeError;
use crate::clock::{date_of_reading, whole_seconds};
use crate::datetime::{opt_model, DateTime};
use crate::model::{
    date_at, in_other_year, lemma_anchor_injective, lemma_date_at_anchor, next_month_of,
    prev_month_of, DateModel,
};

verus! {

/// Going one day forward and then one day back gives the date back.
pub proof fn law_next_day_then_prev_day(d: DateModel, e: DateModel)
    requires
        d.valid(),
        date_at(d.anchor() + 86400) == Some(e),
    ensures
        date_at(e.anchor() - 86400) == Some(d),
{
    lemma_date_at_anchor(d);
}

/// Going one day back and then one day forward gives the date back.
pub proof fn law_prev_day_then_next_day(d: DateModel, e: DateModel)
    requires
        d.valid(),
        date_at(d.anchor() - 86400) == Some(e),
    ensures
        date_at(e.anchor() + 86400) == Some(d),
{
    lemma_date_at_anchor(d);
}

/// Going one week forward and then one week back gives the date back.
pub proof fn law_next_week_then_prev_week(d: DateModel, e: DateModel)
    requires
        d.valid(),
        date_at(d.anchor() + 604800) == Some(e),
    ensures
        date_at(e.anchor() - 604800) == Some(d),
{
    lemma_date_at_anchor(d);
}

/// A date's anchor leads back to the date.
pub proof fn law_anchor_round_trip(d: DateModel)
    requires
        d.valid(),
    ensures
        date_at(d.anchor()) == Some(d),
{
    lemma_date_at_anchor(d);
}

/// The date at a non-negative count of seconds has that count as its anchor.
pub proof fn law_date_at_has_anchor(secs: int, e: DateModel)
    requires
        date_at(secs) == Some(e),
    ensures
        e.valid(),
        e.anchor() == secs,
        secs >= 0,
{
    crate::model::lemma_anchor_nonneg(e);
}

/// Moving `k` whole days keeps the time of day and moves the day number
/// by `k`.
pub proof fn law_whole_days_keep_time(d: DateModel, k: int, e: DateModel)
    requires
        d.valid(),
        date_at(d.anchor() + 86400 * k) == Some(e),
    ensures
        e.second_of_day() == d.second_of_day(),
        e.day_number() == d.day_number() + k,
        e.weekday() == (d.weekday() + k) % 7,
{
    crate::model::lemma_second_of_day_bounds(d);
    crate::model::lemma_second_of_day_bounds(e);
    assert(e.anchor() == d.anchor() + 86400 * k);
    assert(e.day_number() == d.day_number() + k);
    assert((d.day_number() + 2 + k) % 7 == ((d.day_number() + 2) % 7 + k) % 7) by {
        vstd::arithmetic::div_mod::lemma_add_mod_noop(d.day_number() + 2, k, 7);
        vstd::arithmetic::div_mod::lemma_add_mod_noop((d.day_number() + 2) % 7, k, 7);
    }
}

/// The start of the week is a Monday of the same week, at the same time.
pub proof fn law_start_of_week_is_monday(d: DateModel, e: DateModel)
    requires
        d.valid(),
        date_at(d.anchor() - 86400 * d.weekday()) == Some(e),
    ensures
        e.weekday() == 0,
        e.second_of_day() == d.second_of_day(),
        d.day_number() - 6 <= e.day_number() <= d.day_number(),
{
    law_whole_days_keep_time(d, -d.weekday(), e);
}

/// The end of the week is a Sunday of the same week, at the same time.
pub proof fn law_end_of_week_is_sunday(d: DateModel, e: DateModel)
    requires
        d.valid(),
        date_at(d.anchor() + 86400 * (6 - d.weekday())) == Some(e),
    ensures
        e.weekday() == 6,
        e.second_of_day() == d.second_of_day(),
        d.day_number() <= e.day_number() <= d.day_number() + 6,
{
    law_whole_days_keep_time(d, 6 - d.weekday(), e);
}

/// Moving by months or years gives valid dates.
pub proof fn law_navigation_stays_valid(d: DateModel)
    requires
        d.valid(),
    ensures
        next_month_of(d).valid(),
        prev_month_of(d) matches Some(p) ==> p.valid(),
        in_other_year(d, d.year + 1) matches Some(n) ==> n.valid(),
        in_other_year(d, d.year - 1) matches Some(p) ==> p.valid(),
{
}

/// A month forward and back gives the date back where its day exists in
/// the next month; a month back and forward, where it exists in the
/// previous month.
pub proof fn law_month_round_trip(d: DateModel)
    requires
        d.valid(),
    ensures
        d.day <= days_in_month(if d.month == 12 {
            1
        } else {
            d.month + 1
        }, d.year) ==> prev_month_of(next_month_of(d)) == Some(d),
        prev_month_of(d) matches Some(p) ==> (d.day <= days_in_month(p.month, p.year)
            ==> next_month_of(p) == d),
{
}

/// A year forward and back gives the date back, 29 February apart.
pub proof fn law_year_round_trip(d: DateModel)
    requires
        d.valid(),
        !(d.month == 2 && d.day == 29),
    ensures
        in_other_year(d, d.year + 1) matches Some(n) && in_other_year(n, n.year - 1) == Some(d),
        in_other_year(d, d.year - 1) matches Some(p) ==> in_other_year(p, p.year + 1) == Some(
            d,
        ),
{
}

/// The months of a year add up to the year, which has 366 days exactly in
/// leap years.
pub proof fn law_months_fill_year(year: int)
    ensures
        days_before_month(13, year) == days_in_year(year),
        days_in_year(year) == 366 <==> leap(year),
        days_in_year(year) == 365 <==> !leap(year),
{
    lemma_months_fill_year(year);
}

/// Valid dates with the same anchor are the same date.
pub proof fn law_anchor_identifies_date(a: DateModel, b: DateModel)
    requires
        a.valid(),
        b.valid(),
        a.anchor() == b.anchor(),
    ensures
        a == b,
{
    lemma_anchor_injective(a, b);
}

/// Every month has between 28 and 31 days; only February varies, with the
/// leap year.
pub proof fn law_month_lengths(month: int, year: int)
    requires
        1 <= month <= 12,
    ensures
        28 <= days_in_month(month, year) <= 31,
        month != 2 ==> days_in_month(month, year) == days_in_month(month, year + 1),
        days_in_month(2, year) == 29 <==> leap(year),
{
}

/// The present date is the clock's reading: where the clock reads a
/// duration since 1970-01-01 00:00:00 of `secs` whole seconds that fit in an
/// `i64`, the date is valid and lies exactly `secs` seconds after the epoch;
/// where the reading does not fit, or the clock reads before 1970, there is
/// no date.
pub proof fn law_now_is_clock_reading(since: Result<Duration, SystemTimeError>, r: Option<DateTime>)
    requires
        date_of_reading(since, r),
    ensures
        since is Err ==> r is None,
        since matches Ok(elapsed) ==> exists|secs: u64|
            #[trigger] whole_seconds(elapsed, secs) && (secs <= i64::MAX ==> (r matches Some(d)
                && d@.valid() && d@.anchor() == secs)) && (secs > i64::MAX ==> r is None),
{
    if let Ok(elapsed) = since {
        let secs = choose|secs: u64|
            #[trigger] whole_seconds(elapsed, secs) && opt_model(r) == (if secs <= i64::MAX {
                date_at(secs as int)
            } else {
                None
            }) && (r is Some <==> secs <= i64::MAX);
        if secs <= i64::MAX {
            let d = r.unwrap();
            law_date_at_has_anchor(secs as int, d@);
        }
    }
}

} // verus!
