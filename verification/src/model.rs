//! The mathematical model of a date with time of day, and its count of
//! seconds since 1970-01-01 00:00:00 (its "anchor").

use vstd::prelude::*;
use crate::calendar::{
    days_before_month, days_before_year, days_in_month, days_in_year, lemma_month_in_year,
    lemma_months_ordered, lemma_year_start_grows, lemma_year_start_is_sum,
};

verus! {

/// A date with time of day, as mathematical integers.
pub struct DateModel {
    pub year: int,
    pub month: int,
    pub day: int,
    pub hour: int,
    pub minute: int,
    pub second: int,
}

/// The fields form a real date and time, no earlier than 1970-01-01 00:00:00.
pub open spec fn valid_fields(
    year: int,
    month: int,
    day: int,
    hour: int,
    minute: int,
    second: int,
) -> bool {
    &&& year >= 1970
    &&& 1 <= month <= 12
    &&& 1 <= day <= days_in_month(month, year)
    &&& 0 <= hour < 24
    &&& 0 <= minute < 60
    &&& 0 <= second < 60
}

impl DateModel {
    pub open spec fn valid(self) -> bool {
        valid_fields(self.year, self.month, self.day, self.hour, self.minute, self.second)
    }

    /// Number of days since 1970-01-01, counting the current one
    /// (1970-01-01 is day 1).
    pub open spec fn day_number(self) -> int {
        days_before_year(self.year) + days_before_month(self.month, self.year) + self.day
    }

    /// Seconds elapsed within the day.
    pub open spec fn second_of_day(self) -> int {
        3600 * self.hour + 60 * self.minute + self.second
    }

    /// Seconds since 1970-01-01 00:00:00.
    pub open spec fn anchor(self) -> int {
        86400 * (self.day_number() - 1) + self.second_of_day()
    }

    /// Day of the week, 0 for Monday up to 6 for Sunday (1970-01-01 was a Thursday).
    pub open spec fn weekday(self) -> int {
        (self.day_number() - 1 + 3) % 7
    }

    /// The same time of day on another date.
    pub open spec fn with_date(self, year: int, month: int, day: int) -> DateModel {
        DateModel { year, month, day, hour: self.hour, minute: self.minute, second: self.second }
    }
}

/// Strict lexicographic order on (year, month, day, hour, minute, second).
pub open spec fn lex_lt(a: DateModel, b: DateModel) -> bool {
    ||| a.year < b.year
    ||| a.year == b.year && a.month < b.month
    ||| a.year == b.year && a.month == b.month && a.day < b.day
    ||| a.year == b.year && a.month == b.month && a.day == b.day && a.hour < b.hour
    ||| a.year == b.year && a.month == b.month && a.day == b.day && a.hour == b.hour && a.minute
        < b.minute
    ||| a.year == b.year && a.month == b.month && a.day == b.day && a.hour == b.hour && a.minute
        == b.minute && a.second < b.second
}

/// The date whose anchor is `secs`, if there is one.
pub open spec fn date_at(secs: int) -> Option<DateModel> {
    if exists|d: DateModel| d.valid() && d.anchor() == secs {
        Some(choose|d: DateModel| d.valid() && d.anchor() == secs)
    } else {
        None
    }
}

/// `day`, or the last day of the month where the month is shorter.
pub open spec fn clamp_day(day: int, month: int, year: int) -> int {
    if day <= days_in_month(month, year) {
        day
    } else {
        days_in_month(month, year)
    }
}

/// The same day and time of the month before, the day clamped to that
/// month's length; `None` where that month is before 1970.
pub open spec fn prev_month_of(d: DateModel) -> Option<DateModel> {
    if d.month == 1 {
        if d.year - 1 >= 1970 {
            Some(d.with_date(d.year - 1, 12, d.day))
        } else {
            None
        }
    } else {
        Some(d.with_date(d.year, d.month - 1, clamp_day(d.day, d.month - 1, d.year)))
    }
}

/// The same day and time of the month after, the day clamped to that
/// month's length.
pub open spec fn next_month_of(d: DateModel) -> DateModel {
    if d.month == 12 {
        d.with_date(d.year + 1, 1, d.day)
    } else {
        d.with_date(d.year, d.month + 1, clamp_day(d.day, d.month + 1, d.year))
    }
}

/// The same day and time in year `year`, 29 February becoming 28 February
/// where `year` is not a leap year; `None` where `year` is before 1970.
pub open spec fn in_other_year(d: DateModel, year: int) -> Option<DateModel> {
    if year >= 1970 {
        Some(d.with_date(year, d.month, clamp_day(d.day, d.month, year)))
    } else {
        None
    }
}

// ---------------------------------------------------------------------
// Lemmas on the model

pub proof fn lemma_days_before_year_grows(a: int, b: int)
    requires
        1970 <= a <= b,
    ensures
        days_before_year(a) + 365 * (b - a) <= days_before_year(b),
{
    lemma_year_start_is_sum(a);
    lemma_year_start_is_sum(b);
    lemma_year_start_grows(a, b);
}

pub proof fn lemma_day_of_year_bounds(d: DateModel)
    requires
        d.valid(),
    ensures
        days_before_year(d.year) < d.day_number(),
        d.day_number() <= days_before_year(d.year + 1),
        d.day_number() >= 1,
{
    lemma_month_in_year(d.month, d.year);
    assert(days_before_year(d.year + 1) == days_before_year(d.year) + days_in_year(d.year));
    assert(days_before_year(d.year) >= 0) by {
        lemma_days_before_year_grows(1970, d.year);
    }
}

/// Lexicographic order on (year, month, day) is the order of day numbers.
pub proof fn lemma_day_number_order(a: DateModel, b: DateModel)
    requires
        a.valid(),
        b.valid(),
    ensures
        (a.year < b.year || (a.year == b.year && a.month < b.month) || (a.year == b.year
            && a.month == b.month && a.day < b.day)) ==> a.day_number() < b.day_number(),
        (a.year == b.year && a.month == b.month && a.day == b.day) ==> a.day_number()
            == b.day_number(),
{
    lemma_day_of_year_bounds(a);
    lemma_day_of_year_bounds(b);
    if a.year < b.year {
        lemma_days_before_year_grows(a.year + 1, b.year);
    } else if a.year == b.year && a.month < b.month {
        lemma_months_ordered(a.month, b.month, a.year);
    }
}

pub proof fn lemma_second_of_day_bounds(d: DateModel)
    requires
        d.valid(),
    ensures
        0 <= d.second_of_day() < 86400,
{
}

/// Lexicographic order on the fields is the order of anchors.
pub proof fn lemma_anchor_order(a: DateModel, b: DateModel)
    requires
        a.valid(),
        b.valid(),
    ensures
        lex_lt(a, b) <==> a.anchor() < b.anchor(),
{
    lemma_day_number_order(a, b);
    lemma_day_number_order(b, a);
    lemma_second_of_day_bounds(a);
    lemma_second_of_day_bounds(b);
}

/// A valid date is determined by its anchor.
pub proof fn lemma_anchor_injective(a: DateModel, b: DateModel)
    requires
        a.valid(),
        b.valid(),
        a.anchor() == b.anchor(),
    ensures
        a == b,
{
    lemma_anchor_order(a, b);
    lemma_anchor_order(b, a);
}

/// A valid date is the date at its anchor.
pub proof fn lemma_date_at_anchor(d: DateModel)
    requires
        d.valid(),
    ensures
        date_at(d.anchor()) == Some(d),
{
    let e = choose|e: DateModel| e.valid() && e.anchor() == d.anchor();
    lemma_anchor_injective(d, e);
}

/// Anchors of valid dates are non-negative.
pub proof fn lemma_anchor_nonneg(d: DateModel)
    requires
        d.valid(),
    ensures
        d.anchor() >= 0,
        d.day_number() >= 1,
{
    lemma_day_of_year_bounds(d);
}

/// There is no date before 1970.
pub proof fn lemma_date_at_negative(secs: int)
    requires
        secs < 0,
    ensures
        date_at(secs) is None,
{
    if exists|d: DateModel| d.valid() && d.anchor() == secs {
        let d = choose|d: DateModel| d.valid() && d.anchor() == secs;
        lemma_anchor_nonneg(d);
    }
}

/// Upper bounds of day number and anchor by the year, for showing that they
/// fit in machine integers.
pub proof fn lemma_anchor_bound(d: DateModel)
    requires
        d.valid(),
    ensures
        d.day_number() <= 366 * (d.year - 1969),
        d.anchor() < 31_622_400 * (d.year - 1969),
{
    lemma_day_of_year_bounds(d);
    lemma_year_start_is_sum(d.year + 1);
    lemma_year_start_grows(1970, d.year + 1);
    lemma_second_of_day_bounds(d);
    assert(d.anchor() < 86400 * d.day_number());
    assert(86400 * d.day_number() <= 86400 * (366 * (d.year - 1969))) by (nonlinear_arith)
        requires
            d.day_number() <= 366 * (d.year - 1969),
    ;
}

} // verus!
