//! `DateTime`: a date with time of day, always valid, never earlier than
//! 1970-01-01 00:00:00.

use vstd::prelude::*;
use crate::calendar::{
    days_before_month, days_before_year, days_in_month, days_in_year, divmod, is_leap, leap,
    leaps_thru_end_of, lemma_month_in_year, lemma_search_end, lemma_search_year_bounds,
    lemma_year_search_step, lemma_year_start_grows, lemma_year_start_is_sum, month_days,
    month_start_in_year, search_bound, year_days, year_search_measure, year_start, DAYS_IN_WEEK,
    DAYS_IN_YEAR, HOURS_IN_DAY, MINS_IN_HOUR, MONTHS_IN_YEAR, SECS_IN_DAY, SECS_IN_HOUR,
    SECS_IN_MIN, SECS_IN_WEEK, UNIX_START_YEAR,
};
use crate::model::{
    date_at, in_other_year, lemma_date_at_negative, next_month_of, prev_month_of, valid_fields,
    DateModel,
};
use crate::text::{date_text, fmt_int, full_text, push_decimal, push_text};

verus! {

/// A basic date, with a time of day that can be ignored.
///
/// Every value is a real date and time, no earlier than 1970-01-01 00:00:00.
#[derive(Clone, Copy, Debug, PartialEq, Eq, Structural, Ord)]
pub struct DateTime {
    pub(crate) year: i64,
    pub(crate) month: i64,
    pub(crate) day: i64,
    pub(crate) hour: i64,
    pub(crate) minute: i64,
    pub(crate) second: i64,
}

impl View for DateTime {
    type V = DateModel;

    closed spec fn view(&self) -> DateModel {
        DateModel {
            year: self.year as int,
            month: self.month as int,
            day: self.day as int,
            hour: self.hour as int,
            minute: self.minute as int,
            second: self.second as int,
        }
    }
}

/// The models of an optional `DateTime`.
pub open spec fn opt_model(r: Option<DateTime>) -> Option<DateModel> {
    match r {
        Some(d) => Some(d@),
        None => None,
    }
}

/// The model of the fields, where they form a valid date.
pub open spec fn model_if_valid(
    year: int,
    month: int,
    day: int,
    hour: int,
    minute: int,
    second: int,
) -> Option<DateModel> {
    if valid_fields(year, month, day, hour, minute, second) {
        Some(DateModel { year, month, day, hour, minute, second })
    } else {
        None
    }
}

impl DateTime {
    /// Every `DateTime` is a valid date: callers learn it of a value `d` with
    /// `use_type_invariant(&d)`.
    #[verifier::type_invariant]
    pub open spec fn inv(self) -> bool {
        self@.valid()
    }

    /// The view holds the fields as they are.
    pub(crate) proof fn lemma_view_fields(&self)
        ensures
            self@.year == self.year,
            self@.month == self.month,
            self@.day == self.day,
            self@.hour == self.hour,
            self@.minute == self.minute,
            self@.second == self.second,
    {
    }

    pub fn year(&self) -> (r: i64)
        ensures
            r == self@.year,
    {
        self.year
    }

    pub fn month(&self) -> (r: i64)
        ensures
            r == self@.month,
    {
        self.month
    }

    pub fn day(&self) -> (r: i64)
        ensures
            r == self@.day,
    {
        self.day
    }

    pub fn hour(&self) -> (r: i64)
        ensures
            r == self@.hour,
    {
        self.hour
    }

    pub fn minute(&self) -> (r: i64)
        ensures
            r == self@.minute,
    {
        self.minute
    }

    pub fn second(&self) -> (r: i64)
        ensures
            r == self@.second,
    {
        self.second
    }

    /// Whether the fields form a valid date and time.
    fn is_valid(year: i64, month: i64, day: i64, hour: i64, minute: i64, second: i64) -> (r: bool)
        ensures
            r == valid_fields(
                year as int,
                month as int,
                day as int,
                hour as int,
                minute as int,
                second as int,
            ),
    {
        year >= UNIX_START_YEAR && 0 < month && month <= MONTHS_IN_YEAR && 0 < day && day
            <= month_days(month, year) && 0 <= hour && hour < HOURS_IN_DAY && 0 <= minute
            && minute < MINS_IN_HOUR && 0 <= second && second < SECS_IN_MIN
    }

    /// The date and time with these fields, or `None` where they do not form
    /// a valid date no earlier than 1970.
    pub fn new(year: i64, month: i64, day: i64, hour: i64, minute: i64, second: i64) -> (r: Option<
        Self,
    >)
        ensures
            opt_model(r) == model_if_valid(
                year as int,
                month as int,
                day as int,
                hour as int,
                minute as int,
                second as int,
            ),
    {
        if Self::is_valid(year, month, day, hour, minute, second) {
            Some(Self { year, month, day, hour, minute, second })
        } else {
            None
        }
    }

    /// The date at midnight, or `None` where it is not a valid date no
    /// earlier than 1970.
    pub fn new_date(year: i64, month: i64, day: i64) -> (r: Option<Self>)
        ensures
            opt_model(r) == model_if_valid(year as int, month as int, day as int, 0, 0, 0),
    {
        Self::new(year, month, day, 0, 0, 0)
    }

    /// Number of days since 1970-01-01, counting the current one.
    fn as_days(&self) -> (r: i64)
        requires
            self@.day_number() <= i64::MAX,
        ensures
            r == self@.day_number(),
    {
        proof {
            use_type_invariant(self);
            lemma_month_in_year(self@.month, self@.year);
            lemma_year_start_is_sum(self@.year);
            lemma_year_start_grows(1970, self@.year);
        }
        let mut sum: i64 = 0;
        let mut m: i64 = 1;
        while m < self.month
            invariant
                1 <= m <= self.month <= 12,
                sum == days_before_month(m as int, self.year as int),
                days_before_month(self.month as int, self.year as int) <= 366,
            decreases self.month - m,
        {
            proof {
                crate::calendar::lemma_months_ordered(m as int, self.month as int, self.year as int);
            }
            sum = sum + month_days(m, self.year);
            m = m + 1;
        }
        let mut y: i64 = UNIX_START_YEAR;
        while y < self.year
            invariant
                UNIX_START_YEAR <= y <= self.year,
                sum == days_before_month(self.month as int, self.year as int) + days_before_year(
                    y as int,
                ),
                self@.day_number() <= i64::MAX,
                self@.day_number() == days_before_year(self.year as int) + days_before_month(
                    self.month as int,
                    self.year as int,
                ) + self.day,
                self.day >= 1,
                days_before_month(self.month as int, self.year as int) >= 0,
            decreases self.year - y,
        {
            proof {
                crate::model::lemma_days_before_year_grows(y as int + 1, self.year as int);
            }
            sum = sum + year_days(y);
            y = y + 1;
        }
        self.day + sum
    }

    /// Seconds since 1970-01-01 00:00:00.
    fn as_anchor(&self) -> (r: i64)
        requires
            self@.anchor() <= i64::MAX,
        ensures
            r == self@.anchor(),
    {
        proof {
            use_type_invariant(self);
            crate::model::lemma_anchor_nonneg(self@);
        }
        let days = self.as_days();
        SECS_IN_DAY * (days - 1) + self.hour * SECS_IN_HOUR + self.minute * SECS_IN_MIN
            + self.second
    }

    /// The date and time `secs` seconds after 1970-01-01 00:00:00, or `None`
    /// where `secs` is negative.
    pub fn from_anchor(secs: i64) -> (r: Option<Self>)
        ensures
            opt_model(r) == date_at(secs as int),
            r is Some <==> secs >= 0,
    {
        let (mut days, mut rem) = divmod(secs, SECS_IN_DAY);
        while rem < 0
            invariant
                days * 86400 + rem == secs,
                -86400 < rem < 86400,
                -106_751_991_167_301 <= days <= 106_751_991_167_301,
            decreases
                if rem < 0 {
                    1int
                } else {
                    0int
                },
        {
            rem += SECS_IN_DAY;
            days -= 1;
        }
        while rem >= SECS_IN_DAY
            invariant
                days * 86400 + rem == secs,
                0 <= rem,
                -106_751_991_167_302 <= days <= 106_751_991_167_301,
            decreases rem,
        {
            rem -= SECS_IN_DAY;
            days += 1;
        }
        let ghost total: int = days as int;
        let ghost rem0: int = rem as int;
        let hour = rem / SECS_IN_HOUR;
        rem = rem % SECS_IN_HOUR;
        let (minute, second) = divmod(rem, SECS_IN_MIN);
        assert(3600 * hour + 60 * minute + second == rem0);
        let mut y: i64 = UNIX_START_YEAR;
        while days < 0 || days >= year_days(y)
            invariant
                days + year_start(y as int) == total,
                -search_bound() <= days <= search_bound(),
                -search_bound() <= total <= search_bound(),
                -1_000_000_000_000 <= y <= 1_000_000_000_000,
            decreases year_search_measure(days as int, y as int),
        {
            proof {
                lemma_year_search_step(days as int, y as int);
            }
            let yg = y + days / DAYS_IN_YEAR - if days % DAYS_IN_YEAR < 0 {
                1
            } else {
                0
            };
            assert(yg == y + days / 365);
            days -= (yg - y) * DAYS_IN_YEAR + leaps_thru_end_of(yg - 1) - leaps_thru_end_of(y - 1);
            y = yg;
            proof {
                lemma_search_year_bounds(days as int, y as int, total);
            }
        }
        proof {
            lemma_search_end(days as int, y as int, total);
        }
        let year = y;
        let leap_year = is_leap(year);
        let mut m: i64 = MONTHS_IN_YEAR - 1;
        proof {
            crate::calendar::lemma_months_fill_year(year as int);
        }
        while days < month_start_in_year(m + 1, leap_year)
            invariant
                0 <= m <= 11,
                0 <= days < days_before_month(m + 2, year as int),
                leap_year == leap(year as int),
            decreases m,
        {
            m -= 1;
        }
        let month = m + 1;
        let day = days - month_start_in_year(month, leap_year) + 1;
        let r = Self::new(year, month, day, hour, minute, second);
        proof {
            if year >= 1970 {
                let d = DateModel {
                    year: year as int,
                    month: month as int,
                    day: day as int,
                    hour: hour as int,
                    minute: minute as int,
                    second: second as int,
                };
                lemma_year_start_is_sum(year as int);
                assert(d.valid());
                assert(d.anchor() == secs);
                crate::model::lemma_date_at_anchor(d);
            } else {
                lemma_date_at_negative(secs as int);
            }
        }
        r
    }
}


impl DateTime {
    /// The six fields, from year to second.
    pub fn asarray(&self) -> (r: [i64; 6])
        ensures
            r@.len() == 6,
            r@[0] == self@.year && r@[1] == self@.month && r@[2] == self@.day,
            r@[3] == self@.hour && r@[4] == self@.minute && r@[5] == self@.second,
    {
        [self.year, self.month, self.day, self.hour, self.minute, self.second]
    }

    /// How many days the current month has.
    pub fn month_days(&self) -> (r: i64)
        ensures
            r == days_in_month(self@.month, self@.year),
    {
        proof {
            use_type_invariant(self);
        }
        month_days(self.month, self.year)
    }

    /// How many days the current year has.
    pub fn year_days(&self) -> (r: i64)
        ensures
            r == days_in_year(self@.year),
    {
        year_days(self.year)
    }

    pub fn is_leap_year(&self) -> (r: bool)
        ensures
            r == leap(self@.year),
    {
        is_leap(self.year)
    }

    /// Day of the week, 0 for Monday up to 6 for Sunday.
    pub fn weekday(&self) -> (r: i64)
        requires
            self@.day_number() <= i64::MAX,
        ensures
            r == self@.weekday(),
            0 <= r < 7,
    {
        proof {
            use_type_invariant(self);
            crate::model::lemma_anchor_nonneg(self@);
        }
        let day_on_unix_start: i64 = 3;
        (((self.as_days() - 1) % DAYS_IN_WEEK) + day_on_unix_start) % DAYS_IN_WEEK
    }

    /// The same time one day earlier; `None` on 1970-01-01.
    pub fn prev_day(&self) -> (r: Option<Self>)
        requires
            self@.anchor() <= i64::MAX,
        ensures
            opt_model(r) == date_at(self@.anchor() - 86400),
            r is Some <==> self@.anchor() >= 86400,
    {
        proof {
            use_type_invariant(self);
            crate::model::lemma_anchor_nonneg(self@);
        }
        Self::from_anchor(self.as_anchor() - SECS_IN_DAY)
    }

    /// The same time one day later.
    pub fn next_day(&self) -> (r: Option<Self>)
        requires
            self@.anchor() + 86400 <= i64::MAX,
        ensures
            opt_model(r) == date_at(self@.anchor() + 86400),
            r is Some,
    {
        proof {
            use_type_invariant(self);
            crate::model::lemma_anchor_nonneg(self@);
        }
        Self::from_anchor(self.as_anchor() + SECS_IN_DAY)
    }

    /// The same time seven days earlier; `None` where that is before 1970.
    pub fn prev_week(&self) -> (r: Option<Self>)
        requires
            self@.anchor() <= i64::MAX,
        ensures
            opt_model(r) == date_at(self@.anchor() - 604800),
            r is Some <==> self@.anchor() >= 604800,
    {
        proof {
            use_type_invariant(self);
            crate::model::lemma_anchor_nonneg(self@);
        }
        Self::from_anchor(self.as_anchor() - SECS_IN_WEEK)
    }

    /// The same time seven days later.
    pub fn next_week(&self) -> (r: Option<Self>)
        requires
            self@.anchor() + 604800 <= i64::MAX,
        ensures
            opt_model(r) == date_at(self@.anchor() + 604800),
            r is Some,
    {
        proof {
            use_type_invariant(self);
            crate::model::lemma_anchor_nonneg(self@);
        }
        Self::from_anchor(self.as_anchor() + SECS_IN_WEEK)
    }

    /// The same day and time of the previous month, the day lowered to the
    /// last day of that month where it is shorter; `None` before 1970.
    pub fn prev_month(&self) -> (r: Option<Self>)
        ensures
            opt_model(r) == prev_month_of(self@),
    {
        proof {
            use_type_invariant(self);
        }
        if self.month == 1 {
            return Self::new(self.year - 1, 12, self.day, self.hour, self.minute, self.second);
        }
        let mut offset: i64 = 0;
        while offset < 4
            invariant
                0 <= offset <= 4,
                2 <= self.month <= 12,
                1 <= self.day <= 31,
                offset == 0 || self.day - offset >= days_in_month(self.month - 1, self.year as int),
                self@.valid(),
            decreases 4 - offset,
        {
            let out = Self::new(
                self.year,
                self.month - 1,
                self.day - offset,
                self.hour,
                self.minute,
                self.second,
            );
            if out.is_some() {
                assert(self.day - offset <= days_in_month(self.month - 1, self.year as int));
                return out;
            }
            offset += 1;
        }
        proof {
            assert(self.day - 4 >= days_in_month(self.month - 1, self.year as int));
        }
        None
    }
}

impl DateTime {
    /// The same day and time of the next month, the day lowered to the last
    /// day of that month where it is shorter.
    pub fn next_month(&self) -> (r: Option<Self>)
        requires
            self@.month == 12 ==> self@.year < i64::MAX,
        ensures
            opt_model(r) == Some(next_month_of(self@)),
    {
        proof {
            use_type_invariant(self);
        }
        if self.month == 12 {
            return Self::new(self.year + 1, 1, self.day, self.hour, self.minute, self.second);
        }
        let mut offset: i64 = 0;
        while offset < 4
            invariant
                0 <= offset <= 4,
                1 <= self.month <= 11,
                1 <= self.day <= 31,
                offset == 0 || self.day - offset >= days_in_month(self.month + 1, self.year as int),
                self@.valid(),
            decreases 4 - offset,
        {
            let out = Self::new(
                self.year,
                self.month + 1,
                self.day - offset,
                self.hour,
                self.minute,
                self.second,
            );
            if out.is_some() {
                assert(self.day - offset <= days_in_month(self.month + 1, self.year as int));
                return out;
            }
            offset += 1;
        }
        proof {
            assert(self.day - 4 >= days_in_month(self.month + 1, self.year as int));
        }
        None
    }

    /// The same day and time one year earlier (29 February becomes
    /// 28 February); `None` before 1970.
    pub fn prev_year(&self) -> (r: Option<Self>)
        ensures
            opt_model(r) == in_other_year(self@, self@.year - 1),
    {
        proof {
            use_type_invariant(self);
        }
        let out = Self::new(self.year - 1, self.month, self.day, self.hour, self.minute, self.second);
        if out.is_some() {
            out
        } else {
            Self::new(self.year - 1, self.month, self.day - 1, self.hour, self.minute, self.second)
        }
    }

    /// The same day and time one year later (29 February becomes
    /// 28 February).
    pub fn next_year(&self) -> (r: Option<Self>)
        requires
            self@.year < i64::MAX,
        ensures
            opt_model(r) == in_other_year(self@, self@.year + 1),
            r is Some,
    {
        proof {
            use_type_invariant(self);
        }
        let out = Self::new(self.year + 1, self.month, self.day, self.hour, self.minute, self.second);
        if out.is_some() {
            out
        } else {
            Self::new(self.year + 1, self.month, self.day - 1, self.hour, self.minute, self.second)
        }
    }

    /// Quarter of the year, 1 to 4.
    pub fn quarter(&self) -> (r: i64)
        ensures
            r == 1 + (self@.month - 1) / 3,
            1 <= r <= 4,
    {
        proof {
            use_type_invariant(self);
        }
        1 + (self.month - 1) / 3
    }

    /// Half of the year, 1 or 2.
    pub fn semester(&self) -> (r: i64)
        ensures
            r == (if self@.month > 6 {
                2int
            } else {
                1int
            }),
    {
        1 + if self.month > 6 {
            1
        } else {
            0
        }
    }

    /// The first day of the month, at the same time.
    pub fn start_of_month(&self) -> (r: Option<Self>)
        ensures
            opt_model(r) == Some(self@.with_date(self@.year, self@.month, 1)),
    {
        proof {
            use_type_invariant(self);
        }
        Self::new(self.year, self.month, 1, self.hour, self.minute, self.second)
    }

    /// The last day of the month, at the same time.
    pub fn end_of_month(&self) -> (r: Option<Self>)
        ensures
            opt_model(r) == Some(
                self@.with_date(self@.year, self@.month, days_in_month(self@.month, self@.year)),
            ),
    {
        proof {
            use_type_invariant(self);
        }
        let mut day: i64 = 31;
        while day >= 28
            invariant
                27 <= day <= 31,
                day >= days_in_month(self.month as int, self.year as int),
                self@.valid(),
            decreases day,
        {
            let out = Self::new(self.year, self.month, day, self.hour, self.minute, self.second);
            if out.is_some() {
                return out;
            }
            day -= 1;
        }
        None
    }

    /// The first day of the year, at the same time.
    pub fn start_of_year(&self) -> (r: Option<Self>)
        ensures
            opt_model(r) == Some(self@.with_date(self@.year, 1, 1)),
    {
        proof {
            use_type_invariant(self);
        }
        Self::new(self.year, 1, 1, self.hour, self.minute, self.second)
    }

    /// The last day of the year, at the same time.
    pub fn end_of_year(&self) -> (r: Option<Self>)
        ensures
            opt_model(r) == Some(self@.with_date(self@.year, 12, 31)),
    {
        proof {
            use_type_invariant(self);
        }
        Self::new(self.year, 12, 31, self.hour, self.minute, self.second)
    }

    /// The Monday of the same week, at the same time; `None` where that is
    /// before 1970.
    pub fn start_of_week(&self) -> (r: Option<Self>)
        requires
            self@.anchor() <= i64::MAX,
        ensures
            opt_model(r) == date_at(self@.anchor() - 86400 * self@.weekday()),
            r is Some <==> self@.anchor() >= 86400 * self@.weekday(),
    {
        proof {
            use_type_invariant(self);
            crate::model::lemma_anchor_nonneg(self@);
        }
        Self::from_anchor(self.as_anchor() - SECS_IN_DAY * self.weekday())
    }

    /// The Sunday of the same week, at the same time.
    pub fn end_of_week(&self) -> (r: Option<Self>)
        requires
            self@.anchor() + 86400 * (6 - self@.weekday()) <= i64::MAX,
        ensures
            opt_model(r) == date_at(self@.anchor() + 86400 * (6 - self@.weekday())),
            r is Some,
    {
        proof {
            use_type_invariant(self);
            crate::model::lemma_anchor_nonneg(self@);
        }
        Self::from_anchor(self.as_anchor() + SECS_IN_DAY * (DAYS_IN_WEEK - 1 - self.weekday()))
    }
}
impl DateTime {
    /// The date as "YYYY-MM-DD".
    pub fn str_date(&self) -> (r: String)
        ensures
            r@ == date_text(self@.year as nat, self@.month as nat, self@.day as nat),
    {
        proof {
            use_type_invariant(self);
        }
        let mut s = String::new();
        push_decimal(&mut s, self.year() as u64);
        proof {
            reveal_strlit("-");
        }
        push_text(&mut s, "-");
        let m = fmt_int(self.month());
        push_text(&mut s, m.as_str());
        push_text(&mut s, "-");
        let d = fmt_int(self.day());
        push_text(&mut s, d.as_str());
        s
    }

    /// The date and time as "YYYY-MM-DD hh:mm:ss".
    pub fn str_full(&self) -> (r: String)
        ensures
            r@ == full_text(
                self@.year as nat,
                self@.month as nat,
                self@.day as nat,
                self@.hour as nat,
                self@.minute as nat,
                self@.second as nat,
            ),
    {
        proof {
            use_type_invariant(self);
        }
        let mut s = self.str_date();
        proof {
            reveal_strlit(" ");
            reveal_strlit(":");
        }
        push_text(&mut s, " ");
        let h = fmt_int(self.hour());
        push_text(&mut s, h.as_str());
        push_text(&mut s, ":");
        let m = fmt_int(self.minute());
        push_text(&mut s, m.as_str());
        push_text(&mut s, ":");
        let sec = fmt_int(self.second());
        push_text(&mut s, sec.as_str());
        s
    }
}

} // verus!
