//! Intervals of time.

use vstd::prelude::*;

verus! {

/// Every interval can be represented by a `IntervalUnit`.
/// Note that the difference between Interval and Instant.
/// For example, `5 yrs 1 month 25 days 23:22:57` is a interval (Can be interpreted by Interval Unit
/// with month = 61, days = 25, seconds = (57 + 23 * 3600 + 22 * 60) * 1000),
/// `1970-01-01 04:05:06` is a Instant or Timestamp
/// One month may contain 28/31 days. One day may contain 23/25 hours.
/// This internals is learned from PG:
/// <https://www.postgresql.org/docs/9.1/datatype-datetime.html#:~:text=field%20is%20negative.-,Internally,-interval%20values%20are>
#[derive(Clone, Copy, Debug, PartialEq, Eq, PartialOrd, Ord, Hash, Default, Structural)]
pub struct IntervalUnit {
    months: i32,
    days: i32,
    ms: i64,
}

/// An interval by its parts.
pub struct IntervalView {
    pub months: int,
    pub days: int,
    pub ms: int,
}

impl View for IntervalUnit {
    type V = IntervalView;

    closed spec fn view(&self) -> IntervalView {
        IntervalView { months: self.months as int, days: self.days as int, ms: self.ms as int }
    }
}

/// The quotient of a division that drops the fraction.
pub open spec fn truncated_quotient(a: int, b: int) -> int {
    if a >= 0 {
        a / b
    } else {
        -((-a) / b)
    }
}

/// The interval turned around.
pub open spec fn turned_around(v: IntervalView) -> IntervalView {
    IntervalView { months: -v.months, days: -v.days, ms: -v.ms }
}

/// An interval that is turned around twice is as it was.
pub proof fn law_negative_twice(v: IntervalView)
    ensures
        turned_around(turned_around(v)) == v,
{
}

/// Whole years and months of one sign, put together, give the years back.
pub proof fn law_years_of_ymd(years: int, months: int)
    requires
        (years >= 0 && 0 <= months < 12) || (years <= 0 && -12 < months <= 0),
    ensures
        truncated_quotient(years * 12 + months, 12) == years,
{
}

impl IntervalUnit {
    /// An interval of the given parts.
    pub fn new(months: i32, days: i32, ms: i64) -> (r: IntervalUnit)
        ensures
            r@ == (IntervalView { months: months as int, days: days as int, ms: ms as int }),
    {
        IntervalUnit { months, days, ms }
    }

    /// The days of the interval.
    pub fn get_days(&self) -> (r: i32)
        ensures
            r == self@.days,
    {
        self.days
    }

    /// The months of the interval.
    pub fn get_months(&self) -> (r: i32)
        ensures
            r == self@.months,
    {
        self.months
    }

    /// The whole years among the months of the interval.
    pub fn get_years(&self) -> (r: i32)
        ensures
            r == truncated_quotient(self@.months, 12),
    {
        if self.months >= 0 {
            self.months / 12
        } else {
            let months: i64 = -(self.months as i64);
            (-(months / 12)) as i32
        }
    }

    /// The milliseconds of the interval.
    pub fn get_ms(&self) -> (r: i64)
        ensures
            r == self@.ms,
    {
        self.ms
    }

    /// The interval turned around.
    #[must_use]
    pub fn negative(&self) -> (r: IntervalUnit)
        requires
            self@.months > i32::MIN,
            self@.days > i32::MIN,
            self@.ms > i64::MIN,
        ensures
            r@ == turned_around(self@),
    {
        IntervalUnit { months: -self.months, days: -self.days, ms: -self.ms }
    }

    /// An interval of years, months and days.
    #[must_use]
    pub fn from_ymd(year: i32, month: i32, days: i32) -> (r: IntervalUnit)
        requires
            i32::MIN <= year * 12 <= i32::MAX,
            i32::MIN <= year * 12 + month <= i32::MAX,
        ensures
            r@ == (IntervalView { months: year * 12 + month, days: days as int, ms: 0 }),
    {
        let months: i32 = year * 12 + month;
        IntervalUnit { months, days, ms: 0 }
    }

    /// An interval of months.
    #[must_use]
    pub fn from_month(months: i32) -> (r: IntervalUnit)
        ensures
            r@ == (IntervalView { months: months as int, days: 0, ms: 0 }),
    {
        IntervalUnit { months, days: 0, ms: 0 }
    }

    /// An interval of milliseconds.
    #[must_use]
    pub fn from_millis(ms: i64) -> (r: IntervalUnit)
        ensures
            r@ == (IntervalView { months: 0, days: 0, ms: ms as int }),
    {
        IntervalUnit { months: 0, days: 0, ms }
    }
}

/// An interval and the one that is turned around cancel each other.
pub proof fn law_negative_cancels(v: IntervalView)
    ensures
        turned_around(v).months + v.months == 0,
        turned_around(v).days + v.days == 0,
        turned_around(v).ms + v.ms == 0,
{
}

/// The whole years of an interval leave fewer months than a year has, of the same sign.
pub proof fn law_years_leave_less_than_a_year(months: int)
    ensures
        months >= 0 ==> 0 <= months - 12 * truncated_quotient(months, 12) < 12,
        months <= 0 ==> -12 < months - 12 * truncated_quotient(months, 12) <= 0,
{
}

} // verus!
