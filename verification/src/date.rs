//! Calendar dates of the proleptic Gregorian calendar, restricted to the years
//! 1 through 9999 so that every date has a fixed ten-character `YYYY-MM-DD`
//! text form.
//!
//! A date is modelled by its *day index*: day 1 is January 1 of year 1, which
//! is a Monday, and each later day adds one. The index orders dates, measures
//! distances, and settles the weekday.

use vstd::arithmetic::div_mod::{
    lemma_div_is_ordered_by_denominator, lemma_fundamental_div_mod,
    lemma_fundamental_div_mod_converse, lemma_mod_division_less_than_divisor,
    lemma_mod_multiples_basic,
};
use vstd::prelude::*;

verus! {

/// A calendar date. A value is meaningful only when `valid()` holds.
#[derive(Clone, Copy, Debug, PartialEq, Eq, Structural)]
pub struct Date {
    pub year: u32,
    pub month: u32,
    pub day: u32,
}

/// Leap years of the Gregorian calendar: every fourth year, except centuries
/// that are not multiples of 400.
pub open spec fn is_leap_year(year: int) -> bool {
    year % 4 == 0 && (year % 100 != 0 || year % 400 == 0)
}

/// How many days `month` has in `year`.
pub open spec fn days_in_month(year: int, month: int) -> int {
    if month == 2 {
        if is_leap_year(year) {
            29
        } else {
            28
        }
    } else if month == 4 || month == 6 || month == 9 || month == 11 {
        30
    } else {
        31
    }
}

/// How many of the years 1 through `y` are leap years.
pub open spec fn leap_years_through(y: int) -> int {
    y / 4 - y / 100 + y / 400
}

/// How many days lie in the years before `year`.
pub open spec fn days_before_year(year: int) -> int {
    365 * (year - 1) + leap_years_through(year - 1)
}

/// How many days of `year` lie in the months before `month`.
pub open spec fn days_before_month(year: int, month: int) -> int {
    let plain: int = if month <= 1 {
        0
    } else if month == 2 {
        31
    } else if month == 3 {
        59
    } else if month == 4 {
        90
    } else if month == 5 {
        120
    } else if month == 6 {
        151
    } else if month == 7 {
        181
    } else if month == 8 {
        212
    } else if month == 9 {
        243
    } else if month == 10 {
        273
    } else if month == 11 {
        304
    } else if month == 12 {
        334
    } else {
        365
    };
    if month >= 3 && is_leap_year(year) {
        plain + 1
    } else {
        plain
    }
}

/// The day index of the last representable date, December 31 of year 9999.
pub open spec fn last_day_index() -> int {
    3652059
}

impl Date {
    /// The date names an existing day and its year fits in four digits.
    pub open spec fn valid(self) -> bool {
        &&& 1 <= self.year <= 9999
        &&& 1 <= self.month <= 12
        &&& 1 <= self.day <= days_in_month(self.year as int, self.month as int)
    }

    /// Days from the calendar's start: January 1 of year 1 has index 1.
    pub open spec fn day_index(self) -> int {
        days_before_year(self.year as int) + days_before_month(
            self.year as int,
            self.month as int,
        ) + self.day as int
    }

    /// The following calendar day.
    pub open spec fn next(self) -> Date {
        if self.day < days_in_month(self.year as int, self.month as int) {
            Date { year: self.year, month: self.month, day: (self.day + 1) as u32 }
        } else if self.month < 12 {
            Date { year: self.year, month: (self.month + 1) as u32, day: 1 }
        } else {
            Date { year: (self.year + 1) as u32, month: 1, day: 1 }
        }
    }

    /// Day index 1 is a Monday; Saturdays and Sundays are the weekend.
    pub open spec fn is_weekend(self) -> bool {
        self.day_index() % 7 == 6 || self.day_index() % 7 == 0
    }

    /// The date when it names an existing day, or nothing.
    pub fn new(year: u32, month: u32, day: u32) -> (r: Option<Date>)
        ensures
            ({
                let d = Date { year, month, day };
                if d.valid() {
                    r == Some(d)
                } else {
                    r is None
                }
            }),
    {
        let d = Date { year, month, day };
        if 1 <= year && year <= 9999 && 1 <= month && month <= 12 && 1 <= day && day
            <= days_in_month_of(year, month) {
            Some(d)
        } else {
            None
        }
    }

    /// Executable counterpart of [`Self::day_index`].
    pub fn day_number(&self) -> (r: u32)
        requires
            self.valid(),
        ensures
            r == self.day_index(),
    {
        let y = self.year - 1;
        proof {
            lemma_div_is_ordered_by_denominator(y as int, 4, 100);
        }
        let leap_days = y / 4 - y / 100 + y / 400;
        365 * y + leap_days + days_before_month_of(self.year, self.month) + self.day
    }

    /// Executable counterpart of [`Self::next`].
    pub fn next_day(&self) -> (r: Date)
        requires
            self.valid(),
            self.day_index() < last_day_index(),
        ensures
            r == self.next(),
            r.valid(),
            r.day_index() == self.day_index() + 1,
    {
        proof {
            lemma_next_day_index(*self);
        }
        if self.day < days_in_month_of(self.year, self.month) {
            Date { year: self.year, month: self.month, day: self.day + 1 }
        } else if self.month < 12 {
            Date { year: self.year, month: self.month + 1, day: 1 }
        } else {
            Date { year: self.year + 1, month: 1, day: 1 }
        }
    }

    /// Executable counterpart of [`Self::is_weekend`].
    pub fn falls_on_weekend(&self) -> (r: bool)
        requires
            self.valid(),
        ensures
            r == self.is_weekend(),
    {
        let w = self.day_number() % 7;
        w == 6 || w == 0
    }
}

/// Executable counterpart of [`is_leap_year`].
pub fn leap_year(year: u32) -> (r: bool)
    ensures
        r == is_leap_year(year as int),
{
    (year % 4 == 0 && year % 100 != 0) || year % 400 == 0
}

/// Executable counterpart of [`days_in_month`].
pub fn days_in_month_of(year: u32, month: u32) -> (r: u32)
    ensures
        r == days_in_month(year as int, month as int),
{
    if month == 2 {
        if leap_year(year) {
            29
        } else {
            28
        }
    } else if month == 4 || month == 6 || month == 9 || month == 11 {
        30
    } else {
        31
    }
}

/// Executable counterpart of [`days_before_month`].
fn days_before_month_of(year: u32, month: u32) -> (r: u32)
    requires
        1 <= month <= 12,
    ensures
        r == days_before_month(year as int, month as int),
{
    let plain: u32 = if month <= 1 {
        0
    } else if month == 2 {
        31
    } else if month == 3 {
        59
    } else if month == 4 {
        90
    } else if month == 5 {
        120
    } else if month == 6 {
        151
    } else if month == 7 {
        181
    } else if month == 8 {
        212
    } else if month == 9 {
        243
    } else if month == 10 {
        273
    } else if month == 11 {
        304
    } else {
        334
    };
    if month >= 3 && leap_year(year) {
        plain + 1
    } else {
        plain
    }
}

/// Dividing by a positive constant steps by one exactly at the multiples.
proof fn lemma_div_step(x: int, k: int)
    requires
        x >= 1,
        k >= 2,
    ensures
        x / k == (x - 1) / k + (if x % k == 0 {
            1int
        } else {
            0int
        }),
{
    lemma_fundamental_div_mod(x, k);
    lemma_mod_division_less_than_divisor(x, k);
    if x % k == 0 {
        assert(x - 1 == (x / k - 1) * k + (k - 1)) by (nonlinear_arith)
            requires
                x == k * (x / k) + x % k,
                x % k == 0,
        ;
        lemma_fundamental_div_mod_converse(x - 1, k, x / k - 1, k - 1);
    } else {
        assert(x - 1 == (x / k) * k + (x % k - 1)) by (nonlinear_arith)
            requires
                x == k * (x / k) + x % k,
        ;
        lemma_fundamental_div_mod_converse(x - 1, k, x / k, x % k - 1);
    }
}

/// A multiple of 400 is a multiple of 100, and one of 100 a multiple of 4.
proof fn lemma_century_divisibility(x: int)
    requires
        x >= 0,
    ensures
        x % 400 == 0 ==> x % 100 == 0,
        x % 100 == 0 ==> x % 4 == 0,
{
    if x % 400 == 0 {
        lemma_fundamental_div_mod(x, 400);
        lemma_mod_multiples_basic(4 * (x / 400), 100);
        assert(x == (4 * (x / 400)) * 100);
    }
    if x % 100 == 0 {
        lemma_fundamental_div_mod(x, 100);
        lemma_mod_multiples_basic(25 * (x / 100), 4);
        assert(x == (25 * (x / 100)) * 4);
    }
}

/// Counting the leap years one year further adds one exactly for leap years.
proof fn lemma_leap_years_through_step(x: int)
    requires
        x >= 1,
    ensures
        leap_years_through(x) == leap_years_through(x - 1) + (if is_leap_year(x) {
            1int
        } else {
            0int
        }),
{
    lemma_div_step(x, 4);
    lemma_div_step(x, 100);
    lemma_div_step(x, 400);
    lemma_century_divisibility(x);
}

/// The leap-year count never decreases.
proof fn lemma_leap_years_through_mono(x1: int, x2: int)
    requires
        0 <= x1 <= x2,
    ensures
        leap_years_through(x1) <= leap_years_through(x2),
    decreases x2 - x1,
{
    if x1 < x2 {
        lemma_leap_years_through_step(x2);
        lemma_century_divisibility(x2);
        lemma_leap_years_through_mono(x1, x2 - 1);
    }
}

/// Moving to the next year adds that year's length in days.
proof fn lemma_days_before_year_step(y: int)
    requires
        y >= 1,
    ensures
        days_before_year(y + 1) == days_before_year(y) + 365 + (if is_leap_year(y) {
            1int
        } else {
            0int
        }),
{
    lemma_leap_years_through_step(y);
}

/// Later years begin no earlier, and a later year begins at least a year on.
proof fn lemma_days_before_year_mono(y1: int, y2: int)
    requires
        1 <= y1 <= y2,
    ensures
        days_before_year(y1) + 365 * (y2 - y1) <= days_before_year(y2),
{
    lemma_leap_years_through_mono(y1 - 1, y2 - 1);
}

/// Moving to the next month adds the month's length in days.
proof fn lemma_days_before_month_step(y: int, m: int)
    requires
        1 <= m <= 12,
    ensures
        days_before_month(y, m + 1) == days_before_month(y, m) + days_in_month(y, m),
{
}

/// Every day of a valid date falls within its year's length.
proof fn lemma_day_index_in_year(d: Date)
    requires
        d.valid(),
    ensures
        days_before_year(d.year as int) + 1 <= d.day_index(),
        d.day_index() <= days_before_year(d.year as int) + 365 + (if is_leap_year(
            d.year as int,
        ) {
            1int
        } else {
            0int
        }),
{
    lemma_days_before_month_step(d.year as int, d.month as int);
    assert(days_before_month(d.year as int, d.month as int + 1) <= 365 + (if is_leap_year(
        d.year as int,
    ) {
        1int
    } else {
        0int
    }));
}

/// No valid date lies past December 31 of year 9999.
pub proof fn lemma_day_index_le_last(d: Date)
    requires
        d.valid(),
    ensures
        1 <= d.day_index() <= last_day_index(),
{
    lemma_day_index_in_year(d);
    lemma_days_before_year_mono(d.year as int, 9999);
    assert(days_before_year(9999) == 3651694);
    assert(!is_leap_year(9999));
}

/// The successor of a valid date other than the last is valid and has the
/// next day index.
pub proof fn lemma_next_day_index(d: Date)
    requires
        d.valid(),
        d.day_index() < last_day_index(),
    ensures
        d.next().valid(),
        d.next().day_index() == d.day_index() + 1,
{
    let y = d.year as int;
    let m = d.month as int;
    if d.day < days_in_month(y, m) {
    } else if d.month < 12 {
        lemma_days_before_month_step(y, m);
    } else {
        if d.year == 9999 {
            lemma_day_index_le_last(d);
            assert(days_before_year(9999) == 3651694);
            assert(d.day_index() == last_day_index());
        }
        lemma_days_before_year_step(y);
    }
}

/// The day index grows strictly along the calendar order of the fields.
proof fn lemma_day_index_lt(a: Date, b: Date)
    requires
        a.valid(),
        b.valid(),
        a.year < b.year || (a.year == b.year && a.month < b.month) || (a.year == b.year && a.month
            == b.month && a.day < b.day),
    ensures
        a.day_index() < b.day_index(),
{
    if a.year < b.year {
        lemma_day_index_in_year(a);
        lemma_day_index_in_year(b);
        lemma_days_before_year_step(a.year as int);
        lemma_days_before_year_mono(a.year as int + 1, b.year as int);
    } else if a.month < b.month {
        lemma_days_before_month_step(a.year as int, a.month as int);
        lemma_days_before_month_mono(a.year as int, a.month as int + 1, b.month as int);
    }
}

/// Months that come later in the year begin no earlier.
proof fn lemma_days_before_month_mono(y: int, m1: int, m2: int)
    requires
        1 <= m1 <= m2 <= 13,
    ensures
        days_before_month(y, m1) <= days_before_month(y, m2),
    decreases m2 - m1,
{
    if m1 < m2 {
        lemma_days_before_month_step(y, m2 - 1);
        lemma_days_before_month_mono(y, m1, m2 - 1);
    }
}

/// Distinct valid dates have distinct day indices: the index is a faithful
/// picture of the calendar.
pub proof fn lemma_day_index_injective(a: Date, b: Date)
    requires
        a.valid(),
        b.valid(),
        a.day_index() == b.day_index(),
    ensures
        a == b,
{
    if a != b {
        if a.year < b.year || (a.year == b.year && a.month < b.month) || (a.year == b.year
            && a.month == b.month && a.day < b.day) {
            lemma_day_index_lt(a, b);
        } else {
            lemma_day_index_lt(b, a);
        }
    }
}

} // verus!
