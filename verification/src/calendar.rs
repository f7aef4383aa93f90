//! The proleptic Gregorian calendar, counted in days from 1970-01-01.

use vstd::prelude::*;

verus! {

/// A year divisible by 4 is a leap year, unless it is divisible by 100 and
/// not by 400.
pub open spec fn is_leap_year(y: int) -> bool {
    y % 4 == 0 && (y % 100 != 0 || y % 400 == 0)
}

/// The length of year `y` in days.
pub open spec fn days_in_year(y: int) -> int {
    if is_leap_year(y) {
        366
    } else {
        365
    }
}

/// The length of month `m` (1 to 12) of year `y`.
pub open spec fn days_in_month(y: int, m: int) -> int {
    if m == 2 {
        if is_leap_year(y) {
            29
        } else {
            28
        }
    } else if m == 4 || m == 6 || m == 9 || m == 11 {
        30
    } else {
        31
    }
}

/// The days from 1970-01-01 to the first day of year `y`.
pub open spec fn days_before_year(y: int) -> int
    decreases y - 1970,
{
    if y <= 1970 {
        0
    } else {
        days_before_year(y - 1) + days_in_year(y - 1)
    }
}

/// The days from the first day of year `y` to the first day of its month `m`.
pub open spec fn days_before_month(y: int, m: int) -> int
    decreases m,
{
    if m <= 1 {
        0
    } else {
        days_before_month(y, m - 1) + days_in_month(y, m - 1)
    }
}

/// A calendar date as a mathematical value.
pub ghost struct CivilDate {
    pub year: int,
    pub month: int,
    pub day: int,
}

impl CivilDate {
    /// A day that exists, in 1970 or later.
    pub open spec fn valid(self) -> bool {
        &&& self.year >= 1970
        &&& 1 <= self.month <= 12
        &&& 1 <= self.day <= days_in_month(self.year, self.month)
    }

    /// The days from 1970-01-01 to this date.
    pub open spec fn day_number(self) -> int {
        days_before_year(self.year) + days_before_month(self.year, self.month) + self.day - 1
    }

    /// Earlier in the calendar: by year, then month, then day.
    pub open spec fn precedes(self, other: CivilDate) -> bool {
        ||| self.year < other.year
        ||| self.year == other.year && self.month < other.month
        ||| self.year == other.year && self.month == other.month && self.day < other.day
    }
}

/// The date that lies `n` days after 1970-01-01.
pub open spec fn date_of_day(n: int) -> CivilDate {
    choose|d: CivilDate| d.valid() && d.day_number() == n
}

/// A calendar date.
#[derive(Clone, Copy, Debug, PartialEq, Eq, Structural)]
pub struct Date {
    pub year: u64,
    pub month: u64,
    pub day: u64,
}

impl View for Date {
    type V = CivilDate;

    open spec fn view(&self) -> CivilDate {
        CivilDate { year: self.year as int, month: self.month as int, day: self.day as int }
    }
}

/// Whether `y` is a leap year.
pub fn leap_year(y: u64) -> (b: bool)
    ensures
        b == is_leap_year(y as int),
{
    y % 4 == 0 && (y % 100 != 0 || y % 400 == 0)
}

/// The length of month `m` (1 to 12) of year `y` in days.
pub fn month_length(y: u64, m: u64) -> (n: u64)
    ensures
        n == days_in_month(y as int, m as int),
{
    if m == 2 {
        if leap_year(y) {
            29
        } else {
            28
        }
    } else if m == 4 || m == 6 || m == 9 || m == 11 {
        30
    } else {
        31
    }
}

/// A year has at least 365 days, so `y` lies at least `365 * (y - 1970)` days on.
pub proof fn lemma_days_before_year_bounds(y: int)
    requires
        y >= 1970,
    ensures
        365 * (y - 1970) <= days_before_year(y) <= 366 * (y - 1970),
    decreases y - 1970,
{
    if y > 1970 {
        lemma_days_before_year_bounds(y - 1);
    }
}

/// The twelve months of a year make up the year.
pub proof fn lemma_months_fill_year(y: int)
    ensures
        days_before_month(y, 13) == days_in_year(y),
{
    reveal_with_fuel(days_before_month, 14);
}

/// The leap years among the years 1 to `y`.
pub open spec fn leap_years_through(y: int) -> int {
    y / 4 - y / 100 + y / 400
}

/// Counting through one more year adds one exactly when that year is a leap year.
pub proof fn lemma_leap_years_step(y: int)
    requires
        y >= 1,
    ensures
        leap_years_through(y) == leap_years_through(y - 1) + if is_leap_year(y) {
            1int
        } else {
            0int
        },
{
    assert(y / 4 == (y - 1) / 4 + if y % 4 == 0 { 1int } else { 0int });
    assert(y / 100 == (y - 1) / 100 + if y % 100 == 0 { 1int } else { 0int });
    assert(y / 400 == (y - 1) / 400 + if y % 400 == 0 { 1int } else { 0int });
    assert(y % 400 == 0 ==> y % 100 == 0) by {
        if y % 400 == 0 {
            assert(y == 100 * (4 * (y / 400)));
        }
    }
    assert(y % 100 == 0 ==> y % 4 == 0) by {
        if y % 100 == 0 {
            assert(y == 4 * (25 * (y / 100)));
        }
    }
}

/// The days before a year, without counting year by year.
pub proof fn lemma_days_before_year_closed(y: int)
    requires
        y >= 1970,
    ensures
        days_before_year(y) == 365 * (y - 1970) + leap_years_through(y - 1) - 477,
    decreases y - 1970,
{
    if y > 1970 {
        lemma_days_before_year_closed(y - 1);
        lemma_leap_years_step(y - 1);
    }
}

/// Four hundred years hold 146097 days.
pub proof fn lemma_days_before_cycle(q: int)
    requires
        q >= 0,
    ensures
        days_before_year(1970 + 400 * q) == 146097 * q,
{
    lemma_days_before_year_closed(1970 + 400 * q);
}

/// A later year starts after an earlier one has ended.
pub proof fn lemma_years_in_order(y1: int, y2: int)
    requires
        1970 <= y1 < y2,
    ensures
        days_before_year(y1) + days_in_year(y1) <= days_before_year(y2),
    decreases y2 - y1,
{
    if y1 + 1 < y2 {
        lemma_years_in_order(y1, y2 - 1);
    }
}

/// A later month starts after an earlier one has ended.
pub proof fn lemma_months_in_order(y: int, m1: int, m2: int)
    requires
        1 <= m1 < m2,
    ensures
        days_before_month(y, m1) + days_in_month(y, m1) <= days_before_month(y, m2),
        0 <= days_before_month(y, m1),
    decreases m2,
{
    if m1 + 1 < m2 {
        lemma_months_in_order(y, m1, m2 - 1);
    } else if m1 > 1 {
        lemma_months_in_order(y, m1 - 1, m1);
    }
}

/// A date lies within its year.
pub proof fn lemma_day_within_year(d: CivilDate)
    requires
        d.valid(),
    ensures
        0 <= d.day_number() - days_before_year(d.year) < days_in_year(d.year),
{
    lemma_months_in_order(d.year, d.month, 13);
    lemma_months_fill_year(d.year);
}

/// The day number grows with the date: an earlier date has a smaller one.
pub proof fn lemma_day_number_increasing(a: CivilDate, b: CivilDate)
    requires
        a.valid(),
        b.valid(),
        a.precedes(b),
    ensures
        a.day_number() < b.day_number(),
{
    lemma_day_within_year(a);
    lemma_day_within_year(b);
    if a.year < b.year {
        lemma_years_in_order(a.year, b.year);
    } else if a.month < b.month {
        lemma_months_in_order(a.year, a.month, b.month);
    }
}

/// No two dates share a day number, so a valid date is the date of its day.
pub proof fn lemma_date_of_day(d: CivilDate)
    requires
        d.valid(),
    ensures
        date_of_day(d.day_number()) == d,
{
    let e = date_of_day(d.day_number());
    assert(e.valid() && e.day_number() == d.day_number());
    if e.precedes(d) {
        lemma_day_number_increasing(e, d);
    }
    if d.precedes(e) {
        lemma_day_number_increasing(d, e);
    }
}

/// The date of the day `days` after 1970-01-01.
pub fn civil_from_days(days: u64) -> (date: Date)
    ensures
        date@ == date_of_day(days as int),
        date@.valid(),
        date@.day_number() == days,
{
    let cycles: u64 = days / 146097;
    let mut year: u64 = 1970 + 400 * cycles;
    let mut left: u64 = days % 146097;
    proof {
        lemma_days_before_cycle(cycles as int);
    }
    loop
        invariant
            year >= 1970,
            left <= days,
            days_before_year(year as int) + left == days,
        ensures
            year >= 1970,
            left <= days,
            days_before_year(year as int) + left == days,
            left < days_in_year(year as int),
        decreases left,
    {
        let length: u64 = if leap_year(year) {
            366
        } else {
            365
        };
        if left < length {
            break;
        }
        proof {
            lemma_days_before_year_bounds(year as int);
        }
        left -= length;
        year += 1;
    }
    let mut month: u64 = 1;
    while left >= month_length(year, month)
        invariant
            1 <= month <= 12,
            days_before_year(year as int) + days_before_month(year as int, month as int) + left
                == days,
            days_before_month(year as int, month as int) + left < days_in_year(year as int),
        decreases 12 - month,
    {
        proof {
            lemma_months_fill_year(year as int);
            reveal_with_fuel(days_before_month, 2);
        }
        left -= month_length(year, month);
        month += 1;
    }
    let date = Date { year, month, day: left + 1 };
    proof {
        lemma_date_of_day(date@);
    }
    date
}

/// The day after `d`.
pub open spec fn next_day(d: CivilDate) -> CivilDate {
    if d.day < days_in_month(d.year, d.month) {
        CivilDate { year: d.year, month: d.month, day: d.day + 1 }
    } else if d.month < 12 {
        CivilDate { year: d.year, month: d.month + 1, day: 1 }
    } else {
        CivilDate { year: d.year + 1, month: 1, day: 1 }
    }
}

/// The day after a date is a date, one day on.
pub proof fn lemma_next_day(d: CivilDate)
    requires
        d.valid(),
    ensures
        next_day(d).valid(),
        next_day(d).day_number() == d.day_number() + 1,
{
    reveal_with_fuel(days_before_month, 2);
    if d.day == days_in_month(d.year, d.month) && d.month == 12 {
        lemma_months_fill_year(d.year);
    }
}

/// Every day from 1970-01-01 on has its date.
pub proof fn lemma_date_exists(n: nat)
    ensures
        date_of_day(n as int).valid(),
        date_of_day(n as int).day_number() == n,
    decreases n,
{
    if n == 0 {
        let first = CivilDate { year: 1970, month: 1, day: 1 };
        assert(first.valid() && first.day_number() == 0) by {
            reveal_with_fuel(days_before_month, 2);
        }
    } else {
        lemma_date_exists((n - 1) as nat);
        let next = next_day(date_of_day(n - 1));
        lemma_next_day(date_of_day(n - 1));
        assert(next.valid() && next.day_number() == n);
    }
}

/// Dates follow one another as their days do.
pub proof fn lemma_dates_in_order(n1: nat, n2: nat)
    ensures
        date_of_day(n1 as int).precedes(date_of_day(n2 as int)) <==> n1 < n2,
        date_of_day(n1 as int) == date_of_day(n2 as int) <==> n1 == n2,
{
    let a = date_of_day(n1 as int);
    let b = date_of_day(n2 as int);
    lemma_date_exists(n1);
    lemma_date_exists(n2);
    if a.precedes(b) {
        lemma_day_number_increasing(a, b);
    }
    if b.precedes(a) {
        lemma_day_number_increasing(b, a);
    }
}

/// The days before 10000-01-01 lie in years of four digits.
pub proof fn lemma_year_has_four_digits(n: nat)
    requires
        n < 2932897,
    ensures
        1970 <= date_of_day(n as int).year <= 9999,
{
    let d = date_of_day(n as int);
    lemma_date_exists(n);
    lemma_day_within_year(d);
    lemma_days_before_year_closed(10000);
    if d.year > 10000 {
        lemma_years_in_order(10000, d.year);
    }
}

} // verus!
