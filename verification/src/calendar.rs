//! The proleptic Gregorian calendar counted in days from 1970-01-01: the
//! date of a day number and the day number of a date.

use vstd::prelude::*;

verus! {

/// Whether `y` is a leap year.
pub open spec fn is_leap_year(y: int) -> bool {
    (y % 4 == 0 && y % 100 != 0) || y % 400 == 0
}

/// The number of days of year `y`.
pub open spec fn days_in_year(y: int) -> int {
    if is_leap_year(y) {
        366
    } else {
        365
    }
}

/// The number of days of month `m` (1 to 12) of year `y`.
pub open spec fn days_in_month(y: int, m: int) -> int {
    if m == 2 {
        if is_leap_year(y) {
            29
        } else {
            28
        }
    } else if m == 4 || m == 6 || m == 9 || m == 11 {
        30
    } else {
        31
    }
}

/// `(y, m, d)` is a date of the calendar.
pub open spec fn is_valid_date(y: int, m: int, d: int) -> bool {
    1 <= m <= 12 && 1 <= d <= days_in_month(y, m)
}

/// The days of year `y` before the first of month `m`.
pub open spec fn days_before_month(y: int, m: int) -> int
    decreases m,
{
    if m <= 1 {
        0
    } else {
        days_before_month(y, m - 1) + days_in_month(y, m - 1)
    }
}

/// The day number of the first of January of year `y`.
pub open spec fn year_start(y: int) -> int
    decreases (if y >= 1970 { y - 1970 } else { 1970 - y }),
{
    if y == 1970 {
        0
    } else if y > 1970 {
        year_start(y - 1) + days_in_year(y - 1)
    } else {
        year_start(y + 1) - days_in_year(y)
    }
}

/// The day number of the date `(y, m, d)`.
pub open spec fn day_number(y: int, m: int, d: int) -> int {
    year_start(y) + days_before_month(y, m) + d - 1
}

/// The month and day of the `z`-th day (from 0) after the first of month `m` of year `y`.
pub open spec fn month_day_from(y: int, m: int, z: int) -> (int, int)
    decreases 12 - m,
{
    if m >= 12 || z < days_in_month(y, m) {
        (m, z + 1)
    } else {
        month_day_from(y, m + 1, z - days_in_month(y, m))
    }
}

/// The date of the `z`-th day (from 0) after the first of January of year `y`.
pub open spec fn date_after(y: int, z: int) -> (int, int, int)
    decreases z,
{
    if z < 0 || z < days_in_year(y) {
        let md = month_day_from(y, 1, z);
        (y, md.0, md.1)
    } else {
        date_after(y + 1, z - days_in_year(y))
    }
}

/// The date of the day `-z` days before the first of January of year `y`.
pub open spec fn date_before(y: int, z: int) -> (int, int, int)
    decreases z,
{
    if z <= 0 || z <= days_in_year(y - 1) {
        let md = month_day_from(y - 1, 1, days_in_year(y - 1) - z);
        (y - 1, md.0, md.1)
    } else {
        date_before(y - 1, z - days_in_year(y - 1))
    }
}

/// The date of day number `day`.
pub open spec fn civil_from_day(day: int) -> (int, int, int) {
    if day >= 0 {
        date_after(1970, day)
    } else {
        date_before(1970, -day)
    }
}

/// The days before December are those of the year but December's.
proof fn lemma_days_before_december(y: int)
    ensures
        days_before_month(y, 12) + 31 == days_in_year(y),
{
    reveal_with_fuel(days_before_month, 13);
}

/// The months searched from `m` on find the month and day of the `z`-th day
/// after the first of month `m`, while that day lies in the year.
proof fn lemma_month_day_from(y: int, m: int, z: int)
    requires
        1 <= m <= 12,
        0 <= z,
        days_before_month(y, m) + z < days_in_year(y),
    ensures
        ({
            let md = month_day_from(y, m, z);
            &&& is_valid_date(y, md.0, md.1)
            &&& days_before_month(y, md.0) + md.1 - 1 == days_before_month(y, m) + z
        }),
    decreases 12 - m,
{
    lemma_days_before_december(y);
    if m < 12 && z >= days_in_month(y, m) {
        lemma_month_day_from(y, m + 1, z - days_in_month(y, m));
    }
}

/// A year begins right after the one before it ends.
proof fn lemma_year_start_step(y: int)
    ensures
        year_start(y + 1) == year_start(y) + days_in_year(y),
{
}

/// The date of the `z`-th day after the first of January of year `y` is a
/// date of that year or a later one, and its day number is `z` days after
/// that first of January.
proof fn lemma_date_after(y: int, z: int)
    requires
        0 <= z,
    ensures
        ({
            let t = date_after(y, z);
            &&& is_valid_date(t.0, t.1, t.2)
            &&& day_number(t.0, t.1, t.2) == year_start(y) + z
            &&& t.0 >= y
        }),
    decreases z,
{
    if z < days_in_year(y) {
        lemma_month_day_from(y, 1, z);
    } else {
        lemma_date_after(y + 1, z - days_in_year(y));
        lemma_year_start_step(y);
    }
}

/// The number of leap years from year 1 to year `n`.
pub open spec fn leap_years_through(n: int) -> int {
    n / 4 - n / 100 + n / 400
}

/// From 1970 on, the first of January of year `y` is numbered by counting
/// 365 days a year and one more for each leap year.
proof fn lemma_year_start_closed(y: int)
    requires
        y >= 1970,
    ensures
        year_start(y) == 365 * (y - 1970) + leap_years_through(y - 1) - leap_years_through(1969),
    decreases y - 1970,
{
    if y > 1970 {
        lemma_year_start_closed(y - 1);
        let n = y - 1;
        assert(leap_years_through(n) - leap_years_through(n - 1) == if is_leap_year(n) {
            1int
        } else {
            0int
        }) by {
            assert(n / 4 - (n - 1) / 4 == if n % 4 == 0 { 1int } else { 0int });
            assert(n / 100 - (n - 1) / 100 == if n % 100 == 0 { 1int } else { 0int });
            assert(n / 400 - (n - 1) / 400 == if n % 400 == 0 { 1int } else { 0int });
            assert(n % 400 == 0 ==> n % 100 == 0 && n % 4 == 0);
            assert(n % 100 == 0 ==> n % 4 == 0);
        }
    }
}

/// Later years begin on later days.
proof fn lemma_year_start_monotone(a: int, b: int)
    requires
        a <= b,
    ensures
        year_start(a) <= year_start(b),
    decreases b - a,
{
    if a < b {
        lemma_year_start_monotone(a, b - 1);
        lemma_year_start_step(b - 1);
    }
}

/// The first of January of the year 10000 is day 2932897.
proof fn lemma_year_ten_thousand()
    ensures
        year_start(10000) == 2932897,
{
    lemma_year_start_closed(10000);
}

/// Every day number from 1970-01-01 to 9999-12-31 has a date from 1970 to
/// 9999, and that date's day number is the day number itself: the date
/// names the day exactly.
pub proof fn lemma_civil_from_day(day: int)
    requires
        0 <= day < 2932897,
    ensures
        ({
            let t = civil_from_day(day);
            &&& is_valid_date(t.0, t.1, t.2)
            &&& 1970 <= t.0 <= 9999
            &&& day_number(t.0, t.1, t.2) == day
        }),
{
    lemma_date_after(1970, day);
    let t = civil_from_day(day);
    if t.0 >= 10000 {
        lemma_year_start_monotone(10000, t.0);
        lemma_year_ten_thousand();
        assert(days_before_month(t.0, t.1) >= 0) by {
            lemma_days_before_month_nonneg(t.0, t.1);
        }
    }
}

/// No month starts before its year.
proof fn lemma_days_before_month_nonneg(y: int, m: int)
    ensures
        days_before_month(y, m) >= 0,
    decreases m,
{
    if m > 1 {
        lemma_days_before_month_nonneg(y, m - 1);
    }
}

} // verus!
