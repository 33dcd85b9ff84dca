//! Dates of the Gregorian calendar, by the number of days since 1970-01-01.

use vstd::prelude::*;

verus! {

/// The year has a 29th of February.
pub open spec fn is_leap(year: int) -> bool {
    year % 4 == 0 && (year % 100 != 0 || year % 400 == 0)
}

/// How many leap years there are from year 1 to `year`.
pub open spec fn leaps_through(year: int) -> int {
    year / 4 - year / 100 + year / 400
}

/// How many days there are from 1970-01-01 to the first of `year`.
pub open spec fn days_before_year(year: int) -> int {
    365 * (year - 1970) + leaps_through(year - 1) - leaps_through(1969)
}

/// How many days of `year` there are before `month`.
pub open spec fn days_before_month(year: int, month: int) -> int {
    let leap = if is_leap(year) {
        1int
    } else {
        0int
    };
    if month == 1 {
        0
    } else if month == 2 {
        31
    } else if month == 3 {
        59 + leap
    } else if month == 4 {
        90 + leap
    } else if month == 5 {
        120 + leap
    } else if month == 6 {
        151 + leap
    } else if month == 7 {
        181 + leap
    } else if month == 8 {
        212 + leap
    } else if month == 9 {
        243 + leap
    } else if month == 10 {
        273 + leap
    } else if month == 11 {
        304 + leap
    } else if month == 12 {
        334 + leap
    } else {
        365 + leap
    }
}

/// How many days `month` of `year` has.
pub open spec fn month_days(year: int, month: int) -> int {
    days_before_month(year, month + 1) - days_before_month(year, month)
}

/// There is such a date.
pub open spec fn is_date(year: int, month: int, day: int) -> bool {
    1 <= month <= 12 && 1 <= day <= month_days(year, month)
}

/// The number of days from 1970-01-01 to the date.
pub open spec fn day_number(year: int, month: int, day: int) -> int {
    days_before_year(year) + days_before_month(year, month) + day - 1
}

/// The year of an era of 400 years, counted from the first of March of its
/// first year, that the era's day `doe` is in.
proof fn lemma_year_of_era(doe: int, yoe: int)
    requires
        0 <= doe < 146_097,
        yoe == (doe - doe / 1460 + doe / 36_524 - doe / 146_096) / 365,
    ensures
        0 <= yoe <= 399,
        365 * yoe + yoe / 4 - yoe / 100 <= doe,
        yoe < 399 ==> doe < 365 * (yoe + 1) + (yoe + 1) / 4 - (yoe + 1) / 100,
{
}

/// A year begun on the first of March has 366 days when it ends in a leap
/// year's February.
proof fn lemma_march_year(yoe: int)
    requires
        0 <= yoe <= 399,
    ensures
        365 * (yoe + 1) + (yoe + 1) / 4 - (yoe + 1) / 100 + (yoe + 1) / 400 == 365 * yoe + yoe / 4
            - yoe / 100 + 365 + if is_leap(yoe + 1) {
            1int
        } else {
            0int
        },
{
}

/// How many days of a year begun on the first of March there are before its
/// month `mp`.
spec fn days_before_mp(mp: int) -> int {
    (153 * mp + 2) / 5
}

/// The month, begun on the first of March, that day `doy` of the year is in.
proof fn lemma_month(doy: int, mp: int)
    requires
        0 <= doy <= 365,
        mp == (5 * doy + 2) / 153,
    ensures
        0 <= mp <= 11,
        days_before_mp(mp) <= doy,
        mp < 11 ==> doy < days_before_mp(mp + 1),
{
}

/// There are as many leap years in `400 * era` years more.
proof fn lemma_era(era: int, yoe: int)
    requires
        0 <= yoe <= 400,
    ensures
        leaps_through(400 * era + yoe) == 97 * era + leaps_through(yoe),
        is_leap(400 * era + yoe) == is_leap(yoe),
{
    let year = 400 * era + yoe;
    assert(year / 4 == 100 * era + yoe / 4);
    assert(year / 100 == 4 * era + yoe / 100);
    assert(year / 400 == era + yoe / 400);
    assert(year % 4 == yoe % 4);
    assert(year % 100 == yoe % 100);
    assert(year % 400 == yoe % 400);
}

proof fn lemma_date(era: int, yoe: int, doy: int, mp: int)
    requires
        0 <= yoe <= 399,
        0 <= doy <= 365,
        doy == 365 ==> is_leap(yoe + 1),
        mp == (5 * doy + 2) / 153,
    ensures
        ({
            let day = doy - days_before_mp(mp) + 1;
            let month = if mp < 10 {
                mp + 3
            } else {
                mp - 9
            };
            let year = yoe + era * 400 + if month <= 2 {
                1int
            } else {
                0int
            };
            &&& is_date(year, month, day)
            &&& day_number(year, month, day) == era * 146_097 + (365 * yoe + yoe / 4 - yoe / 100)
                + doy - 719_468
        }),
{
    lemma_month(doy, mp);
    lemma_era(era, yoe);
    lemma_era(era, yoe + 1);
    let day = doy - days_before_mp(mp) + 1;
    let month = if mp < 10 {
        mp + 3
    } else {
        mp - 9
    };
    let year = yoe + era * 400 + if month <= 2 {
        1int
    } else {
        0int
    };
    assert(leaps_through(1969) == 477);
    assert(yoe / 400 == 0);
    if month <= 2 {
        assert(leaps_through(year - 1) == 97 * era + leaps_through(yoe));
        assert(is_leap(year) == is_leap(yoe + 1));
    } else {
        assert(is_leap(year) == is_leap(yoe));
        assert(leaps_through(year) == 97 * era + leaps_through(yoe));
        assert(leaps_through(year - 1) == leaps_through(year) - if is_leap(year) {
            1int
        } else {
            0int
        }) by {
            lemma_leaps_step(year);
        }
    }
}

proof fn lemma_leaps_step(year: int)
    ensures
        leaps_through(year) == leaps_through(year - 1) + if is_leap(year) {
            1int
        } else {
            0int
        },
{
}

/// The whole part of `z / 146_097` and what is left, rounded down.
fn era_of(z: i64) -> (r: (i64, i64))
    requires
        z > i64::MIN + 146_097,
    ensures
        0 <= r.1 < 146_097,
        z == r.0 * 146_097 + r.1,
        -64_000_000_000_000 <= r.0 <= 64_000_000_000_000,
{
    if z >= 0 {
        (z / 146_097, z % 146_097)
    } else {
        let back: i64 = -(z + 1);
        let era: i64 = -(back / 146_097) - 1;
        (era, 146_096 - back % 146_097)
    }
}

/// The date of a day number since 1970-01-01.
pub fn civil_from_days(days: i64) -> (r: (i64, i64, i64))
    requires
        i64::MIN <= days <= i64::MAX - 719_468,
    ensures
        is_date(r.0 as int, r.1 as int, r.2 as int),
        day_number(r.0 as int, r.1 as int, r.2 as int) == days,
{
    let z: i64 = days + 719_468;
    let (era, day_of_era) = era_of(z);
    let year_of_era: i64 = (day_of_era - day_of_era / 1460 + day_of_era / 36_524 - day_of_era
        / 146_096) / 365;
    proof {
        lemma_year_of_era(day_of_era as int, year_of_era as int);
        lemma_march_year(year_of_era as int);
    }
    let day_of_year: i64 = day_of_era - (365 * year_of_era + year_of_era / 4 - year_of_era / 100);
    assert(0 <= day_of_year <= 365);
    assert(day_of_year == 365 ==> is_leap(year_of_era + 1));
    let mp: i64 = (5 * day_of_year + 2) / 153;
    proof {
        lemma_month(day_of_year as int, mp as int);
        lemma_date(era as int, year_of_era as int, day_of_year as int, mp as int);
    }
    let day: i64 = day_of_year - (153 * mp + 2) / 5 + 1;
    let month: i64 = if mp < 10 {
        mp + 3
    } else {
        mp - 9
    };
    let later: i64 = if month <= 2 {
        1
    } else {
        0
    };
    let year: i64 = year_of_era + era * 400 + later;
    (year, month, day)
}

/// No two dates have one day number: [`civil_from_days`] gives the only one.
pub proof fn law_a_day_has_one_date(
    year: int,
    month: int,
    day: int,
    other_year: int,
    other_month: int,
    other_day: int,
)
    requires
        is_date(year, month, day),
        is_date(other_year, other_month, other_day),
        day_number(year, month, day) == day_number(other_year, other_month, other_day),
    ensures
        year == other_year && month == other_month && day == other_day,
{
    lemma_within_year(year, month, day);
    lemma_within_year(other_year, other_month, other_day);
    if year < other_year {
        lemma_years_rise(year + 1, other_year);
    } else if other_year < year {
        lemma_years_rise(other_year + 1, year);
    } else if month < other_month {
        lemma_months_rise(year, month, other_month);
    } else if other_month < month {
        lemma_months_rise(year, other_month, month);
    }
}

proof fn lemma_within_year(year: int, month: int, day: int)
    requires
        is_date(year, month, day),
    ensures
        days_before_year(year) <= day_number(year, month, day) < days_before_year(year + 1),
{
    lemma_leaps_step(year);
}

proof fn lemma_years_rise(a: int, b: int)
    requires
        a <= b,
    ensures
        days_before_year(a) <= days_before_year(b),
    decreases b - a,
{
    if a < b {
        lemma_years_rise(a, b - 1);
        lemma_leaps_step(b - 1);
    }
}

proof fn lemma_months_rise(year: int, a: int, b: int)
    requires
        1 <= a < b <= 12,
    ensures
        days_before_month(year, a + 1) <= days_before_month(year, b),
{
}

/// A date comes before another.
pub open spec fn is_earlier(
    year: int,
    month: int,
    day: int,
    other_year: int,
    other_month: int,
    other_day: int,
) -> bool {
    year < other_year || (year == other_year && (month < other_month || (month == other_month && day
        < other_day)))
}

/// A day with a lower number has an earlier date.
pub proof fn law_an_earlier_day_has_an_earlier_date(
    year: int,
    month: int,
    day: int,
    other_year: int,
    other_month: int,
    other_day: int,
)
    requires
        is_date(year, month, day),
        is_date(other_year, other_month, other_day),
        day_number(year, month, day) < day_number(other_year, other_month, other_day),
    ensures
        is_earlier(year, month, day, other_year, other_month, other_day),
{
    lemma_within_year(year, month, day);
    lemma_within_year(other_year, other_month, other_day);
    if other_year < year {
        lemma_years_rise(other_year + 1, year);
    } else if other_year == year && other_month < month {
        lemma_months_rise(year, other_month, month);
    }
}

/// The day after a date has the next number.
pub proof fn law_the_next_day_has_the_next_number(year: int, month: int, day: int)
    requires
        is_date(year, month, day),
    ensures
        day < month_days(year, month) ==> day_number(year, month, day + 1) == day_number(
            year,
            month,
            day,
        ) + 1,
        day == month_days(year, month) && month < 12 ==> day_number(year, month + 1, 1)
            == day_number(year, month, day) + 1,
        day == month_days(year, month) && month == 12 ==> day_number(year + 1, 1, 1) == day_number(
            year,
            month,
            day,
        ) + 1,
        day_number(1970, 1, 1) == 0,
{
    lemma_leaps_step(year);
}

} // verus!
