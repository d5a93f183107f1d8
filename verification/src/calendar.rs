//! The Gregorian calendar from 1970 on.
use vstd::prelude::*;

verus! {

/// A date: year, month from one to twelve, day of the month from one.
#[derive(Clone, Copy, Debug, PartialEq, Eq, Structural)]
pub struct CivilDate {
    pub year: i64,
    pub month: i64,
    pub day: i64,
}

/// Every fourth year has a leap day, but of the full centuries only every fourth.
pub open spec fn is_leap_year(year: int) -> bool {
    year % 4 == 0 && (year % 100 != 0 || year % 400 == 0)
}

pub open spec fn days_in_year(year: int) -> int {
    if is_leap_year(year) {
        366
    } else {
        365
    }
}

pub open spec fn days_in_month(year: int, month: int) -> int {
    if month == 2 {
        if is_leap_year(year) {
            29
        } else {
            28
        }
    } else if month == 4 || month == 6 || month == 9 || month == 11 {
        30
    } else {
        31
    }
}

/// The days from the start of 1970 to the start of `year`.
pub open spec fn days_before_year(year: int) -> int
    decreases year - 1970,
{
    if year <= 1970 {
        0
    } else {
        days_before_year(year - 1) + days_in_year(year - 1)
    }
}

/// The days from the start of `year` to the start of its month `month`.
pub open spec fn days_before_month(year: int, month: int) -> int
    decreases month,
{
    if month <= 1 {
        0
    } else {
        days_before_month(year, month - 1) + days_in_month(year, month - 1)
    }
}

impl CivilDate {
    /// Whether this is a date of the calendar, from 1970 on.
    pub open spec fn valid(self) -> bool {
        &&& 1970 <= self.year
        &&& 1 <= self.month <= 12
        &&& 1 <= self.day <= days_in_month(self.year as int, self.month as int)
    }

    /// The days from 1 January 1970 to this date.
    pub open spec fn day_number(self) -> int {
        days_before_year(self.year as int) + days_before_month(self.year as int, self.month as int)
            + self.day - 1
    }

    /// Whether this date is earlier than `other`, by year, then month, then day.
    pub open spec fn before(self, other: CivilDate) -> bool {
        ||| self.year < other.year
        ||| self.year == other.year && self.month < other.month
        ||| self.year == other.year && self.month == other.month && self.day < other.day
    }
}

/// The date that lies `days` days after 1 January 1970.
pub open spec fn date_of(days: int) -> CivilDate {
    choose|date: CivilDate| #[trigger] date.valid() && date.day_number() == days
}

proof fn lemma_days_before_year(year: int)
    requires
        1970 <= year,
    ensures
        days_before_year(year) == 365 * (year - 1970) + (year - 1) / 4 - (year - 1) / 100 + (year
            - 1) / 400 - 477,
    decreases year,
{
    if year > 1970 {
        lemma_days_before_year(year - 1);
    }
}

/// Within a 400-year era that starts in March, the day `doe` falls in the year `yoe`.
proof fn lemma_year_of_era(doe: int, yoe: int)
    requires
        0 <= doe < 146097,
        yoe == (doe - doe / 1460 + doe / 36524 - doe / 146096) / 365,
    ensures
        0 <= yoe < 400,
        0 <= doe - (365 * yoe + yoe / 4 - yoe / 100) <= 365,
        doe - (365 * yoe + yoe / 4 - yoe / 100) == 365 ==> (yoe + 1) % 4 == 0 && ((yoe + 1) % 100
            != 0 || (yoe + 1) % 400 == 0),
{
}

/// Counted from March, the day `doy` of a year falls in the month `mp` on the day `d`.
proof fn lemma_month_of_year(doy: int, mp: int, d: int)
    requires
        0 <= doy <= 365,
        mp == (5 * doy + 2) / 153,
        d == doy - (153 * mp + 2) / 5 + 1,
    ensures
        0 <= mp <= 11,
        1 <= d <= 31,
        mp == 1 || mp == 3 || mp == 6 || mp == 8 ==> d <= 30,
        mp == 11 ==> d <= 29,
        mp == 11 && doy < 365 ==> d <= 28,
{
}

/// The days before each month of a year, counted from January and from March.
proof fn lemma_days_before_month(year: int, month: int)
    requires
        1 <= month <= 12,
    ensures
        days_before_month(year, month) == if month <= 2 {
            31 * (month - 1)
        } else {
            (153 * (month - 3) + 2) / 5 + 59 + (if is_leap_year(year) {
                1int
            } else {
                0
            })
        },
{
    reveal_with_fuel(days_before_month, 12);
}

/// The leap days in the years 1 to `year`.
spec fn leap_days(year: int) -> int {
    year / 4 - year / 100 + year / 400
}

proof fn lemma_quotient_steps(year: int)
    ensures
        year / 4 - (year - 1) / 4 == if year % 4 == 0 {
            1int
        } else {
            0
        },
        year / 100 - (year - 1) / 100 == if year % 100 == 0 {
            1int
        } else {
            0
        },
        year / 400 - (year - 1) / 400 == if year % 400 == 0 {
            1int
        } else {
            0
        },
{
}

proof fn lemma_centuries(year: int)
    ensures
        year % 100 == 0 ==> year % 4 == 0,
        year % 400 == 0 ==> year % 100 == 0,
{
}

proof fn lemma_leap_days_step(year: int)
    ensures
        leap_days(year) == leap_days(year - 1) + (if is_leap_year(year) {
            1int
        } else {
            0
        }),
{
    lemma_quotient_steps(year);
    lemma_centuries(year);
}

proof fn lemma_leap_days_era(era: int, yoe: int)
    requires
        0 <= yoe < 400,
    ensures
        leap_days(yoe + era * 400) == 97 * era + yoe / 4 - yoe / 100,
{
    assert((yoe + era * 400) / 4 == yoe / 4 + era * 100);
    assert((yoe + era * 400) / 100 == yoe / 100 + era * 4);
    assert((yoe + era * 400) / 400 == era);
}

proof fn lemma_leap_year_of_era(era: int, yoe: int)
    ensures
        is_leap_year(yoe + era * 400 + 1) == is_leap_year(yoe + 1),
{
}

/// A year of an era, a month counted from March and a day of the month make up a date.
proof fn lemma_civil_date(era: int, yoe: int, mp: int, date: CivilDate)
    requires
        0 <= era,
        0 <= yoe < 400,
        0 <= mp <= 11,
        1970 <= date.year,
        date.year == yoe + era * 400 + (if mp < 10 {
            0int
        } else {
            1
        }),
        date.month == if mp < 10 {
            mp + 3
        } else {
            mp - 9
        },
    ensures
        date.day_number() + 719468 == era * 146097 + 365 * yoe + yoe / 4 - yoe / 100 + (153 * mp
            + 2) / 5 + date.day - 1,
{
    let year = date.year as int;
    lemma_days_before_year(year);
    lemma_days_before_month(year, date.month as int);
    lemma_leap_days_step(year);
    lemma_leap_days_era(era, yoe);
    assert(leap_days(year - 1) == (year - 1) / 4 - (year - 1) / 100 + (year - 1) / 400);
    if mp == 10 {
        assert((153 * mp + 2) / 5 == 306);
    }
    if mp == 11 {
        assert((153 * mp + 2) / 5 == 337);
    }
}

/// How a count of days comes down to a date.
///
/// The count starts on 1 March of the year 0, so that a leap day ends its year.
proof fn lemma_date_arithmetic(
    z: int,
    era: int,
    doe: int,
    yoe: int,
    doy: int,
    mp: int,
    date: CivilDate,
)
    requires
        719468 <= z,
        era == z / 146097,
        doe == z - era * 146097,
        yoe == (doe - doe / 1460 + doe / 36524 - doe / 146096) / 365,
        doy == doe - (365 * yoe + yoe / 4 - yoe / 100),
        mp == (5 * doy + 2) / 153,
        date.day == doy - (153 * mp + 2) / 5 + 1,
        date.month == if mp < 10 {
            mp + 3
        } else {
            mp - 9
        },
        date.year == yoe + era * 400 + (if mp < 10 {
            0int
        } else {
            1
        }),
    ensures
        date.valid(),
        date.day_number() + 719468 == z,
{
    lemma_year_of_era(doe, yoe);
    lemma_month_of_year(doy, mp, date.day as int);
    lemma_leap_year_of_era(era, yoe);
    lemma_civil_date(era, yoe, mp, date);
}

/// The date that lies `days` days after 1 January 1970.
pub fn civil_from_days(days: u64) -> (date: CivilDate)
    requires
        days <= i64::MAX - 719468,
    ensures
        date.valid(),
        date.day_number() == days,
        date == date_of(days as int),
{
    let z: i64 = days as i64 + 719468;
    let era: i64 = z / 146097;
    let doe: i64 = z - era * 146097;
    let yoe: i64 = (doe - doe / 1460 + doe / 36524 - doe / 146096) / 365;
    proof {
        lemma_year_of_era(doe as int, yoe as int);
    }
    let doy: i64 = doe - (365 * yoe + yoe / 4 - yoe / 100);
    let mp: i64 = (5 * doy + 2) / 153;
    let day: i64 = doy - (153 * mp + 2) / 5 + 1;
    let month: i64 = if mp < 10 {
        mp + 3
    } else {
        mp - 9
    };
    let march_year: i64 = yoe + era * 400;
    let year: i64 = if month <= 2 {
        march_year + 1
    } else {
        march_year
    };
    let date = CivilDate { year, month, day };
    proof {
        lemma_month_of_year(doy as int, mp as int, day as int);
        lemma_date_arithmetic(
            z as int,
            era as int,
            doe as int,
            yoe as int,
            doy as int,
            mp as int,
            date,
        );
        law_date_of(date);
    }
    date
}

/// Every day from 1 January 1970 on has a date.
pub proof fn law_every_day_has_a_date(days: int)
    requires
        0 <= days <= i64::MAX - 719468,
    ensures
        date_of(days).valid(),
        date_of(days).day_number() == days,
{
    let z = days + 719468;
    let era = z / 146097;
    let doe = z - era * 146097;
    let yoe = (doe - doe / 1460 + doe / 36524 - doe / 146096) / 365;
    let doy = doe - (365 * yoe + yoe / 4 - yoe / 100);
    let mp = (5 * doy + 2) / 153;
    lemma_year_of_era(doe, yoe);
    lemma_month_of_year(doy, mp, doy - (153 * mp + 2) / 5 + 1);
    let date = if mp < 10 {
        CivilDate {
            year: (yoe + era * 400) as i64,
            month: (mp + 3) as i64,
            day: (doy - (153 * mp + 2) / 5 + 1) as i64,
        }
    } else {
        CivilDate {
            year: (yoe + era * 400 + 1) as i64,
            month: (mp - 9) as i64,
            day: (doy - (153 * mp + 2) / 5 + 1) as i64,
        }
    };
    lemma_date_arithmetic(z, era, doe, yoe, doy, mp, date);
    assert(date.valid() && date.day_number() == days);
}

/// The days up to the end of the year 9999 have years of four digits.
pub proof fn law_four_digit_years(days: int)
    requires
        0 <= days < 2932897,
    ensures
        1970 <= date_of(days).year <= 9999,
{
    law_every_day_has_a_date(days);
    let date = date_of(days);
    lemma_days_before_year(10000);
    if date.year > 10000 {
        lemma_year_span(10000, date.year as int);
    }
    lemma_days_before_month(date.year as int, date.month as int);
}

proof fn lemma_year_span(a: int, b: int)
    requires
        1970 <= a < b,
    ensures
        days_before_year(a) + days_in_year(a) <= days_before_year(b),
    decreases b - a,
{
    if a + 1 < b {
        lemma_year_span(a, b - 1);
    }
}

proof fn lemma_month_span(year: int, a: int, b: int)
    requires
        1 <= a < b,
    ensures
        days_before_month(year, a) + days_in_month(year, a) <= days_before_month(year, b),
    decreases b - a,
{
    if a + 1 < b {
        lemma_month_span(year, a, b - 1);
    }
}

/// Later dates have higher day numbers.
pub proof fn law_dates_are_in_order(a: CivilDate, b: CivilDate)
    requires
        a.valid(),
        b.valid(),
        a.before(b),
    ensures
        a.day_number() < b.day_number(),
{
    if a.year < b.year {
        lemma_year_span(a.year as int, b.year as int);
        lemma_days_before_month(a.year as int, a.month as int);
        lemma_days_before_month(b.year as int, b.month as int);
    } else if a.month < b.month {
        lemma_month_span(a.year as int, a.month as int, b.month as int);
    }
}

/// A day number belongs to no more than one date: it gives the date back.
pub proof fn law_date_of(date: CivilDate)
    requires
        date.valid(),
    ensures
        date_of(date.day_number()) == date,
{
    let other = date_of(date.day_number());
    assert(other.valid() && other.day_number() == date.day_number());
    if date.before(other) {
        law_dates_are_in_order(date, other);
    } else if other.before(date) {
        law_dates_are_in_order(other, date);
    }
}

/// How many days from 1 January 1970 a date lies, counted out: 365 for each year, one for each leap
/// year that is past, the days of the months that are past, and those of the month.
pub proof fn law_days_are_counted(days: u64, date: CivilDate)
    requires
        call_ensures(civil_from_days, (days,), date),
    ensures
        ({
            let year = date.year as int;
            let leap = if year % 4 == 0 && (year % 100 != 0 || year % 400 == 0) {
                1int
            } else {
                0
            };
            let lengths = seq![31int, 28 + leap, 31, 30, 31, 30, 31, 31, 30, 31, 30, 31];
            let past = seq![
                0int,
                31,
                59 + leap,
                90 + leap,
                120 + leap,
                151 + leap,
                181 + leap,
                212 + leap,
                243 + leap,
                273 + leap,
                304 + leap,
                334 + leap,
            ];
            &&& 1970 <= year
            &&& 1 <= date.month <= 12
            &&& 1 <= date.day <= lengths[date.month - 1]
            &&& days == 365 * (year - 1970) + ((year - 1) / 4 - (year - 1) / 100 + (year - 1) / 400
                - 477) + past[date.month - 1] + date.day - 1
        }),
{
    lemma_days_before_year(date.year as int);
    reveal_with_fuel(days_before_month, 12);
}

/// A date with its year, month and day as numbers of any size.
spec fn date(year: int, month: int, day: int) -> CivilDate {
    CivilDate { year: year as i64, month: month as i64, day: day as i64 }
}

/// The count starts on 1 January 1970. Each day is followed by the next of its month; the last of a
/// month by the first of the next month; and the last of December by the first of January of the
/// next year.
pub proof fn law_days_follow_each_other(days: u64, today: CivilDate, tomorrow: CivilDate)
    requires
        days < i64::MAX - 719468,
        call_ensures(civil_from_days, (days,), today),
        call_ensures(civil_from_days, ((days + 1) as u64,), tomorrow),
    ensures
        ({
            let year = today.year as int;
            let leap = if year % 4 == 0 && (year % 100 != 0 || year % 400 == 0) {
                1int
            } else {
                0
            };
            let lengths = seq![31int, 28 + leap, 31, 30, 31, 30, 31, 31, 30, 31, 30, 31];
            &&& days == 0 ==> today.year == 1970 && today.month == 1 && today.day == 1
            &&& if today.day < lengths[today.month - 1] {
                &&& tomorrow.year == today.year
                &&& tomorrow.month == today.month
                &&& tomorrow.day == today.day + 1
            } else if today.month < 12 {
                &&& tomorrow.year == today.year
                &&& tomorrow.month == today.month + 1
                &&& tomorrow.day == 1
            } else {
                &&& tomorrow.year == today.year + 1
                &&& tomorrow.month == 1
                &&& tomorrow.day == 1
            }
        }),
{
    let (year, month, day) = (today.year as int, today.month as int, today.day as int);
    lemma_days_before_year(year);
    lemma_days_before_month(year, month);
    if days == 0 {
        let first = date(1970, 1, 1);
        assert(first.valid() && first.day_number() == 0);
        law_date_of(first);
    }
    if day < days_in_month(year, month) {
        let next = date(year, month, day + 1);
        assert(next.valid() && next.day_number() == days + 1);
        law_date_of(next);
    } else if month < 12 {
        let next = date(year, month + 1, 1);
        assert(next.valid() && next.day_number() == days + 1);
        law_date_of(next);
    } else {
        let next = date(year + 1, 1, 1);
        assert(next.valid() && next.day_number() == days + 1);
        law_date_of(next);
    }
}

} // verus!
