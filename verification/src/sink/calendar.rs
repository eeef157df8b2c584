//! Days and dates of the Gregorian calendar.

use vstd::prelude::*;

verus! {

/// Whether a year has a leap day.
pub open spec fn is_leap(year: int) -> bool {
    year % 4 == 0 && (year % 100 != 0 || year % 400 == 0)
}

/// One in a leap year, else zero.
pub open spec fn leap_days(year: int) -> int {
    if is_leap(year) {
        1
    } else {
        0
    }
}

/// The days of a year.
pub open spec fn year_len(year: int) -> int {
    365 + leap_days(year)
}

/// The days from the first day of 1970 to the first day of a year.
pub open spec fn days_before_year(year: int) -> int {
    365 * (year - 1970) + ((year - 1) / 4 - (year - 1) / 100 + (year - 1) / 400) - 477
}

/// The days of a month.
pub open spec fn month_len(year: int, month: int) -> int {
    if month == 2 {
        28 + leap_days(year)
    } else if month == 4 || month == 6 || month == 9 || month == 11 {
        30
    } else {
        31
    }
}

/// The days of a year before a month.
pub open spec fn days_before_month(year: int, month: int) -> int
    decreases month,
{
    if month <= 1 {
        0
    } else {
        days_before_month(year, month - 1) + month_len(year, month - 1)
    }
}

/// A date.
pub struct Date {
    pub year: int,
    pub month: int,
    pub day: int,
}

impl Date {
    /// Whether there is such a date.
    pub open spec fn is_valid(self) -> bool {
        &&& 1 <= self.month <= 12
        &&& 1 <= self.day <= month_len(self.year, self.month)
    }

    /// The days from the first day of 1970 to this one.
    pub open spec fn day_number(self) -> int {
        days_before_year(self.year) + days_before_month(self.year, self.month) + self.day - 1
    }
}

/// The date of a day, which is counted from the first day of 1970.
pub open spec fn date_of(days: int) -> Date {
    choose|t: Date| t.is_valid() && t.day_number() == days
}

/// The days before the years count up as the lengths of the years say.
pub proof fn law_years_follow(year: int)
    ensures
        days_before_year(1970) == 0,
        days_before_year(year + 1) == days_before_year(year) + year_len(year),
{
}

/// Years do not overlap.
proof fn lemma_years_apart(a: int, b: int)
    requires
        a < b,
    ensures
        days_before_year(a) + year_len(a) <= days_before_year(b),
{
}

/// The days before each month.
proof fn lemma_months(year: int)
    ensures
        days_before_month(year, 1) == 0,
        days_before_month(year, 2) == 31,
        days_before_month(year, 3) == 59 + leap_days(year),
        days_before_month(year, 4) == 90 + leap_days(year),
        days_before_month(year, 5) == 120 + leap_days(year),
        days_before_month(year, 6) == 151 + leap_days(year),
        days_before_month(year, 7) == 181 + leap_days(year),
        days_before_month(year, 8) == 212 + leap_days(year),
        days_before_month(year, 9) == 243 + leap_days(year),
        days_before_month(year, 10) == 273 + leap_days(year),
        days_before_month(year, 11) == 304 + leap_days(year),
        days_before_month(year, 12) == 334 + leap_days(year),
{
    reveal_with_fuel(days_before_month, 13);
}

/// Each day has one date.
pub proof fn law_one_date_per_day(t: Date)
    requires
        t.is_valid(),
    ensures
        date_of(t.day_number()) == t,
{
    let o = date_of(t.day_number());
    assert(t.is_valid() && t.day_number() == t.day_number());
    assert(o.is_valid() && o.day_number() == t.day_number());
    lemma_months(t.year);
    lemma_months(o.year);
    if t.year < o.year {
        lemma_years_apart(t.year, o.year);
    } else if o.year < t.year {
        lemma_years_apart(o.year, t.year);
    }
    assert(t.year == o.year);
    assert(t.month == o.month);
}

/// Days of the next centuries have years of four digits.
pub proof fn lemma_near_years(t: Date)
    requires
        t.is_valid(),
        0 <= t.day_number() <= 300_000,
    ensures
        1970 <= t.year <= 3000,
        1 <= t.month <= 12,
        1 <= t.day <= 31,
{
    lemma_months(t.year);
    if t.year < 1970 {
        lemma_years_apart(t.year, 1970);
    }
    if t.year > 3000 {
        lemma_years_apart(3000, t.year);
    }
}

/// The first of March of the year `400 * era + 100 * c + 4 * q + r` is so many
/// days after the first day of 1970.
proof fn lemma_march(era: int, c: int, q: int, r: int)
    requires
        0 <= c < 4,
        0 <= q < 25,
        0 <= r < 4,
    ensures
        ({
            let m = 400 * era + 100 * c + 4 * q + r;
            &&& days_before_year(m + 1) - 306 == 146_097 * era + 36_524 * c + 1_461 * q + 365 * r
                - 719_468
            &&& is_leap(m + 1) == (r == 3 && (q < 24 || c == 3))
        }),
{
    let m = 400 * era + 100 * c + 4 * q + r;
    assert(m / 4 == 100 * era + 25 * c + q);
    assert(m / 100 == 4 * era + c);
    assert(m / 400 == era);
    if r == 3 {
        assert((m + 1) % 4 == 0);
        if q == 24 {
            assert((m + 1) % 100 == 0);
            if c == 3 {
                assert((m + 1) % 400 == 0);
            } else {
                assert((m + 1) % 400 == 100 * (c + 1));
            }
        } else {
            assert((m + 1) % 100 == 4 * (q + 1));
        }
    } else {
        assert((m + 1) % 4 == r + 1);
    }
}

/// The month, counted from March on, of a day of a year that begins in March.
pub open spec fn march_month(doy: int) -> int {
    (5 * doy + 2) / 153
}

/// The days of such a year before a month.
pub open spec fn march_offset(mp: int) -> int {
    (153 * mp + 2) / 5
}

/// The date of a day of the year `m` that begins in March.
pub open spec fn march_date(m: int, doy: int) -> Date {
    let mp = march_month(doy);
    let month = if mp < 10 {
        mp + 3
    } else {
        mp - 9
    };
    Date {
        year: if month <= 2 {
            m + 1
        } else {
            m
        },
        month,
        day: doy - march_offset(mp) + 1,
    }
}

/// The date of a day of a year that begins in March is right.
proof fn lemma_march_date(m: int, doy: int)
    requires
        0 <= doy < 365 + leap_days(m + 1),
    ensures
        march_date(m, doy).is_valid(),
        march_date(m, doy).day_number() == days_before_year(m + 1) - 306 + doy,
{
    law_years_follow(m);
    lemma_months(m);
    lemma_months(m + 1);
    let mp = march_month(doy);
    assert(0 <= mp <= 11);
    assert(mp == 0 || mp == 1 || mp == 2 || mp == 3 || mp == 4 || mp == 5 || mp == 6 || mp == 7
        || mp == 8 || mp == 9 || mp == 10 || mp == 11);
}

/// The year of an era of 400 years that begin in March, and the day of that
/// year: a day of the era is the `doy`-th of year `100 * c + 4 * q + r`.
fn split_era(doe: u64) -> (r: (u64, u64, u64, u64))
    requires
        doe < 146_097,
    ensures
        ({
            let (c, q, y, doy) = r;
            &&& c < 4
            &&& q < 25
            &&& y < 4
            &&& doe == 36_524 * c + 1_461 * q + 365 * y + doy
            &&& doy <= 365
            &&& doy == 365 ==> y == 3 && (q < 24 || c == 3)
        }),
{
    let full: u64 = doe / 36_524;
    let c: u64 = if full == 4 {
        3
    } else {
        full
    };
    let doc: u64 = doe - c * 36_524;
    let q: u64 = doc / 1_461;
    let doq: u64 = doc - q * 1_461;
    let whole: u64 = doq / 365;
    let y: u64 = if whole == 4 {
        3
    } else {
        whole
    };
    (c, q, y, doq - y * 365)
}

/// The date of a day, which is counted from the first day of 1970: the year,
/// cut to 32 bits, the month and the day.
pub fn civil_from_days(z: i64) -> (r: (i32, u32, u32))
    requires
        z <= i64::MAX - 719_468,
    ensures
        ({
            let t = date_of(z as int);
            &&& t.is_valid()
            &&& t.day_number() == z
            &&& r == (t.year as i32, t.month as u32, t.day as u32)
        }),
{
    // Days since the first of March of year zero, in eras of 400 years.
    let shifted: i64 = z + 719_468;
    let era: i64 = match shifted.checked_div_euclid(146_097) {
        Some(e) => e,
        None => 0,
    };
    let doe: i64 = shifted - era * 146_097;
    let (c, q, y, doy) = split_era(doe as u64);
    let m: i64 = era * 400 + (100 * c + 4 * q + y) as i64;
    let mp: u64 = (5 * doy + 2) / 153;
    let day: u64 = doy - (153 * mp + 2) / 5 + 1;
    let month: u64 = if mp < 10 {
        mp + 3
    } else {
        mp - 9
    };
    let year: i64 = if month <= 2 {
        m + 1
    } else {
        m
    };
    proof {
        lemma_march(era as int, c as int, q as int, y as int);
        lemma_march_date(m as int, doy as int);
        law_one_date_per_day(march_date(m as int, doy as int));
    }
    (year as i32, month as u32, day as u32)
}

/// Every fourth year has a leap day, but of the years that end a century only
/// every fourth.
pub proof fn law_leap_years(year: int)
    ensures
        year % 400 == 0 ==> year_len(year) == 366,
        year % 100 == 0 && year % 400 != 0 ==> year_len(year) == 365,
        year % 4 == 0 && year % 100 != 0 ==> year_len(year) == 366,
        year % 4 != 0 ==> year_len(year) == 365,
{
}

/// The months have their lengths, and each begins when the one before it ends.
/// Days are counted from the first one of 1970.
pub proof fn law_months_follow(year: int, month: int)
    ensures
        month == 4 || month == 6 || month == 9 || month == 11 ==> month_len(year, month) == 30,
        month == 1 || month == 3 || month == 5 || month == 7 || month == 8 || month == 10 || month
            == 12 ==> month_len(year, month) == 31,
        month_len(year, 2) == year_len(year) - 337,
        days_before_month(year, 1) == 0,
        month >= 1 ==> days_before_month(year, month + 1) == days_before_month(year, month)
            + month_len(year, month),
        days_before_year(1970) == 0,
{
}

} // verus!
