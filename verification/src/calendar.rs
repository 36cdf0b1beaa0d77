//! The Gregorian calendar: from seconds since the Unix epoch to date and time of day.

use vstd::prelude::*;

verus! {

/// Whether `y` has a 29th of February.
pub open spec fn is_leap(y: int) -> bool {
    y % 4 == 0 && (y % 100 != 0 || y % 400 == 0)
}

/// How many days the year `y` has.
pub open spec fn days_in_year(y: int) -> int {
    if is_leap(y) {
        366
    } else {
        365
    }
}

/// How many days the month `m` of the year `y` has.
pub open spec fn days_in_month(y: int, m: int) -> int {
    if m == 2 {
        if is_leap(y) {
            29
        } else {
            28
        }
    } else if m == 4 || m == 6 || m == 9 || m == 11 {
        30
    } else {
        31
    }
}

/// How many days lie before the year `y`, counted from the start of year 0.
pub open spec fn days_before_year(y: int) -> int
    decreases y,
{
    if y <= 0 {
        0
    } else {
        days_before_year(y - 1) + days_in_year(y - 1)
    }
}

/// How many days of the year `y` lie before the month `m`.
pub open spec fn days_before_month(y: int, m: int) -> int
    decreases m,
{
    if m <= 1 {
        0
    } else {
        days_before_month(y, m - 1) + days_in_month(y, m - 1)
    }
}

/// Whether there is a day `d` in the month `m` of the year `y`.
pub open spec fn is_date(y: int, m: int, d: int) -> bool {
    0 <= y && 1 <= m <= 12 && 1 <= d <= days_in_month(y, m)
}

/// How many days lie between the start of year 0 and the date.
pub open spec fn day_number(y: int, m: int, d: int) -> int {
    days_before_year(y) + days_before_month(y, m) + d - 1
}

/// The date `days` days after the 1st of January 1970.
pub open spec fn date_of(days: int) -> (int, int, int) {
    choose|p: (int, int, int)| #[trigger]
        is_date(p.0, p.1, p.2) && day_number(p.0, p.1, p.2) == day_number(1970, 1, 1) + days
}

/// The days before a year, as a formula.
proof fn lemma_days_before_year(y: int)
    requires
        0 <= y,
    ensures
        days_before_year(y) == 365 * y + (y + 3) / 4 - (y + 99) / 100 + (y + 399) / 400,
    decreases y,
{
    if y > 0 {
        lemma_days_before_year(y - 1);
        lemma_leap_step(y - 1);
    }
}

/// A leap year makes the formula grow by one more.
proof fn lemma_leap_step(y: int)
    requires
        0 <= y,
    ensures
        is_leap(y) ==> (y + 4) / 4 - (y + 100) / 100 + (y + 400) / 400 == (y + 3) / 4 - (y + 99)
            / 100 + (y + 399) / 400 + 1,
        !is_leap(y) ==> (y + 4) / 4 - (y + 100) / 100 + (y + 400) / 400 == (y + 3) / 4 - (y + 99)
            / 100 + (y + 399) / 400,
{
}

/// The year in which day `doe` of the century `k` of an era lies, years counted from March.
#[verifier::spinoff_prover]
#[verifier::rlimit(50)]
proof fn lemma_year_of_century(doe: int, k: int, yoe: int)
    requires
        k == 0 || k == 1 || k == 2 || k == 3,
        36524 * k <= doe < 36524 * (k + 1),
        yoe == (doe - doe / 1460 + k) / 365,
    ensures
        100 * k <= yoe < 100 * k + 100,
        365 * yoe + yoe / 4 - k <= doe,
        doe < 365 * (yoe + 1) + (yoe + 1) / 4 - k,
        yoe == 100 * k + 99 ==> doe < 365 * (yoe + 1) + (yoe + 1) / 4 - (k + 1),
{
}

/// The year of the era in which day `doe` lies, years counted from March.
#[verifier::spinoff_prover]
#[verifier::rlimit(50)]
proof fn lemma_year_of_era(doe: int, yoe: int)
    requires
        0 <= doe < 146097,
        yoe == (doe - doe / 1460 + doe / 36524 - doe / 146096) / 365,
    ensures
        0 <= yoe < 400,
        365 * yoe + yoe / 4 - yoe / 100 <= doe,
        doe < 365 * (yoe + 1) + (yoe + 1) / 4 - (yoe + 1) / 100 + (yoe + 1) / 400,
{
    if doe == 146096 {
        assert(yoe == 399);
    } else {
        let k = doe / 36524;
        lemma_year_of_century(doe, k, yoe);
        assert(yoe / 100 == k);
        if yoe < 100 * k + 99 {
            assert((yoe + 1) / 100 == k);
        }
    }
}

/// The days before each month, as a table.
proof fn lemma_days_before_month(y: int)
    ensures
        days_before_month(y, 1) == 0,
        days_before_month(y, 2) == 31,
        days_before_month(y, 3) == 31 + days_in_month(y, 2),
        days_before_month(y, 4) == 62 + days_in_month(y, 2),
        days_before_month(y, 5) == 92 + days_in_month(y, 2),
        days_before_month(y, 6) == 123 + days_in_month(y, 2),
        days_before_month(y, 7) == 153 + days_in_month(y, 2),
        days_before_month(y, 8) == 184 + days_in_month(y, 2),
        days_before_month(y, 9) == 215 + days_in_month(y, 2),
        days_before_month(y, 10) == 245 + days_in_month(y, 2),
        days_before_month(y, 11) == 276 + days_in_month(y, 2),
        days_before_month(y, 12) == 306 + days_in_month(y, 2),
        days_before_month(y, 13) == 337 + days_in_month(y, 2),
{
    reveal_with_fuel(days_before_month, 14);
}

/// The day number of the 1st of March.
pub open spec fn march_start(y: int) -> int {
    60 + 365 * y + y / 4 - y / 100 + y / 400
}

/// The 1st of March and the next New Year, as formulas.
proof fn lemma_march_start(y: int)
    requires
        0 <= y,
    ensures
        days_before_year(y) + 31 + days_in_month(y, 2) == march_start(y),
        days_before_year(y + 1) == march_start(y) + 306,
{
    lemma_days_before_year(y);
    lemma_days_before_year(y + 1);
    lemma_leap_step(y);
    assert((y + 4) / 4 == y / 4 + 1);
    assert((y + 100) / 100 == y / 100 + 1);
    assert((y + 400) / 400 == y / 400 + 1);
}

/// The month counted from March in which the day `doy` lies, as a table.
proof fn lemma_march_months(doy: int, mp: int)
    requires
        0 <= doy <= 365,
        mp == (5 * doy + 2) / 153,
    ensures
        mp == 0 && 0 <= doy < 31 || mp == 1 && 31 <= doy < 61 || mp == 2 && 61 <= doy < 92 || mp == 3
            && 92 <= doy < 122 || mp == 4 && 122 <= doy < 153 || mp == 5 && 153 <= doy < 184 || mp
            == 6 && 184 <= doy < 214 || mp == 7 && 214 <= doy < 245 || mp == 8 && 245 <= doy < 275
            || mp == 9 && 275 <= doy < 306 || mp == 10 && 306 <= doy < 337 || mp == 11 && 337
            <= doy <= 365,
{
}

/// The date of the day `doy` of the year `y`, years counted from March.
proof fn lemma_from_march(y: int, doy: int, mp: int, d: int)
    requires
        0 <= y,
        0 <= doy < 365 + (if is_leap(y + 1) {
            1int
        } else {
            0int
        }),
        mp == (5 * doy + 2) / 153,
        d == doy - (153 * mp + 2) / 5 + 1,
    ensures
        0 <= mp < 12,
        mp < 10 ==> is_date(y, mp + 3, d) && day_number(y, mp + 3, d) == march_start(y) + doy,
        mp >= 10 ==> is_date(y + 1, mp - 9, d) && day_number(y + 1, mp - 9, d) == march_start(y)
            + doy,
{
    lemma_march_months(doy, mp);
    lemma_march_start(y);
    lemma_days_before_month(y);
    lemma_days_before_month(y + 1);
}

/// The calendar repeats every 400 years.
proof fn lemma_eras(yoe: int, era: int)
    requires
        0 <= yoe < 400,
        0 <= era,
    ensures
        (yoe + era * 400) / 4 == yoe / 4 + era * 100,
        (yoe + era * 400) / 100 == yoe / 100 + era * 4,
        (yoe + era * 400) / 400 == era,
        is_leap(yoe + era * 400 + 1) == is_leap(yoe + 1),
{
}

/// Before the end of a year that is counted from March, and goes over a February.
proof fn lemma_march_year_length(yoe: int)
    requires
        0 <= yoe < 400,
    ensures
        365 * (yoe + 1) + (yoe + 1) / 4 - (yoe + 1) / 100 + (yoe + 1) / 400 - (365 * yoe + yoe / 4
            - yoe / 100) == 365 + (if is_leap(yoe + 1) {
            1int
        } else {
            0int
        }),
{
}

/// Hours, minutes and seconds make up the second of the day.
proof fn lemma_time_of_day(secs: int)
    requires
        0 <= secs,
    ensures
        ((secs / 3600) % 24) * 3600 + ((secs / 60) % 60) * 60 + secs % 60 == secs % 86400,
{
}

/// Date and time of day, in UTC, of the moment `secs` seconds after the Unix epoch. The year comes
/// out modulo 2^32.
#[verifier::rlimit(40)]
pub fn epoch_to_ymd_hms(secs: u64) -> (r: (u32, u32, u32, u32, u32, u32))
    ensures
        ({
            let (y, m, d) = date_of((secs / 86400) as int);
            &&& is_date(y, m, d)
            &&& day_number(y, m, d) == day_number(1970, 1, 1) + secs / 86400
            &&& r.0 == y % 0x1_0000_0000
            &&& r.1 == m
            &&& r.2 == d
        }),
        r.3 < 24,
        r.4 < 60,
        r.5 < 60,
        r.3 * 3600 + r.4 * 60 + r.5 == secs % 86400,
{
    let s: u64 = secs % 60;
    let m: u64 = (secs / 60) % 60;
    let h: u64 = (secs / 3600) % 24;
    let days: u64 = secs / 86400;
    // Counted from the 1st of March of year 0.
    let z: u64 = days + 719468;
    let era: u64 = z / 146097;
    let doe: u64 = z % 146097;
    let ghost yoe_int: int = (doe as int - doe as int / 1460 + doe as int / 36524 - doe as int
        / 146096) / 365;
    proof {
        lemma_year_of_era(doe as int, yoe_int);
    }
    let yoe: u64 = (doe - doe / 1460 + doe / 36524 - doe / 146096) / 365;
    let y: u64 = yoe + era * 400;
    let doy: u64 = doe - (365 * yoe + yoe / 4 - yoe / 100);
    let mp: u64 = (5 * doy + 2) / 153;
    proof {
        lemma_eras(yoe as int, era as int);
        lemma_march_year_length(yoe as int);
        lemma_time_of_day(secs as int);
        lemma_from_march(y as int, doy as int, mp as int, doy - (153 * mp + 2) / 5 + 1);
        lemma_days_before_year(1970);
        lemma_days_before_month(1970);
    }
    let d: u64 = doy - (153 * mp + 2) / 5 + 1;
    let mo: u64 = if mp < 10 {
        mp + 3
    } else {
        mp - 9
    };
    let year: u64 = if mo <= 2 {
        y + 1
    } else {
        y
    };
    let r = (year as u32, mo as u32, d as u32, h as u32, m as u32, s as u32);
    proof {
        assert(year as u32 == year % 0x1_0000_0000) by (bit_vector);
        assert(r.0 == year as int % 0x1_0000_0000);
        assert(r.1 == mo && r.2 == d);
        assert(day_number(1970, 1, 1) == 719528);
        assert(march_start(y as int) + doy == 60 + z);
        assert(day_number(year as int, mo as int, d as int) == 60 + z);
        lemma_date_of(days as int, (year as int, mo as int, d as int));
    }
    r
}

/// Two different dates have different day numbers.
pub proof fn law_dates_are_distinct(y1: int, m1: int, d1: int, y2: int, m2: int, d2: int)
    requires
        is_date(y1, m1, d1),
        is_date(y2, m2, d2),
        day_number(y1, m1, d1) == day_number(y2, m2, d2),
    ensures
        y1 == y2,
        m1 == m2,
        d1 == d2,
{
    lemma_day_in_year(y1, m1, d1);
    lemma_day_in_year(y2, m2, d2);
    if y1 < y2 {
        lemma_years_ascend(y1 + 1, y2);
    } else if y2 < y1 {
        lemma_years_ascend(y2 + 1, y1);
    }
    lemma_days_before_month(y1);
}

/// A date lies within its year.
proof fn lemma_day_in_year(y: int, m: int, d: int)
    requires
        is_date(y, m, d),
    ensures
        days_before_year(y) <= day_number(y, m, d) < days_before_year(y + 1),
{
    lemma_days_before_month(y);
}

/// A later year begins no earlier.
proof fn lemma_years_ascend(a: int, b: int)
    requires
        0 <= a <= b,
    ensures
        days_before_year(a) <= days_before_year(b),
    decreases b - a,
{
    if a < b {
        lemma_years_ascend(a, b - 1);
    }
}

/// A date with the right day number is the date of that day.
pub proof fn lemma_date_of(days: int, p: (int, int, int))
    requires
        is_date(p.0, p.1, p.2),
        day_number(p.0, p.1, p.2) == day_number(1970, 1, 1) + days,
    ensures
        date_of(days) == p,
{
    let q = date_of(days);
    assert(is_date(q.0, q.1, q.2) && day_number(q.0, q.1, q.2) == day_number(1970, 1, 1) + days);
    law_dates_are_distinct(p.0, p.1, p.2, q.0, q.1, q.2);
}

/// Days follow one another: the next day of a month is one later, the first of a month follows the
/// last of the month before it, and the first of January the last of December.
pub proof fn law_days_follow_one_another(y: int, m: int, d: int)
    requires
        is_date(y, m, d),
    ensures
        day_number(y, m, d + 1) == day_number(y, m, d) + 1,
        m < 12 ==> day_number(y, m + 1, 1) == day_number(y, m, days_in_month(y, m)) + 1,
        day_number(y + 1, 1, 1) == day_number(y, 12, 31) + 1,
{
    lemma_days_before_month(y);
    lemma_days_before_month(y + 1);
}

/// The calendar repeats itself every four hundred years, which are so many days.
pub proof fn law_calendar_repeats(y: int, m: int, d: int)
    requires
        is_date(y, m, d),
    ensures
        is_date(y + 400, m, d),
        day_number(y + 400, m, d) == day_number(y, m, d) + 146097,
{
    lemma_days_before_year(y);
    lemma_days_before_year(y + 400);
    lemma_days_before_month(y);
    lemma_days_before_month(y + 400);
    assert((y + 403) / 4 == (y + 3) / 4 + 100);
    assert((y + 499) / 100 == (y + 99) / 100 + 4);
    assert((y + 799) / 400 == (y + 399) / 400 + 1);
    assert(is_leap(y + 400) == is_leap(y));
}

/// Every year has a month of each length that is known for it, and 365 days; a year that four divides
/// has one more, but not where a hundred divides it, unless four hundred does.
pub proof fn law_months_have_their_lengths(y: int)
    requires
        0 <= y,
    ensures
        days_in_month(y, 1) == 31 && days_in_month(y, 3) == 31 && days_in_month(y, 5) == 31,
        days_in_month(y, 7) == 31 && days_in_month(y, 8) == 31 && days_in_month(y, 10) == 31,
        days_in_month(y, 12) == 31,
        days_in_month(y, 4) == 30 && days_in_month(y, 6) == 30 && days_in_month(y, 9) == 30,
        days_in_month(y, 11) == 30,
        y % 4 != 0 ==> days_in_month(y, 2) == 28,
        y % 4 == 0 && y % 100 != 0 ==> days_in_month(y, 2) == 29,
        y % 100 == 0 && y % 400 != 0 ==> days_in_month(y, 2) == 28,
        y % 400 == 0 ==> days_in_month(y, 2) == 29,
        day_number(y + 1, 1, 1) - day_number(y, 1, 1) == 337 + days_in_month(y, 2),
{
    lemma_days_before_month(y);
    lemma_days_before_month(y + 1);
}

/// The date on which so many days have gone by since the epoch is the date that is so many days after
/// the 1st of January 1970; on that day none have.
pub proof fn law_epoch_is_where_days_are_counted_from(y: int, m: int, d: int)
    requires
        is_date(y, m, d),
    ensures
        date_of(day_number(y, m, d) - day_number(1970, 1, 1)) == (y, m, d),
        date_of(0) == (1970int, 1int, 1int),
{
    let p = (y, m, d);
    assert(is_date(p.0, p.1, p.2));
    let q = date_of(day_number(y, m, d) - day_number(1970, 1, 1));
    law_dates_are_distinct(q.0, q.1, q.2, y, m, d);
    let e = (1970int, 1int, 1int);
    assert(is_date(e.0, e.1, e.2));
    let f = date_of(0);
    law_dates_are_distinct(f.0, f.1, f.2, 1970, 1, 1);
}

} // verus!
