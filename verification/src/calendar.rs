//! The proleptic Gregorian calendar as mathematics: which years are leap
//! years, how long each month is, and how many days lie between
//! 1970-01-01 and a date. The timestamp code is proved against this model.
use vstd::prelude::*;
use vstd::arithmetic::div_mod::lemma_fundamental_div_mod_converse;

verus! {

/// A year divisible by four is a leap year, unless it is divisible by one
/// hundred and not by four hundred.
pub open spec fn is_leap_year(year: int) -> bool {
    year % 4 == 0 && (year % 100 != 0 || year % 400 == 0)
}

pub open spec fn days_in_year(year: int) -> int {
    if is_leap_year(year) {
        366
    } else {
        365
    }
}

/// Thirty days hath September, April, June and November; February has
/// twenty-eight, twenty-nine in a leap year; all the rest have thirty-one.
pub open spec fn days_in_month(year: int, month: int) -> int {
    if month == 2 {
        if is_leap_year(year) {
            29
        } else {
            28
        }
    } else if month == 4 || month == 6 || month == 9 || month == 11 {
        30
    } else {
        31
    }
}

pub open spec fn is_valid_date(year: int, month: int, day: int) -> bool {
    &&& 1 <= month <= 12
    &&& 1 <= day <= days_in_month(year, month)
}

/// Days from 1970-01-01 to the first of January of `year`: the lengths of
/// the years in between, counted forward or backward from 1970.
pub open spec fn days_before_year(year: int) -> int
    decreases (if year >= 1970 { year - 1970 } else { 1970 - year }),
{
    if year > 1970 {
        days_before_year(year - 1) + days_in_year(year - 1)
    } else if year < 1970 {
        days_before_year(year + 1) - days_in_year(year)
    } else {
        0
    }
}

/// Days from the first of January of `year` to the first of `month`.
pub open spec fn days_before_month(year: int, month: int) -> int
    decreases month,
{
    if month <= 1 {
        0
    } else {
        days_before_month(year, month - 1) + days_in_month(year, month - 1)
    }
}

/// The number of days from 1970-01-01 to the given date, negative before it.
pub open spec fn days_from_civil(year: int, month: int, day: int) -> int {
    days_before_year(year) + days_before_month(year, month) + day - 1
}

/// The date that lies `days` days after 1970-01-01 (before it when negative).
/// There is exactly one: see `lemma_every_day_has_a_date` and
/// `lemma_date_of_day_is_unique`.
pub open spec fn civil_date(days: int) -> (int, int, int) {
    choose|date: (int, int, int)|
        is_valid_date(date.0, date.1, date.2) && days_from_civil(date.0, date.1, date.2) == days
}

// ---------------------------------------------------------------------
// Closed forms used by the proofs.
/// The number of leap years in `1..=year` (negated count of those in
/// `year+1..=0` when `year` is negative).
pub open spec fn leap_count(year: int) -> int {
    year / 4 - year / 100 + year / 400
}

/// Days in the first `k` years of a four-hundred-year era that starts on
/// the first of March of a year divisible by four hundred.
pub open spec fn era_days_before(k: int) -> int {
    365 * k + k / 4 - k / 100
}

/// Whether March-year `k` of an era holds a twenty-ninth of February, that
/// is whether the calendar year it ends in is a leap year.
pub open spec fn era_year_is_long(k: int) -> bool {
    (k + 1) % 4 == 0 && ((k + 1) % 100 != 0 || k + 1 == 400)
}

/// Days from the first of March to the first of the `k`th month after it.
pub open spec fn march_days_before(k: int) -> int {
    (153 * k + 2) / 5
}

proof fn lemma_leap_count_step(year: int)
    ensures
        leap_count(year) - leap_count(year - 1) == (if is_leap_year(year) { 1int } else { 0 }),
{
}

proof fn lemma_days_before_year_closed(year: int)
    ensures
        days_before_year(year) == 365 * (year - 1970) + leap_count(year - 1) - leap_count(1969),
    decreases (if year >= 1970 { year - 1970 } else { 1970 - year }),
{
    if year > 1970 {
        lemma_days_before_year_closed(year - 1);
        lemma_leap_count_step(year - 1);
    } else if year < 1970 {
        lemma_days_before_year_closed(year + 1);
        lemma_leap_count_step(year);
    }
}

proof fn lemma_days_before_month_table(year: int)
    ensures
        days_before_month(year, 1) == 0,
        days_before_month(year, 2) == 31,
        days_before_month(year, 3) == 59 + (if is_leap_year(year) { 1int } else { 0 }),
        days_before_month(year, 4) == 90 + (if is_leap_year(year) { 1int } else { 0 }),
        days_before_month(year, 5) == 120 + (if is_leap_year(year) { 1int } else { 0 }),
        days_before_month(year, 6) == 151 + (if is_leap_year(year) { 1int } else { 0 }),
        days_before_month(year, 7) == 181 + (if is_leap_year(year) { 1int } else { 0 }),
        days_before_month(year, 8) == 212 + (if is_leap_year(year) { 1int } else { 0 }),
        days_before_month(year, 9) == 243 + (if is_leap_year(year) { 1int } else { 0 }),
        days_before_month(year, 10) == 273 + (if is_leap_year(year) { 1int } else { 0 }),
        days_before_month(year, 11) == 304 + (if is_leap_year(year) { 1int } else { 0 }),
        days_before_month(year, 12) == 334 + (if is_leap_year(year) { 1int } else { 0 }),
        days_before_month(year, 13) == days_in_year(year),
{
    reveal_with_fuel(days_before_month, 13);
}

pub proof fn lemma_year_of_era(doe: int)
    requires
        0 <= doe < 146_097,
    ensures
        ({
            let yoe = (doe - doe / 1460 + doe / 36524 - doe / 146_096) / 365;
            &&& 0 <= yoe < 400
            &&& era_days_before(yoe) <= doe
            &&& doe - era_days_before(yoe) < 365 + (if era_year_is_long(yoe) { 1int } else { 0 })
        }),
{
}

pub proof fn lemma_month_of_march_year(doy: int)
    requires
        0 <= doy <= 365,
    ensures
        ({
            let mp = (5 * doy + 2) / 153;
            &&& 0 <= mp <= 11
            &&& march_days_before(mp) <= doy < march_days_before(mp + 1)
        }),
{
}

proof fn lemma_era_year(era: int, yoe: int)
    requires
        0 <= yoe < 400,
    ensures
        leap_count(400 * era + yoe) == 97 * era + yoe / 4 - yoe / 100,
        is_leap_year(400 * era + yoe + 1) == era_year_is_long(yoe),
{
    let x = 400 * era + yoe;
    lemma_fundamental_div_mod_converse(x, 4, 100 * era + yoe / 4, yoe % 4);
    lemma_fundamental_div_mod_converse(x, 100, 4 * era + yoe / 100, yoe % 100);
    lemma_fundamental_div_mod_converse(x, 400, era, yoe);
    let k = yoe + 1;
    lemma_fundamental_div_mod_converse(x + 1, 4, 100 * era + k / 4, k % 4);
    lemma_fundamental_div_mod_converse(x + 1, 100, 4 * era + k / 100, k % 100);
    if k == 400 {
        lemma_fundamental_div_mod_converse(x + 1, 400, era + 1, 0);
    } else {
        lemma_fundamental_div_mod_converse(x + 1, 400, era, k);
    }
}

/// The era arithmetic of `civil_from_days`, step by step, lands on the date
/// that lies `days` days after 1970-01-01.
pub proof fn lemma_era_arithmetic(
    days: int,
    era: int,
    doe: int,
    yoe: int,
    doy: int,
    mp: int,
    day: int,
    month: int,
    year: int,
)
    requires
        days + 719_468 == 146_097 * era + doe,
        0 <= doe < 146_097,
        yoe == (doe - doe / 1460 + doe / 36524 - doe / 146_096) / 365,
        doy == doe - (365 * yoe + yoe / 4 - yoe / 100),
        mp == (5 * doy + 2) / 153,
        day == doy - (153 * mp + 2) / 5 + 1,
        month == (if mp < 10 { mp + 3 } else { mp - 9 }),
        year == yoe + era * 400 + (if month <= 2 { 1int } else { 0 }),
    ensures
        is_valid_date(year, month, day),
        days_from_civil(year, month, day) == days,
{
    lemma_year_of_era(doe);
    lemma_month_of_march_year(doy);
    lemma_era_year(era, yoe);
    let y0 = 400 * era + yoe;
    lemma_days_before_year_closed(y0);
    lemma_leap_count_step(y0);
    lemma_days_before_month_table(year);
    if mp < 10 {
        assert(year == y0);
    } else {
        assert(year == y0 + 1);
        assert(days_before_year(y0 + 1) == days_before_year(y0) + days_in_year(y0));
    }
}

proof fn lemma_next_year(year: int)
    ensures
        days_before_year(year + 1) == days_before_year(year) + days_in_year(year),
{
}

proof fn lemma_years_in_order(y1: int, y2: int)
    requires
        y1 < y2,
    ensures
        days_before_year(y1) + days_in_year(y1) <= days_before_year(y2),
    decreases y2 - y1,
{
    lemma_next_year(y1);
    if y1 + 1 < y2 {
        lemma_years_in_order(y1 + 1, y2);
        lemma_next_year(y1 + 1);
    }
}

proof fn lemma_day_of_year(year: int, month: int, day: int)
    requires
        is_valid_date(year, month, day),
    ensures
        0 <= days_before_month(year, month) <= days_before_month(year, month) + day - 1
            < days_before_month(year, month + 1),
        days_before_month(year, month + 1) <= days_in_year(year),
{
    lemma_days_before_month_table(year);
}

/// Two dates that lie the same number of days after 1970-01-01 are the same
/// date: the day count tells dates apart.
pub proof fn lemma_date_of_day_is_unique(y1: int, m1: int, d1: int, y2: int, m2: int, d2: int)
    requires
        is_valid_date(y1, m1, d1),
        is_valid_date(y2, m2, d2),
        days_from_civil(y1, m1, d1) == days_from_civil(y2, m2, d2),
    ensures
        y1 == y2,
        m1 == m2,
        d1 == d2,
{
    lemma_day_of_year(y1, m1, d1);
    lemma_day_of_year(y2, m2, d2);
    if y1 < y2 {
        lemma_years_in_order(y1, y2);
    } else if y2 < y1 {
        lemma_years_in_order(y2, y1);
    }
    assert(y1 == y2);
    lemma_days_before_month_table(y1);
}

/// Every whole number of days after (or before) 1970-01-01 falls on a
/// date of the calendar.
pub proof fn lemma_every_day_has_a_date(days: int)
    ensures
        is_valid_date(civil_date(days).0, civil_date(days).1, civil_date(days).2),
        days_from_civil(civil_date(days).0, civil_date(days).1, civil_date(days).2) == days,
{
    let era = (days + 719_468) / 146_097;
    let doe = (days + 719_468) % 146_097;
    let yoe = (doe - doe / 1460 + doe / 36524 - doe / 146_096) / 365;
    let doy = doe - (365 * yoe + yoe / 4 - yoe / 100);
    let mp = (5 * doy + 2) / 153;
    let day = doy - (153 * mp + 2) / 5 + 1;
    let month = if mp < 10 { mp + 3 } else { mp - 9 };
    let year = yoe + era * 400 + (if month <= 2 { 1int } else { 0 });
    lemma_era_arithmetic(days, era, doe, yoe, doy, mp, day, month, year);
    let witness = (year, month, day);
    assert(is_valid_date(witness.0, witness.1, witness.2) && days_from_civil(witness.0, witness.1, witness.2) == days);
}

/// A valid date that lies `days` days after 1970-01-01 is `civil_date(days)`.
pub proof fn lemma_civil_date_is(days: int, year: int, month: int, day: int)
    requires
        is_valid_date(year, month, day),
        days_from_civil(year, month, day) == days,
    ensures
        civil_date(days) == (year, month, day),
{
    lemma_every_day_has_a_date(days);
    let date = civil_date(days);
    lemma_date_of_day_is_unique(date.0, date.1, date.2, year, month, day);
}

/// A date before 1970 lies a negative number of days after 1970-01-01.
pub proof fn lemma_date_before_epoch(year: int, month: int, day: int)
    requires
        is_valid_date(year, month, day),
        year < 1970,
    ensures
        days_from_civil(year, month, day) < 0,
{
    lemma_day_of_year(year, month, day);
    lemma_years_in_order(year, 1970);
}

/// A date in the year 10000 or later lies at least 2 932 897 days (the
/// days up to 10000-01-01) after 1970-01-01.
pub proof fn lemma_date_from_year_10000(year: int, month: int, day: int)
    requires
        is_valid_date(year, month, day),
        year >= 10_000,
    ensures
        days_from_civil(year, month, day) >= 2_932_897,
{
    lemma_day_of_year(year, month, day);
    lemma_days_before_year_closed(10_000);
    if year > 10_000 {
        lemma_years_in_order(10_000, year);
    }
}

/// The date after `(year, month, day)`: the next day of the month, else the
/// first of the next month, else New Year's Day of the next year.
pub open spec fn next_date(year: int, month: int, day: int) -> (int, int, int) {
    if day < days_in_month(year, month) {
        (year, month, day + 1)
    } else if month < 12 {
        (year, month + 1, 1)
    } else {
        (year + 1, 1, 1)
    }
}

/// The day after the date of `days` is the date of `days + 1`.
pub proof fn lemma_next_day(days: int)
    ensures
        civil_date(days + 1) == next_date(civil_date(days).0, civil_date(days).1, civil_date(days).2),
{
    lemma_every_day_has_a_date(days);
    let (year, month, day) = civil_date(days);
    let next = next_date(year, month, day);
    lemma_days_before_month_table(year);
    lemma_days_before_month_table(year + 1);
    if day >= days_in_month(year, month) && month >= 12 {
        lemma_next_year(year);
    }
    assert(is_valid_date(next.0, next.1, next.2));
    assert(days_from_civil(next.0, next.1, next.2) == days + 1);
    lemma_civil_date_is(days + 1, next.0, next.1, next.2);
}

proof fn lemma_four_hundred_years(year: int)
    ensures
        is_leap_year(year + 400) == is_leap_year(year),
        days_before_year(year + 400) == days_before_year(year) + 146_097,
{
    lemma_days_before_year_closed(year);
    lemma_days_before_year_closed(year + 400);
    let y = year - 1;
    lemma_fundamental_div_mod_converse(y + 400, 4, y / 4 + 100, y % 4);
    lemma_fundamental_div_mod_converse(y + 400, 100, y / 100 + 4, y % 100);
    lemma_fundamental_div_mod_converse(y + 400, 400, y / 400 + 1, y % 400);
    lemma_fundamental_div_mod_converse(year + 400, 4, year / 4 + 100, year % 4);
    lemma_fundamental_div_mod_converse(year + 400, 100, year / 100 + 4, year % 100);
    lemma_fundamental_div_mod_converse(year + 400, 400, year / 400 + 1, year % 400);
}

/// Four hundred Gregorian years are 146 097 days: the date of
/// `days + 146_097` is the date of `days` four hundred years on.
pub proof fn lemma_four_hundred_year_period(days: int)
    ensures
        civil_date(days + 146_097) == (civil_date(days).0 + 400, civil_date(days).1, civil_date(days).2),
{
    lemma_every_day_has_a_date(days);
    let (year, month, day) = civil_date(days);
    lemma_four_hundred_years(year);
    lemma_days_before_month_table(year);
    lemma_days_before_month_table(year + 400);
    assert(is_valid_date(year + 400, month, day));
    assert(days_from_civil(year + 400, month, day) == days + 146_097);
    lemma_civil_date_is(days + 146_097, year + 400, month, day);
}

/// Of two dates, the one that lies fewer days after 1970-01-01 comes first
/// in the order of year, then month, then day.
pub proof fn lemma_dates_in_order(y1: int, m1: int, d1: int, y2: int, m2: int, d2: int)
    requires
        is_valid_date(y1, m1, d1),
        is_valid_date(y2, m2, d2),
        days_from_civil(y1, m1, d1) < days_from_civil(y2, m2, d2),
    ensures
        y1 < y2 || (y1 == y2 && (m1 < m2 || (m1 == m2 && d1 < d2))),
{
    lemma_day_of_year(y1, m1, d1);
    lemma_day_of_year(y2, m2, d2);
    if y2 < y1 {
        lemma_years_in_order(y2, y1);
    }
    lemma_days_before_month_table(y1);
}

} // verus!
