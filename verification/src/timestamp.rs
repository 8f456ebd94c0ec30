//! When an item was archived, as the text a `timestamptz` column reads:
//! RFC 3339 in UTC, `2026-09-09T12:00:00Z`.
//!
//! The date is worked out from the seconds since the epoch by the era
//! arithmetic of the proleptic Gregorian calendar, and proved against the
//! calendar of `crate::calendar`.
use std::time::Duration;
use std::time::SystemTime;
use vstd::prelude::*;

use crate::calendar::{
    civil_date, days_from_civil, is_valid_date, lemma_civil_date_is, lemma_era_arithmetic,
    lemma_date_before_epoch, lemma_date_from_year_10000, lemma_dates_in_order, lemma_every_day_has_a_date,
    lemma_month_of_march_year, lemma_year_of_era,
};

verus! {

#[verifier::external_type_specification]
#[verifier::external_body]
pub struct ExSystemTime(SystemTime);

/// The character of the decimal digit `d`.
pub open spec fn digit_char(d: int) -> char {
    if d == 0 {
        '0'
    } else if d == 1 {
        '1'
    } else if d == 2 {
        '2'
    } else if d == 3 {
        '3'
    } else if d == 4 {
        '4'
    } else if d == 5 {
        '5'
    } else if d == 6 {
        '6'
    } else if d == 7 {
        '7'
    } else if d == 8 {
        '8'
    } else {
        '9'
    }
}

/// `n` in decimal, without leading zeros.
pub open spec fn decimal(n: nat) -> Seq<char>
    decreases n,
{
    if n < 10 {
        seq![digit_char(n as int)]
    } else {
        decimal(n / 10).push(digit_char((n % 10) as int))
    }
}

/// `n` in decimal, with zeros in front up to `width` characters.
pub open spec fn zero_padded(n: nat, width: nat) -> Seq<char> {
    let digits = decimal(n);
    if digits.len() < width {
        Seq::new((width - digits.len()) as nat, |_i: int| '0') + digits
    } else {
        digits
    }
}

/// RFC 3339 in UTC to the second, `YYYY-MM-DDThh:mm:ssZ`, of the instant
/// `seconds` (not negative) after 1970-01-01T00:00:00Z: the calendar date of
/// the whole days, and the hours, minutes and seconds of the day begun.
pub open spec fn rfc3339_text(seconds: nat) -> Seq<char> {
    let date = civil_date(seconds as int / 86_400);
    let of_day = seconds % 86_400;
    zero_padded(date.0 as nat, 4) + seq!['-'] + zero_padded(date.1 as nat, 2) + seq!['-']
        + zero_padded(date.2 as nat, 2) + seq!['T'] + zero_padded(of_day / 3600, 2) + seq![':']
        + zero_padded(of_day % 3600 / 60, 2) + seq![':'] + zero_padded(of_day % 60, 2) + seq!['Z']
}

/// The seconds that stand for a count read off a clock: the count itself,
/// or the epoch when there is none (a time before the epoch) or when it is
/// past what an `i64` holds.
pub open spec fn seconds_or_epoch(since_epoch: Option<u64>) -> nat {
    match since_epoch {
        Some(seconds) => if seconds <= i64::MAX {
            seconds as nat
        } else {
            0
        },
        None => 0,
    }
}

fn digit_text(d: u64) -> (text: &'static str)
    requires
        d < 10,
    ensures
        text@ == seq![digit_char(d as int)],
{
    proof {
        reveal_strlit("0");
        reveal_strlit("1");
        reveal_strlit("2");
        reveal_strlit("3");
        reveal_strlit("4");
        reveal_strlit("5");
        reveal_strlit("6");
        reveal_strlit("7");
        reveal_strlit("8");
        reveal_strlit("9");
    }
    if d == 0 {
        "0"
    } else if d == 1 {
        "1"
    } else if d == 2 {
        "2"
    } else if d == 3 {
        "3"
    } else if d == 4 {
        "4"
    } else if d == 5 {
        "5"
    } else if d == 6 {
        "6"
    } else if d == 7 {
        "7"
    } else if d == 8 {
        "8"
    } else {
        "9"
    }
}

fn append_decimal(out: &mut String, n: u64)
    ensures
        final(out)@ == old(out)@ + decimal(n as nat),
    decreases n,
{
    if n >= 10 {
        append_decimal(out, n / 10);
    }
    out.append(digit_text(n % 10));
    assert(final(out)@ =~= old(out)@ + decimal(n as nat));
}

fn decimal_len(n: u64) -> (len: u64)
    ensures
        len == decimal(n as nat).len(),
        1 <= len <= n + 1,
    decreases n,
{
    if n < 10 {
        1
    } else {
        decimal_len(n / 10) + 1
    }
}

fn append_zero_padded(out: &mut String, n: u64, width: u64)
    ensures
        final(out)@ == old(out)@ + zero_padded(n as nat, width as nat),
{
    let len = decimal_len(n);
    let mut zeros: u64 = len;
    while zeros < width
        invariant
            len == decimal(n as nat).len(),
            len <= zeros,
            zeros <= (if len < width { width } else { len }),
            out@ == old(out)@ + Seq::new((zeros - len) as nat, |_i: int| '0'),
        decreases width - zeros,
    {
        out.append("0");
        proof {
            reveal_strlit("0");
        }
        zeros = zeros + 1;
        assert(out@ =~= old(out)@ + Seq::new((zeros - len) as nat, |_i: int| '0'));
    }
    append_decimal(out, n);
    assert(out@ =~= old(out)@ + zero_padded(n as nat, width as nat));
}

/// The proleptic Gregorian date `days` after 1970-01-01, by the era
/// arithmetic: four-hundred-year eras of 146 097 days, the year within the
/// era, the day within a March-first year.
fn civil_from_days(days: i64) -> (date: (i64, i64, i64))
    requires
        days <= i64::MAX - 719_468,
    ensures
        is_valid_date(date.0 as int, date.1 as int, date.2 as int),
        days_from_civil(date.0 as int, date.1 as int, date.2 as int) == days,
        (date.0 as int, date.1 as int, date.2 as int) == civil_date(days as int),
{
    let shifted = days + 719_468;
    let era = match shifted.checked_div_euclid(146_097) {
        Some(quotient) => quotient,
        None => 0,
    };
    let of_era = match shifted.checked_rem_euclid(146_097) {
        Some(remainder) => remainder,
        None => 0,
    };
    assert(0 <= of_era < 146_097);
    assert(shifted == 146_097 * era + of_era);
    proof {
        lemma_year_of_era(of_era as int);
    }
    let year_of_era = (of_era - of_era / 1460 + of_era / 36524 - of_era / 146_096) / 365;
    let of_year = of_era - (365 * year_of_era + year_of_era / 4 - year_of_era / 100);
    proof {
        lemma_month_of_march_year(of_year as int);
    }
    let shifted_month = (5 * of_year + 2) / 153;
    let day = of_year - (153 * shifted_month + 2) / 5 + 1;
    let month = if shifted_month < 10 {
        shifted_month + 3
    } else {
        shifted_month - 9
    };
    let year = year_of_era + era * 400 + if month <= 2 {
        1
    } else {
        0
    };
    proof {
        lemma_era_arithmetic(
            days as int,
            era as int,
            of_era as int,
            year_of_era as int,
            of_year as int,
            shifted_month as int,
            day as int,
            month as int,
            year as int,
        );
        lemma_civil_date_is(days as int, year as int, month as int, day as int);
    }
    (year, month, day)
}

/// What `SystemTime::duration_since(UNIX_EPOCH)` gives for `at`: the span
/// from the epoch to `at`, or `None` for its error (a time before the
/// epoch). It depends on the instant alone.
pub uninterp spec fn epoch_span(at: SystemTime) -> Option<Duration>;

/// What `Duration::as_secs` gives for `span`: its whole seconds.
pub uninterp spec fn span_seconds(span: Duration) -> u64;

/// The whole seconds from the epoch to `at`, `None` before the epoch.
pub open spec fn clock_seconds(at: SystemTime) -> Option<u64> {
    match epoch_span(at) {
        Some(span) => Some(span_seconds(span)),
        None => None,
    }
}

/// `SystemTime::duration_since(UNIX_EPOCH)`, with its error (which std
/// gives for a time before the epoch) as `None`. The result is named
/// `epoch_span(at)`; an instant is opaque here, so no clause says which of
/// the two comes back, nor how long the span is.
#[verifier::external_body]
fn duration_since_epoch(at: SystemTime) -> (span: Option<Duration>)
    ensures
        span == epoch_span(at),
{
    match at.duration_since(std::time::UNIX_EPOCH) {
        Ok(span) => Some(span),
        Err(_) => None,
    }
}

/// `Duration::as_secs`: the whole seconds of `span`, named
/// `span_seconds(*span)`. A `Duration` is opaque here, so no clause says
/// more of the count.
#[verifier::external_body]
fn whole_seconds(span: &Duration) -> (seconds: u64)
    ensures
        seconds == span_seconds(*span),
{
    span.as_secs()
}

/// RFC 3339 UTC to the second of the instant `since_epoch` whole seconds
/// after the epoch, as read off a clock: with no count (a time before the
/// epoch), or one past what an `i64` holds, it is the epoch,
/// `1970-01-01T00:00:00Z`.
#[verifier::rlimit(30)]
pub fn rfc3339_utc_of_seconds(since_epoch: Option<u64>) -> (text: String)
    ensures
        text@ == rfc3339_text(seconds_or_epoch(since_epoch)),
{
    let seconds: i64 = match since_epoch {
        Some(count) => if count <= 9_223_372_036_854_775_807u64 {
            count as i64
        } else {
            0
        },
        None => 0,
    };
    let days = seconds / 86_400;
    let of_day = seconds % 86_400;
    let (year, month, day) = civil_from_days(days);
    proof {
        if year < 1970 {
            lemma_date_before_epoch(year as int, month as int, day as int);
        }
    }
    let mut text = String::new();
    append_zero_padded(&mut text, year as u64, 4);
    text.append("-");
    append_zero_padded(&mut text, month as u64, 2);
    text.append("-");
    append_zero_padded(&mut text, day as u64, 2);
    text.append("T");
    append_zero_padded(&mut text, (of_day / 3600) as u64, 2);
    text.append(":");
    append_zero_padded(&mut text, (of_day % 3600 / 60) as u64, 2);
    text.append(":");
    append_zero_padded(&mut text, (of_day % 60) as u64, 2);
    text.append("Z");
    proof {
        reveal_strlit("-");
        reveal_strlit("T");
        reveal_strlit(":");
        reveal_strlit("Z");
    }
    assert(text@ =~= rfc3339_text(seconds_or_epoch(since_epoch)));
    text
}

/// `at` as RFC 3339 UTC to the second. A time before the epoch is the epoch.
pub fn rfc3339_utc(at: SystemTime) -> (text: String)
    ensures
        text@ == rfc3339_text(seconds_or_epoch(clock_seconds(at))),
        epoch_span(at) is None ==> text@ == rfc3339_text(0),
        (epoch_span(at) is Some && span_seconds(epoch_span(at)->0) <= i64::MAX) ==> text@
            == rfc3339_text(span_seconds(epoch_span(at)->0) as nat),
        (epoch_span(at) is Some && span_seconds(epoch_span(at)->0) > i64::MAX) ==> text@
            == rfc3339_text(0),
{
    let since_epoch = match duration_since_epoch(at) {
        Some(span) => Some(whole_seconds(&span)),
        None => None,
    };
    rfc3339_utc_of_seconds(since_epoch)
}

/// A text sorts before another: up to some place they agree, and there the
/// first has the smaller character.
pub open spec fn text_before(a: Seq<char>, b: Seq<char>) -> bool {
    exists|i: int|
        0 <= i < a.len() && i < b.len() && a.subrange(0, i) == b.subrange(0, i) && #[trigger] a[i]
            < b[i]
}

/// Year, month, day, hour, minute and second of the instant `seconds` after
/// the epoch.
spec fn clock_fields(seconds: nat) -> (int, int, int, int, int, int) {
    let date = civil_date(seconds as int / 86_400);
    let of_day = seconds as int % 86_400;
    (date.0, date.1, date.2, of_day / 3600, of_day % 3600 / 60, of_day % 60)
}

spec fn fields_in_range(f: (int, int, int, int, int, int)) -> bool {
    &&& 1970 <= f.0 < 10_000
    &&& 1 <= f.1 <= 12
    &&& 1 <= f.2 <= 31
    &&& 0 <= f.3 < 24
    &&& 0 <= f.4 < 60
    &&& 0 <= f.5 < 60
}

spec fn fields_before(f: (int, int, int, int, int, int), g: (int, int, int, int, int, int)) -> bool {
    ||| f.0 < g.0
    ||| f.0 == g.0 && f.1 < g.1
    ||| f.0 == g.0 && f.1 == g.1 && f.2 < g.2
    ||| f.0 == g.0 && f.1 == g.1 && f.2 == g.2 && f.3 < g.3
    ||| f.0 == g.0 && f.1 == g.1 && f.2 == g.2 && f.3 == g.3 && f.4 < g.4
    ||| f.0 == g.0 && f.1 == g.1 && f.2 == g.2 && f.3 == g.3 && f.4 == g.4 && f.5 < g.5
}

/// The character at place `j` of the twenty-character text of the fields `f`.
spec fn rfc3339_char(f: (int, int, int, int, int, int), j: int) -> char {
    if j == 0 {
        digit_char(f.0 / 1000)
    } else if j == 1 {
        digit_char(f.0 / 100 % 10)
    } else if j == 2 {
        digit_char(f.0 / 10 % 10)
    } else if j == 3 {
        digit_char(f.0 % 10)
    } else if j == 4 {
        '-'
    } else if j == 5 {
        digit_char(f.1 / 10)
    } else if j == 6 {
        digit_char(f.1 % 10)
    } else if j == 7 {
        '-'
    } else if j == 8 {
        digit_char(f.2 / 10)
    } else if j == 9 {
        digit_char(f.2 % 10)
    } else if j == 10 {
        'T'
    } else if j == 11 {
        digit_char(f.3 / 10)
    } else if j == 12 {
        digit_char(f.3 % 10)
    } else if j == 13 {
        ':'
    } else if j == 14 {
        digit_char(f.4 / 10)
    } else if j == 15 {
        digit_char(f.4 % 10)
    } else if j == 16 {
        ':'
    } else if j == 17 {
        digit_char(f.5 / 10)
    } else if j == 18 {
        digit_char(f.5 % 10)
    } else {
        'Z'
    }
}

proof fn lemma_padded_digits(n: int)
    requires
        0 <= n,
    ensures
        n < 100 ==> zero_padded(n as nat, 2) == seq![digit_char(n / 10), digit_char(n % 10)],
        1000 <= n < 10_000 ==> zero_padded(n as nat, 4) == seq![
            digit_char(n / 1000),
            digit_char(n / 100 % 10),
            digit_char(n / 10 % 10),
            digit_char(n % 10),
        ],
{
    reveal_with_fuel(decimal, 5);
    if n < 10 {
        assert(zero_padded(n as nat, 2) =~= seq![digit_char(n / 10), digit_char(n % 10)]);
    } else if n < 100 {
        assert(zero_padded(n as nat, 2) =~= seq![digit_char(n / 10), digit_char(n % 10)]);
    }
    if 1000 <= n < 10_000 {
        assert(zero_padded(n as nat, 4) =~= seq![
            digit_char(n / 1000),
            digit_char(n / 100 % 10),
            digit_char(n / 10 % 10),
            digit_char(n % 10),
        ]);
    }
}

proof fn lemma_clock_fields_in_range(seconds: nat)
    requires
        seconds < 253_402_300_800,
    ensures
        fields_in_range(clock_fields(seconds)),
{
    let days = seconds as int / 86_400;
    lemma_every_day_has_a_date(days);
    let date = civil_date(days);
    if date.0 < 1970 {
        lemma_date_before_epoch(date.0, date.1, date.2);
    }
    if date.0 >= 10_000 {
        lemma_date_from_year_10000(date.0, date.1, date.2);
    }
}

/// Character by character, the text of an instant before the year 10000.
proof fn lemma_rfc3339_chars(seconds: nat)
    requires
        seconds < 253_402_300_800,
    ensures
        rfc3339_text(seconds).len() == 20,
        forall|j: int|
            0 <= j < 20 ==> #[trigger] rfc3339_text(seconds)[j] == rfc3339_char(
                clock_fields(seconds),
                j,
            ),
{
    lemma_clock_fields_in_range(seconds);
    let f = clock_fields(seconds);
    lemma_padded_digits(f.0);
    lemma_padded_digits(f.1);
    lemma_padded_digits(f.2);
    lemma_padded_digits(f.3);
    lemma_padded_digits(f.4);
    lemma_padded_digits(f.5);
    let text = rfc3339_text(seconds);
    let spelled = Seq::new(20, |j: int| rfc3339_char(f, j));
    assert(text =~= spelled);
}

/// Every instant from the epoch to the end of the year 9999 is written in
/// the twenty characters `YYYY-MM-DDThh:mm:ssZ`, with its separators in
/// their places.
pub proof fn lemma_rfc3339_shape(seconds: nat)
    requires
        seconds < 253_402_300_800,
    ensures
        rfc3339_text(seconds).len() == 20,
        rfc3339_text(seconds)[4] == '-',
        rfc3339_text(seconds)[7] == '-',
        rfc3339_text(seconds)[10] == 'T',
        rfc3339_text(seconds)[13] == ':',
        rfc3339_text(seconds)[16] == ':',
        rfc3339_text(seconds)[19] == 'Z',
{
    lemma_rfc3339_chars(seconds);
    assert(rfc3339_text(seconds)[4] == rfc3339_char(clock_fields(seconds), 4));
    assert(rfc3339_text(seconds)[7] == rfc3339_char(clock_fields(seconds), 7));
    assert(rfc3339_text(seconds)[10] == rfc3339_char(clock_fields(seconds), 10));
    assert(rfc3339_text(seconds)[13] == rfc3339_char(clock_fields(seconds), 13));
    assert(rfc3339_text(seconds)[16] == rfc3339_char(clock_fields(seconds), 16));
    assert(rfc3339_text(seconds)[19] == rfc3339_char(clock_fields(seconds), 19));
}

proof fn lemma_clock_fields_in_order(s1: nat, s2: nat)
    requires
        s1 < s2 < 253_402_300_800,
    ensures
        fields_before(clock_fields(s1), clock_fields(s2)),
{
    let days1 = s1 as int / 86_400;
    let days2 = s2 as int / 86_400;
    lemma_every_day_has_a_date(days1);
    lemma_every_day_has_a_date(days2);
    if days1 < days2 {
        let a = civil_date(days1);
        let b = civil_date(days2);
        lemma_dates_in_order(a.0, a.1, a.2, b.0, b.1, b.2);
    }
}

proof fn lemma_digit_chars_in_order(a: int, b: int)
    requires
        0 <= a < b <= 9,
    ensures
        digit_char(a) < digit_char(b),
{
}

/// Where the texts of two fields in order first differ, and that the first
/// has the smaller character there.
proof fn lemma_first_difference(f: (int, int, int, int, int, int), g: (int, int, int, int, int, int)) -> (i: int)
    requires
        fields_in_range(f),
        fields_in_range(g),
        fields_before(f, g),
    ensures
        0 <= i < 20,
        forall|j: int| 0 <= j < i ==> rfc3339_char(f, j) == rfc3339_char(g, j),
        rfc3339_char(f, i) < rfc3339_char(g, i),
{
    let i: int = if f.0 != g.0 {
        if f.0 / 1000 != g.0 / 1000 {
            0
        } else if f.0 / 100 % 10 != g.0 / 100 % 10 {
            1
        } else if f.0 / 10 % 10 != g.0 / 10 % 10 {
            2
        } else {
            3
        }
    } else if f.1 != g.1 {
        if f.1 / 10 != g.1 / 10 {
            5
        } else {
            6
        }
    } else if f.2 != g.2 {
        if f.2 / 10 != g.2 / 10 {
            8
        } else {
            9
        }
    } else if f.3 != g.3 {
        if f.3 / 10 != g.3 / 10 {
            11
        } else {
            12
        }
    } else if f.4 != g.4 {
        if f.4 / 10 != g.4 / 10 {
            14
        } else {
            15
        }
    } else {
        if f.5 / 10 != g.5 / 10 {
            17
        } else {
            18
        }
    };
    if i == 0 {
        lemma_digit_chars_in_order(f.0 / 1000, g.0 / 1000);
    } else if i == 1 {
        lemma_digit_chars_in_order(f.0 / 100 % 10, g.0 / 100 % 10);
    } else if i == 2 {
        lemma_digit_chars_in_order(f.0 / 10 % 10, g.0 / 10 % 10);
    } else if i == 3 {
        lemma_digit_chars_in_order(f.0 % 10, g.0 % 10);
    } else if i == 5 {
        lemma_digit_chars_in_order(f.1 / 10, g.1 / 10);
    } else if i == 6 {
        lemma_digit_chars_in_order(f.1 % 10, g.1 % 10);
    } else if i == 8 {
        lemma_digit_chars_in_order(f.2 / 10, g.2 / 10);
    } else if i == 9 {
        lemma_digit_chars_in_order(f.2 % 10, g.2 % 10);
    } else if i == 11 {
        lemma_digit_chars_in_order(f.3 / 10, g.3 / 10);
    } else if i == 12 {
        lemma_digit_chars_in_order(f.3 % 10, g.3 % 10);
    } else if i == 14 {
        lemma_digit_chars_in_order(f.4 / 10, g.4 / 10);
    } else if i == 15 {
        lemma_digit_chars_in_order(f.4 % 10, g.4 % 10);
    } else if i == 17 {
        lemma_digit_chars_in_order(f.5 / 10, g.5 / 10);
    } else {
        lemma_digit_chars_in_order(f.5 % 10, g.5 % 10);
    }
    i
}

/// From the epoch to the end of the year 9999, the text of a later second
/// sorts after the text of an earlier one, so two different seconds never
/// share a text and the texts sort as the instants do.
pub proof fn lemma_rfc3339_in_order(s1: nat, s2: nat)
    requires
        s1 < s2 < 253_402_300_800,
    ensures
        text_before(rfc3339_text(s1), rfc3339_text(s2)),
        rfc3339_text(s1) != rfc3339_text(s2),
{
    let a = rfc3339_text(s1);
    let b = rfc3339_text(s2);
    lemma_rfc3339_chars(s1);
    lemma_rfc3339_chars(s2);
    lemma_clock_fields_in_range(s1);
    lemma_clock_fields_in_range(s2);
    lemma_clock_fields_in_order(s1, s2);
    let i = lemma_first_difference(clock_fields(s1), clock_fields(s2));
    assert(a.subrange(0, i) =~= b.subrange(0, i));
    assert(a[i] < b[i]);
}

/// The seconds dated are the clock's own: the whole seconds of the span
/// from the epoch when that fits an `i64`, else the epoch.
pub proof fn lemma_clock_seconds_are_the_span(at: SystemTime)
    ensures
        epoch_span(at) is Some ==> clock_seconds(at) == Some(span_seconds(epoch_span(at)->0)),
        epoch_span(at) is None ==> clock_seconds(at) is None,
        forall|count: u64| count <= i64::MAX ==> seconds_or_epoch(Some(count)) == count,
        forall|count: u64| count > i64::MAX ==> seconds_or_epoch(Some(count)) == 0,
        seconds_or_epoch(None) == 0,
{
}

/// The text reads back as the instant: for every second from the epoch to
/// the end of the year 9999, its first four digits spell the year of the
/// calendar date of the day begun, the next two its month, the next two its
/// day, and the last six the hours, minutes and seconds into that day.
pub proof fn lemma_rfc3339_reads_back(seconds: nat)
    requires
        seconds < 253_402_300_800,
    ensures
        ({
            let text = rfc3339_text(seconds);
            let date = civil_date(seconds as int / 86_400);
            let of_day = seconds as int % 86_400;
            &&& text.len() == 20
            &&& text[0] == digit_char(date.0 / 1000)
            &&& text[1] == digit_char(date.0 / 100 % 10)
            &&& text[2] == digit_char(date.0 / 10 % 10)
            &&& text[3] == digit_char(date.0 % 10)
            &&& text[4] == '-'
            &&& text[5] == digit_char(date.1 / 10)
            &&& text[6] == digit_char(date.1 % 10)
            &&& text[7] == '-'
            &&& text[8] == digit_char(date.2 / 10)
            &&& text[9] == digit_char(date.2 % 10)
            &&& text[10] == 'T'
            &&& text[11] == digit_char(of_day / 3600 / 10)
            &&& text[12] == digit_char(of_day / 3600 % 10)
            &&& text[13] == ':'
            &&& text[14] == digit_char(of_day % 3600 / 60 / 10)
            &&& text[15] == digit_char(of_day % 3600 / 60 % 10)
            &&& text[16] == ':'
            &&& text[17] == digit_char(of_day % 60 / 10)
            &&& text[18] == digit_char(of_day % 60 % 10)
            &&& text[19] == 'Z'
        }),
{
    lemma_rfc3339_chars(seconds);
    let text = rfc3339_text(seconds);
    let f = clock_fields(seconds);
    assert(text[0] == rfc3339_char(f, 0));
    assert(text[1] == rfc3339_char(f, 1));
    assert(text[2] == rfc3339_char(f, 2));
    assert(text[3] == rfc3339_char(f, 3));
    assert(text[4] == rfc3339_char(f, 4));
    assert(text[5] == rfc3339_char(f, 5));
    assert(text[6] == rfc3339_char(f, 6));
    assert(text[7] == rfc3339_char(f, 7));
    assert(text[8] == rfc3339_char(f, 8));
    assert(text[9] == rfc3339_char(f, 9));
    assert(text[10] == rfc3339_char(f, 10));
    assert(text[11] == rfc3339_char(f, 11));
    assert(text[12] == rfc3339_char(f, 12));
    assert(text[13] == rfc3339_char(f, 13));
    assert(text[14] == rfc3339_char(f, 14));
    assert(text[15] == rfc3339_char(f, 15));
    assert(text[16] == rfc3339_char(f, 16));
    assert(text[17] == rfc3339_char(f, 17));
    assert(text[18] == rfc3339_char(f, 18));
    assert(text[19] == rfc3339_char(f, 19));
}

} // verus!
