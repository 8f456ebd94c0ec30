use postgresql_archive::timestamp::{rfc3339_utc, rfc3339_utc_of_seconds};
use std::time::{Duration, SystemTime, UNIX_EPOCH};

fn at(seconds: u64) -> SystemTime {
    UNIX_EPOCH + Duration::from_secs(seconds)
}

#[test]
fn the_epoch_a_leap_day_and_a_year_end_are_dated_right() {
    assert_eq!(rfc3339_utc(at(0)), "1970-01-01T00:00:00Z");
    assert_eq!(rfc3339_utc(at(951_782_400)), "2000-02-29T00:00:00Z");
    assert_eq!(rfc3339_utc(at(1_230_767_999)), "2008-12-31T23:59:59Z");
    assert_eq!(rfc3339_utc(at(1_788_912_000)), "2026-09-09T00:00:00Z");
    assert_eq!(rfc3339_utc(at(1_788_955_445)), "2026-09-09T12:04:05Z");
}

#[test]
fn before_the_epoch_is_the_epoch() {
    let before = UNIX_EPOCH - Duration::from_secs(5);
    assert_eq!(rfc3339_utc(before), "1970-01-01T00:00:00Z");
}

#[test]
fn no_count_and_a_count_past_i64_are_the_epoch() {
    assert_eq!(rfc3339_utc_of_seconds(None), "1970-01-01T00:00:00Z");
    assert_eq!(rfc3339_utc_of_seconds(Some(u64::MAX)), "1970-01-01T00:00:00Z");
    assert_eq!(
        rfc3339_utc_of_seconds(Some(9_223_372_036_854_775_808)),
        "1970-01-01T00:00:00Z"
    );
}

#[test]
fn the_last_second_an_i64_holds_is_dated() {
    assert_eq!(
        rfc3339_utc_of_seconds(Some(9_223_372_036_854_775_807)),
        "292277026596-12-04T15:30:07Z"
    );
}

#[test]
fn century_years_are_leap_only_every_four_hundred_years() {
    // 2100-02-28T00:00:00Z and a day later: 2100 is not a leap year.
    assert_eq!(rfc3339_utc_of_seconds(Some(4_107_456_000)), "2100-02-28T00:00:00Z");
    assert_eq!(rfc3339_utc_of_seconds(Some(4_107_542_400)), "2100-03-01T00:00:00Z");
    // 2400 is.
    assert_eq!(rfc3339_utc_of_seconds(Some(13_574_563_200)), "2400-02-29T00:00:00Z");
    assert_eq!(rfc3339_utc_of_seconds(Some(13_574_649_600)), "2400-03-01T00:00:00Z");
}

#[test]
fn the_seconds_of_a_day_are_hours_minutes_and_seconds() {
    assert_eq!(rfc3339_utc_of_seconds(Some(86_399)), "1970-01-01T23:59:59Z");
    assert_eq!(rfc3339_utc_of_seconds(Some(86_400)), "1970-01-02T00:00:00Z");
    assert_eq!(rfc3339_utc_of_seconds(Some(3_661)), "1970-01-01T01:01:01Z");
}

#[test]
fn years_past_four_digits_keep_all_their_digits() {
    // 10000-01-01T00:00:00Z
    assert_eq!(rfc3339_utc_of_seconds(Some(253_402_300_800)), "10000-01-01T00:00:00Z");
    assert_eq!(rfc3339_utc_of_seconds(Some(253_402_300_799)), "9999-12-31T23:59:59Z");
}

#[test]
fn a_text_before_the_year_ten_thousand_has_twenty_characters_in_place() {
    for seconds in [0u64, 59, 951_782_400, 1_788_955_445, 253_402_300_799] {
        let text: Vec<char> = rfc3339_utc_of_seconds(Some(seconds)).chars().collect();
        assert_eq!(text.len(), 20);
        assert_eq!(
            (text[4], text[7], text[10], text[13], text[16], text[19]),
            ('-', '-', 'T', ':', ':', 'Z')
        );
    }
}

#[test]
fn the_second_after_a_year_end_is_new_years_day() {
    assert_eq!(rfc3339_utc_of_seconds(Some(1_230_768_000)), "2009-01-01T00:00:00Z");
    assert_eq!(rfc3339_utc_of_seconds(Some(951_868_800)), "2000-03-01T00:00:00Z");
    assert_eq!(rfc3339_utc_of_seconds(Some(2_592_000)), "1970-01-31T00:00:00Z");
    assert_eq!(rfc3339_utc_of_seconds(Some(2_678_400)), "1970-02-01T00:00:00Z");
}

#[test]
fn four_hundred_years_are_146097_days() {
    let era = 146_097 * 86_400;
    assert_eq!(rfc3339_utc_of_seconds(Some(951_782_400 + era)), "2400-02-29T00:00:00Z");
    assert_eq!(rfc3339_utc_of_seconds(Some(1_788_955_445 + era)), "2426-09-09T12:04:05Z");
}

#[test]
fn the_texts_sort_as_the_seconds_do() {
    let seconds = [0u64, 59, 60, 3_599, 86_399, 86_400, 951_782_400, 1_230_767_999, 253_402_300_799];
    let texts: Vec<String> = seconds.iter().map(|s| rfc3339_utc_of_seconds(Some(*s))).collect();
    for pair in texts.windows(2) {
        assert!(pair[0] < pair[1], "{} {}", pair[0], pair[1]);
    }
}
