use podsync::time::{
    civil_from_ts_x, civil_seconds_x, days_in_month_x, is_leap_year_x, parse_rfc2822,
};

#[test]
fn parse_a_plain_gmt_date() {
    assert_eq!(
        parse_rfc2822("Tue, 10 Oct 2023 12:30:00 GMT"),
        Some(1696941000)
    );
}

#[test]
fn parse_without_weekday_prefix() {
    assert_eq!(parse_rfc2822("10 Oct 2023 12:30:00 GMT"), Some(1696941000));
}

#[test]
fn parse_applies_a_positive_zone_offset() {
    assert_eq!(
        parse_rfc2822("Mon, 01 Jun 2020 08:15:30 +0200"),
        Some(1590992130)
    );
}

#[test]
fn parse_a_single_digit_day() {
    assert_eq!(parse_rfc2822("1 Jun 2020 08:15:30 +0200"), Some(1590992130));
}

#[test]
fn parse_accepts_a_leap_day_and_rejects_a_fake_one() {
    assert_eq!(
        parse_rfc2822("Thu, 29 Feb 2024 00:00:00 GMT"),
        Some(1709164800)
    );
    assert_eq!(parse_rfc2822("Wed, 29 Feb 2023 00:00:00 GMT"), None);
}

#[test]
fn parse_rejects_unknown_zones_and_broken_text() {
    assert_eq!(parse_rfc2822("Tue, 10 Oct 2023 12:30:00 XYZ"), None);
    assert_eq!(parse_rfc2822("not a date"), None);
    assert_eq!(parse_rfc2822(""), None);
    assert_eq!(parse_rfc2822("32 Oct 2023 12:30:00 GMT"), None);
    assert_eq!(parse_rfc2822("10 Oct 2023 25:30:00 GMT"), None);
}

#[test]
fn epoch_of_the_second_day() {
    assert_eq!(civil_seconds_x(1970, 1, 2, 0, 0, 0), 86400);
    assert_eq!(civil_seconds_x(2000, 3, 1, 0, 0, 0), 951868800);
}

#[test]
fn civil_split_inverts_the_epoch() {
    let (y, m, d, h, mi, s) = civil_from_ts_x(1696941000);
    assert_eq!((y, m, d, h, mi, s), (2023, 10, 10, 12, 30, 0));
    let (y2, m2, d2, h2, mi2, s2) = civil_from_ts_x(-315619200);
    assert_eq!((y2, m2, d2, h2, mi2, s2), (1960, 1, 1, 0, 0, 0));
}

#[test]
fn leap_year_rules() {
    assert!(is_leap_year_x(2024));
    assert!(!is_leap_year_x(2023));
    assert!(!is_leap_year_x(1900));
    assert!(is_leap_year_x(2000));
    assert_eq!(days_in_month_x(2024, 2), 29);
    assert_eq!(days_in_month_x(2023, 2), 28);
}

#[test]
fn parse_handles_utc_names_and_negative_offsets() {
    assert_eq!(parse_rfc2822("10 Oct 2023 12:30:00 UT"), Some(1696941000));
    assert_eq!(parse_rfc2822("10 Oct 2023 12:30:00 Z"), Some(1696941000));
    assert_eq!(
        parse_rfc2822("10 Oct 2023 12:30:00 -0100"),
        Some(1696941000 + 3600)
    );
}
