use dtbh::model::Timestamp;
use dtbh::time::parse_iso8601;

fn at(sec: i64, nsec: u32) -> Option<Timestamp> {
    Some(Timestamp { sec, nsec })
}

#[test]
fn dates_are_midnight_utc() {
    assert_eq!(parse_iso8601("1970-01-01"), at(0, 0));
    assert_eq!(parse_iso8601("2000-02-29"), at(951782400, 0));
    assert_eq!(parse_iso8601("0000-01-01"), at(-62167219200, 0));
    assert_eq!(parse_iso8601("1969-12-31"), at(-86400, 0));
}

#[test]
fn times_with_zones_and_fractions() {
    assert_eq!(parse_iso8601("2023-05-01T12:00:00Z"), at(1682942400, 0));
    assert_eq!(parse_iso8601("2023-05-01T12:00:00"), at(1682942400, 0));
    assert_eq!(parse_iso8601("2023-05-01T12:00:00+02:00"), at(1682935200, 0));
    assert_eq!(parse_iso8601("2023-05-01T12:00:00-05:30"), at(1682962200, 0));
    assert_eq!(parse_iso8601("2023-05-01T12:00:00.5Z"), at(1682942400, 500_000_000));
    assert_eq!(parse_iso8601("2023-05-01T12:00:00.123456789"), at(1682942400, 123_456_789));
    assert_eq!(parse_iso8601("9999-12-31T23:59:59Z"), at(253402300799, 0));
}

#[test]
fn malformed_times_are_refused() {
    for bad in [
        "",
        "2023-5-01",
        "2023-02-29",
        "2023-13-01",
        "2023-00-10",
        "2023-04-31",
        "2023-05-01T24:00:00Z",
        "2023-05-01T12:60:00Z",
        "2023-05-01T12:00:60Z",
        "2023-05-01 12:00:00",
        "2023-05-01T12:00",
        "2023-05-01T12:00:00.Z",
        "2023-05-01T12:00:00.1234567891Z",
        "2023-05-01T12:00:00+24:00",
        "2023-05-01T12:00:00+0200",
        "2023-05-01Z",
        "yesterday",
    ] {
        assert_eq!(parse_iso8601(bad), None, "{bad}");
    }
}

#[test]
fn leap_years_follow_the_gregorian_rule() {
    assert!(parse_iso8601("2024-02-29").is_some());
    assert!(parse_iso8601("1900-02-29").is_none());
    assert!(parse_iso8601("2000-02-29").is_some());
    assert_eq!(
        parse_iso8601("2024-03-01").unwrap().sec - parse_iso8601("2024-02-28").unwrap().sec,
        2 * 86400
    );
}
