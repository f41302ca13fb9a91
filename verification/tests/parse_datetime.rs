//! Reading timestamps from text.

use chrono::{DateTime, Datelike, FixedOffset, Local, NaiveDateTime, TimeZone};
use datetimescan::parse_datetime::{
    map_tzcode_to_tzoffset, parse_datetime, parse_datetime_at, parse_datetimes,
    parse_datetimes_at,
};
use datetimescan::timestamp::{Reading, Timestamp};

fn same(timestamp: &Timestamp, expected: &DateTime<FixedOffset>) -> bool {
    timestamp.timestamp() == expected.timestamp()
        && timestamp.subsec_nanos() == expected.timestamp_subsec_nanos()
        && timestamp.offset_seconds() == expected.offset().local_minus_utc()
        && timestamp.year() == expected.year()
        && timestamp.month() == expected.month()
        && timestamp.day() == expected.day()
}

#[test]
fn test_parses_valid_dates() {
    let valid_dates = vec![
        "2023-05-11T12:00:00+00:00".to_string(),
        "2023-05-12T12:00:00+00:00".to_string(),
        "2023-05-13T12:00:00+00:00".to_string(),
    ];
    let expected: Vec<DateTime<FixedOffset>> =
        valid_dates.iter().map(|s| DateTime::parse_from_rfc3339(s).unwrap()).collect();
    let parsed = parse_datetimes(&valid_dates).unwrap();
    assert_eq!(parsed.len(), expected.len());
    for (timestamp, expected) in parsed.iter().zip(expected.iter()) {
        assert!(same(timestamp, expected));
    }
}

#[test]
fn test_returns_none_for_invalid_dates() {
    let invalid_dates = vec!["2023-05-11T12:00:00+00:00".to_string(), "invalid".to_string()];
    let parsed = parse_datetimes(&invalid_dates);
    assert!(parsed.is_none());
}

#[test]
fn test_empty_vector() {
    let empty_vec: Vec<String> = Vec::new();
    let parsed = parse_datetimes(&empty_vec);
    assert_eq!(parsed, Some(Vec::new()));
}

#[test]
fn test_rfc3339() {
    let datetime = parse_datetime("2023-05-08T18:30:00+02:00").unwrap();
    assert!(same(&datetime, &DateTime::parse_from_rfc3339("2023-05-08T18:30:00+02:00").unwrap()));
}

#[test]
fn test_without_t_separator() {
    let datetime = parse_datetime("2023-05-08 18:30:00").unwrap();
    let naive_datetime =
        NaiveDateTime::parse_from_str("2023-05-08 18:30:00", "%Y-%m-%d %H:%M:%S").unwrap();
    let local_offset = *Local::now().offset();
    assert!(same(&datetime, &local_offset.from_local_datetime(&naive_datetime).unwrap()));
}

#[test]
fn test_without_timezone_offset() {
    let datetime = parse_datetime("2023-05-08T18:30:00").unwrap();
    let naive_datetime =
        NaiveDateTime::parse_from_str("2023-05-08T18:30:00", "%Y-%m-%dT%H:%M:%S").unwrap();
    let local_offset = *Local::now().offset();
    assert!(same(&datetime, &local_offset.from_local_datetime(&naive_datetime).unwrap()));
}

#[test]
fn test_with_tzcode_aedt() {
    let datetime = parse_datetime("2023-05-08T18:30:00AEDT").unwrap();
    assert!(same(
        &datetime,
        &DateTime::parse_from_str("2023-05-08T18:30:00+1100", "%Y-%m-%dT%H:%M:%S%z").unwrap()
    ));
}

#[test]
fn test_with_tzcode_utc() {
    let datetime = parse_datetime("2023-05-08T18:30:00UTC").unwrap();
    assert!(same(
        &datetime,
        &DateTime::parse_from_str("2023-05-08T18:30:00+0000", "%Y-%m-%dT%H:%M:%S%z").unwrap()
    ));
}

#[test]
fn test_invalid_input() {
    assert!(parse_datetime("invalid").is_none());
}

#[test]
fn parse_datetime_test_empty_input() {
    assert!(parse_datetime("").is_none());
}

#[test]
fn abbreviations_become_offsets() {
    assert_eq!(map_tzcode_to_tzoffset("2023-05-08T18:30:00UTC"), "2023-05-08T18:30:00+0000");
    assert_eq!(map_tzcode_to_tzoffset("2023-05-08T18:30:00AEST"), "2023-05-08T18:30:00+1000");
    assert_eq!(map_tzcode_to_tzoffset("2023-05-08T18:30:00AEDT"), "2023-05-08T18:30:00+1100");
    assert_eq!(map_tzcode_to_tzoffset("UTCAESTAEDTUTC"), "+0000+1000+1100+0000");
    assert_eq!(map_tzcode_to_tzoffset("UTUTCC AES AESTT utc"), "UT+0000C AES +1000T utc");
    assert_eq!(map_tzcode_to_tzoffset(""), "");
    assert_eq!(map_tzcode_to_tzoffset("UT"), "UT");
    assert_eq!(map_tzcode_to_tzoffset("é UTC ü"), "é +0000 ü");
    for text in ["AUTCEST", "AEUTCST", "UAESTTC", "AEAEDTST", "UTCUTC", "AAESTEDT"] {
        let expected = text.replace("UTC", "+0000").replace("AEST", "+1000").replace("AEDT", "+1100");
        assert_eq!(map_tzcode_to_tzoffset(text), expected);
        let other = text.replace("AEDT", "+1100").replace("AEST", "+1000").replace("UTC", "+0000");
        assert_eq!(map_tzcode_to_tzoffset(text), other);
    }
}

#[test]
fn the_forms_are_tried_in_order() {
    let strict = parse_datetime_at("2023-05-08T18:30:00+02:00", 3600).unwrap();
    assert_eq!(strict.offset_seconds(), 7200);
    assert_eq!(strict.timestamp(), 1683563400);
    let zulu = parse_datetime_at("2023-05-08T18:30:00Z", 3600).unwrap();
    assert_eq!((zulu.timestamp(), zulu.offset_seconds()), (1683570600, 0));
    let compact = parse_datetime_at("2023-05-08T18:30:00+0200", 3600).unwrap();
    assert_eq!((compact.timestamp(), compact.offset_seconds()), (1683563400, 7200));
    let joined = parse_datetime_at("2023-05-08T18:30:00", 3600).unwrap();
    assert_eq!((joined.timestamp(), joined.offset_seconds()), (1683567000, 3600));
    let spaced = parse_datetime_at("2023-05-08 18:30:00", -18000).unwrap();
    assert_eq!((spaced.timestamp(), spaced.offset_seconds()), (1683588600, -18000));
    assert_eq!((spaced.year(), spaced.month(), spaced.day()), (2023, 5, 8));
    let aest = parse_datetime_at("2023-05-08T18:30:00AEST", 0).unwrap();
    assert_eq!((aest.timestamp(), aest.offset_seconds()), (1683534600, 36000));
}

#[test]
fn the_local_date_follows_the_offset() {
    let late = parse_datetime_at("2023-12-31T23:30:00-02:00", 0).unwrap();
    assert_eq!((late.year(), late.month(), late.day()), (2023, 12, 31));
    assert_eq!(late.timestamp(), 1704072600);
    let early = parse_datetime_at("2024-01-01T00:30:00+10:00", 0).unwrap();
    assert_eq!((early.year(), early.month(), early.day()), (2024, 1, 1));
}

#[test]
fn what_cannot_be_read() {
    for text in [
        "",
        "invalid",
        "2023-05-08",
        "2023-02-30T00:00:00",
        "2023-13-01T00:00:00Z",
        "2023-05-08T24:00:00Z",
        "2023-05-08T18:30:00 +0200 trailing",
        "2023-05-08T18:30:00XYZ",
    ] {
        assert!(parse_datetime_at(text, 0).is_none(), "{}", text);
        assert!(parse_datetime(text).is_none(), "{}", text);
    }
}

#[test]
fn one_unreadable_text_fails_the_batch() {
    let texts = vec![
        "2023-05-08T18:30:00Z".to_string(),
        "2023-05-08 18:30:00".to_string(),
        "nothing".to_string(),
    ];
    assert!(parse_datetimes_at(&texts, 0).is_none());
    let read = parse_datetimes_at(&texts[..2].to_vec(), 7200).unwrap();
    assert_eq!(read.len(), 2);
    assert_eq!(read[0].timestamp(), 1683570600);
    assert_eq!(read[1].timestamp(), 1683570600 - 7200);
}

#[test]
fn timestamps_out_of_range_are_refused() {
    let limit = datetimescan::timestamp::SECONDS_LIMIT;
    let reading = Reading { secs: 0, nanos: 0, offset: 0, year: 1970, month: 1, day: 1 };
    assert!(Timestamp::new(reading).is_some());
    assert_eq!(Timestamp::new(reading).unwrap().reading(), reading);
    assert!(Timestamp::new(Reading { secs: limit, ..reading }).is_some());
    assert!(Timestamp::new(Reading { secs: -limit, ..reading }).is_some());
    assert!(Timestamp::new(Reading { secs: limit + 1, ..reading }).is_none());
    assert!(Timestamp::new(Reading { secs: -limit - 1, ..reading }).is_none());
    assert!(Timestamp::new(Reading { nanos: 1_999_999_999, ..reading }).is_some());
    assert!(Timestamp::new(Reading { nanos: 2_000_000_000, ..reading }).is_none());
}

#[test]
fn text_without_offset_is_placed_as_chrono_places_it() {
    let texts = [
        ("2023-05-08T18:30:00", "%Y-%m-%dT%H:%M:%S"),
        ("2023-01-01 00:00:00", "%Y-%m-%d %H:%M:%S"),
        ("2016-12-31T23:59:60", "%Y-%m-%dT%H:%M:%S"),
        ("1969-12-31 23:59:59", "%Y-%m-%d %H:%M:%S"),
        ("0000-03-01T00:00:00", "%Y-%m-%dT%H:%M:%S"),
    ];
    for (text, format) in texts {
        let naive = NaiveDateTime::parse_from_str(text, format).unwrap();
        for offset in [0, 3600, -3600, 36000, -43200, 50400, 86399, -86399, 1] {
            let expected =
                FixedOffset::east_opt(offset).unwrap().from_local_datetime(&naive).unwrap();
            let timestamp = parse_datetime_at(text, offset).unwrap();
            assert!(same(&timestamp, &expected), "{} {}", text, offset);
        }
    }
}

#[test]
fn text_with_offset_is_read_as_chrono_reads_it() {
    let texts = [
        "2023-05-08T18:30:00+02:00",
        "2023-05-08T18:30:00.123456789-09:30",
        "2023-05-08t18:30:00z",
        "2016-12-31T23:59:60Z",
        "2023-05-08T18:30:00+0200",
        "2023-05-08T18:30:00-1130",
        "2023-05-08T18:30:00 +0200",
    ];
    for text in texts {
        let expected = DateTime::parse_from_rfc3339(text)
            .or_else(|_| DateTime::parse_from_str(text, "%Y-%m-%dT%H:%M:%S%z"));
        match (parse_datetime_at(text, 0), expected) {
            (Some(timestamp), Ok(expected)) => assert!(same(&timestamp, &expected), "{}", text),
            (None, Err(_)) => {}
            _ => panic!("{}", text),
        }
    }
}
