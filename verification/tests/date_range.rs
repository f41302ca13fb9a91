//! Dates written in part, and the dates of a range.

use chrono::{Datelike, NaiveDate};
use datetimescan::date_range::{parse_partial_date_str, parse_step, Date, DateRange, Step};

fn date(year: i32, month: u32, day: u32) -> Date {
    let d = NaiveDate::from_ymd_opt(year, month, day).unwrap();
    Date { days: d.num_days_from_ce(), year, month, day }
}

fn written(date: &Date) -> String {
    format!("{:04}-{:02}-{:02}", date.year, date.month, date.day)
}

#[test]
fn test_parse_partial_date_str() {
    assert_eq!(parse_partial_date_str("2023"), Some(date(2023, 1, 1)));
    assert_eq!(parse_partial_date_str("2023-03"), Some(date(2023, 3, 1)));
    assert_eq!(parse_partial_date_str("2023-03-03"), Some(date(2023, 3, 3)));
    assert_eq!(parse_partial_date_str("invalid"), None);

    assert_eq!(parse_partial_date_str("0000"), Some(date(0, 1, 1)));
    assert_eq!(parse_partial_date_str("9999"), Some(date(9999, 1, 1)));
    assert_eq!(parse_partial_date_str("0000-12"), Some(date(0, 12, 1)));
    assert_eq!(parse_partial_date_str("9999-01"), Some(date(9999, 1, 1)));
    assert_eq!(parse_partial_date_str("0000-01-01"), Some(date(0, 1, 1)));
    assert_eq!(parse_partial_date_str("9999-12-31"), Some(date(9999, 12, 31)));

    assert_eq!(parse_partial_date_str(""), None);
    assert_eq!(parse_partial_date_str("2023-02-30"), None);
    assert_eq!(parse_partial_date_str("2023-00"), None);
    assert_eq!(parse_partial_date_str("2023-13"), None);
    assert_eq!(parse_partial_date_str("202300"), None);
}

#[test]
fn test_date_range_new() {
    let dr = DateRange::new("2023", "2023-03-03");
    assert_eq!(dr.start, date(2023, 1, 1));
    assert_eq!(dr.end, date(2023, 3, 3));

    let dr = DateRange::new("2023-02", "2023-03");
    assert_eq!(dr.start, date(2023, 2, 1));
    assert_eq!(dr.end, date(2023, 3, 1));
}

#[test]
fn test_date_range_new_from_str_range() {
    let dr = DateRange::new_from_str_range(vec!["2023", "2023-03-03"]);
    assert_eq!(dr.start, date(2023, 1, 1));
    assert_eq!(dr.end, date(2023, 3, 3));

    let dr = DateRange::new_from_str_range(vec!["2023-02", "2023-03", "2023"]);
    assert_eq!(dr.start, date(2023, 1, 1));
    assert_eq!(dr.end, date(2023, 3, 1));
}

#[test]
fn test_days_range() {
    let inputs = vec![
        ("2020-01-01", "2022-01-01"),
        ("2020-01-01", "2020-01-02"),
        ("2021-01-01", "2021-12-31"),
        ("2021-01-01", "2021-01-01"),
    ];
    let checks_len = vec![732, 2, 365, 1];
    assert_eq!(inputs.len(), checks_len.len());
    for ((start, end), check_len) in inputs.iter().zip(checks_len.iter()) {
        let date_range = DateRange::new(start, end);
        let result = date_range.get_dates("d");
        assert_eq!(result.len(), *check_len);
        assert_eq!(written(&result[0]), *start);
        assert_eq!(written(&result[result.len() - 1]), *end);
    }
    let inputs = vec![("2020-01-01", "2020-01-05")];
    let checks_strs =
        vec![vec!["2020-01-01", "2020-01-02", "2020-01-03", "2020-01-04", "2020-01-05"]];
    assert_eq!(inputs.len(), checks_strs.len());
    for ((start, end), check_strs) in inputs.iter().zip(checks_strs.iter()) {
        let check_dates: Vec<Date> =
            check_strs.iter().map(|x| parse_partial_date_str(x).unwrap()).collect();
        let date_range = DateRange::new(start, end);
        let result = date_range.get_dates("d");
        assert_eq!(result, check_dates);
    }
}

#[test]
fn test_months_range() {
    let inputs = vec![
        ("2020-01-01", "2020-12-31"),
        ("2020-01-01", "2020-01-01"),
        ("2020-03", "2020-09"),
        ("2020-03", "2020-09-30"),
        ("2020-03-01", "2020-05-15"),
    ];
    let checks_len = vec![12, 1, 7, 7, 3];
    assert_eq!(inputs.len(), checks_len.len());
    for ((start, end), check_len) in inputs.iter().zip(checks_len.iter()) {
        let date_range = DateRange::new(start, end);
        let result = date_range.get_dates("m");
        assert_eq!(result.len(), *check_len);
        assert_eq!(written(&result[0])[0..7], start[0..7]);
        assert_eq!(written(&result[result.len() - 1])[0..7], end[0..7]);
    }
    let inputs = vec![("2020-01-01", "2020-05-01")];
    let checks_strs =
        vec![vec!["2020-01-01", "2020-02-01", "2020-03-01", "2020-04-01", "2020-05-01"]];
    assert_eq!(inputs.len(), checks_strs.len());
    for ((start, end), check_strs) in inputs.iter().zip(checks_strs.iter()) {
        let check_dates: Vec<Date> =
            check_strs.iter().map(|x| parse_partial_date_str(x).unwrap()).collect();
        let date_range = DateRange::new(start, end);
        let result = date_range.get_dates("m");
        assert_eq!(result, check_dates);
    }
}

#[test]
fn test_years_range() {
    let inputs = vec![
        ("2020-01-01", "2020-12-31"),
        ("2020-01-01", "2020-01-01"),
        ("2020-01-01", "2023-04-05"),
        ("2020", "2022-01-01"),
        ("1982", "2043"),
        ("2019-08", "2023-04"),
    ];
    let checks_len = vec![1, 1, 4, 3, 62, 5];
    assert_eq!(inputs.len(), checks_len.len());
    for ((start, end), check_len) in inputs.iter().zip(checks_len.iter()) {
        let date_range = DateRange::new(start, end);
        let result = date_range.get_dates("y");
        assert_eq!(result.len(), *check_len);
        assert_eq!(written(&result[0])[0..4], start[0..4]);
        assert_eq!(written(&result[result.len() - 1])[0..4], end[0..4]);
    }
    let inputs = vec![("2020-01-01", "2023-01-01")];
    let checks_strs = vec![vec!["2020-01-01", "2021-01-01", "2022-01-01", "2023-01-01"]];
    assert_eq!(inputs.len(), checks_strs.len());
    for ((start, end), check_strs) in inputs.iter().zip(checks_strs.iter()) {
        let check_dates: Vec<Date> =
            check_strs.iter().map(|x| parse_partial_date_str(x).unwrap()).collect();
        let date_range = DateRange::new(start, end);
        let result = date_range.get_dates("y");
        assert_eq!(result, check_dates);
    }
}

#[test]
fn years_and_months_are_read_as_numbers() {
    assert_eq!(parse_partial_date_str("-123"), Some(date(-123, 1, 1)));
    assert_eq!(parse_partial_date_str("+123"), Some(date(123, 1, 1)));
    assert_eq!(parse_partial_date_str("20-3-04"), Some(date(20, 3, 1)));
    assert_eq!(parse_partial_date_str("2023-3-"), Some(date(2023, 3, 1)));
    assert_eq!(parse_partial_date_str("+12-+03"), Some(date(12, 3, 1)));
    assert_eq!(parse_partial_date_str("1-2-3-4"), Some(date(1, 2, 1)));
    for text in [
        "12 4", "12a4", "----", "+", "-", "2023-", "-123-04", "2023--3", "2023123", "2023- 3",
        "2023-0x", "é12", "20é-03", "2023-3é", "2023/03/03", "2023-3-03", " 2023-03-03",
        "2023-03-03 ", "20230303",
    ] {
        assert_eq!(parse_partial_date_str(text), None, "{}", text);
    }
    for text in ["2023", "-123", "0000", "2023-03", "0000-12"] {
        let year: i32 = text.split('-').filter(|p| !p.is_empty()).next().unwrap().parse().unwrap();
        let year = if text.starts_with('-') { -year } else { year };
        assert_eq!(parse_partial_date_str(text).unwrap().year, year);
    }
}

#[test]
fn ranges_that_cannot_be_read() {
    assert!(DateRange::parse("2023-02-30", "2023-03-03").is_none());
    assert!(DateRange::parse("2023-02-03", "").is_none());
    assert_eq!(
        DateRange::parse("2022", "2023-03"),
        Some(DateRange { start: date(2022, 1, 1), end: date(2023, 3, 1) })
    );
    assert!(DateRange::parse_str_range(&vec!["2023-02-30", "2023-03-03"]).is_none());
    assert!(DateRange::parse_str_range(&vec!["2023-03-03", "soon"]).is_none());
    assert!(DateRange::parse_str_range(&Vec::new()).is_none());
    assert_eq!(
        DateRange::parse_str_range(&vec!["2023-03-03", "2021", "2024-02", "2021-01-01"]),
        Some(DateRange { start: date(2021, 1, 1), end: date(2024, 2, 1) })
    );
}

#[test]
fn steps() {
    assert_eq!(parse_step("d"), Some(Step::Day));
    assert_eq!(parse_step("D"), Some(Step::Day));
    assert_eq!(parse_step("m"), Some(Step::Month));
    assert_eq!(parse_step("M"), Some(Step::Month));
    assert_eq!(parse_step("y"), Some(Step::Year));
    assert_eq!(parse_step("Y"), Some(Step::Year));
    for selector in ["", "day", "x", "dd", "é"] {
        assert_eq!(parse_step(selector), None);
    }
}

#[test]
fn a_range_that_ends_before_it_starts() {
    let range = DateRange::new("2023-03-03", "2023-03-01");
    assert!(range.get_days().is_empty());
    assert!(range.get_months().is_empty());
    assert_eq!(range.get_years(), vec![date(2023, 1, 1)]);
    let range = DateRange::new("2023-03-03", "2022-12-31");
    assert!(range.get_years().is_empty());
    assert!(range.dates_by(Step::Month).is_empty());
}

#[test]
fn months_and_days_across_years() {
    let range = DateRange::new("2019-11-15", "2020-03-01");
    let months: Vec<String> = range.get_months().iter().map(written).collect();
    assert_eq!(months, vec!["2019-11-01", "2019-12-01", "2020-01-01", "2020-02-01", "2020-03-01"]);
    let range = DateRange::new("2020-02-27", "2020-03-02");
    let days: Vec<String> = range.get_days().iter().map(written).collect();
    assert_eq!(
        days,
        vec!["2020-02-27", "2020-02-28", "2020-02-29", "2020-03-01", "2020-03-02"]
    );
    let range = DateRange::new("-001", "0001");
    let years: Vec<i32> = range.get_years().iter().map(|d| d.year).collect();
    assert_eq!(years, vec![-1, 0, 1]);
    let months = range.get_months();
    assert_eq!(months.len(), 25);
    assert_eq!((months[0].year, months[0].month), (-1, 1));
    assert_eq!((months[11].year, months[11].month), (-1, 12));
    assert_eq!((months[12].year, months[12].month), (0, 1));
    assert_eq!((months[24].year, months[24].month), (1, 1));
}
