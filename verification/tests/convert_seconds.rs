//! Writing a count of seconds in a unit.

use datetimescan::convert_seconds::{format_seconds, parse_unit, ConvertSeconds, Unit};

#[test]
fn test_i64() {
    let value: i64 = 3600;
    assert_eq!(value.convert_seconds("hms"), "1h");
    assert_eq!(value.convert_seconds("h"), "1.00");
    assert_eq!(value.convert_seconds("m"), "60.00");
    assert_eq!(value.convert_seconds("s"), "3600");
}

#[test]
fn test_u64() {
    let value: u64 = 3600;
    assert_eq!(value.convert_seconds("hms"), "1h");
    assert_eq!(value.convert_seconds("h"), "1.00");
    assert_eq!(value.convert_seconds("m"), "60.00");
    assert_eq!(value.convert_seconds("s"), "3600");
}

#[test]
fn test_i64_hms() {
    let seconds: i64 = 3661;
    assert_eq!(seconds.convert_seconds("hms"), "1h01m01s");

    let seconds: i64 = -3661;
    assert_eq!(seconds.convert_seconds("hms"), "-1h01m01s");
}

#[test]
fn test_u64_hms() {
    let seconds: u64 = 3661;
    assert_eq!(seconds.convert_seconds("hms"), "1h01m01s");
}

#[test]
fn test_i64_hms_zeros() {
    let seconds: i64 = 3600;
    assert_eq!(seconds.convert_seconds("hms"), "1h");

    let seconds: i64 = 60;
    assert_eq!(seconds.convert_seconds("hms"), "1m");

    let seconds: i64 = 0;
    assert_eq!(seconds.convert_seconds("hms"), "0s");
}

#[test]
fn test_u64_hms_zeros() {
    let seconds: u64 = 3600;
    assert_eq!(seconds.convert_seconds("hms"), "1h");

    let seconds: u64 = 60;
    assert_eq!(seconds.convert_seconds("hms"), "1m");

    let seconds: u64 = 0;
    assert_eq!(seconds.convert_seconds("hms"), "0s");
}

#[test]
fn unit_selectors() {
    assert_eq!(parse_unit("s"), Some(Unit::Seconds));
    assert_eq!(parse_unit("m"), Some(Unit::Minutes));
    assert_eq!(parse_unit("h"), Some(Unit::Hours));
    assert_eq!(parse_unit("hms"), Some(Unit::Hms));
    assert_eq!(parse_unit("HMS"), Some(Unit::Hms));
    assert_eq!(parse_unit("H"), Some(Unit::Hours));
    assert_eq!(parse_unit("d"), None);
    assert_eq!(parse_unit(""), None);
    assert_eq!(parse_unit("hm"), None);
    assert_eq!(parse_unit("hmss"), None);
}

#[test]
fn hms_pads_all_but_the_first_part() {
    let seconds: u64 = 3605;
    assert_eq!(seconds.convert_seconds("hms"), "1h05s");
    let seconds: u64 = 65;
    assert_eq!(seconds.convert_seconds("hms"), "1m05s");
    let seconds: u64 = 5;
    assert_eq!(seconds.convert_seconds("hms"), "5s");
    let seconds: u64 = 36_000 + 120;
    assert_eq!(seconds.convert_seconds("hms"), "10h02m");
    let seconds: u64 = 59;
    assert_eq!(seconds.get_hms(3599), "59m59s");
    assert_eq!(u64::MAX.convert_seconds("hms"), "5124095576030431h15s");
    assert_eq!(i64::MIN.convert_seconds("hms"), "-2562047788015215h30m08s");
}

#[test]
fn seconds_keep_their_sign() {
    assert_eq!((-42i64).convert_seconds("s"), "-42");
    assert_eq!(0i64.convert_seconds("s"), "0");
    assert_eq!(i64::MIN.convert_seconds("s"), "-9223372036854775808");
    assert_eq!(u64::MAX.convert_seconds("s"), "18446744073709551615");
}

#[test]
fn minutes_and_hours_have_two_fractional_digits() {
    assert_eq!(90u64.convert_seconds("m"), "1.50");
    assert_eq!(7u64.convert_seconds("m"), "0.12");
    assert_eq!(1u64.convert_seconds("m"), "0.02");
    assert_eq!(0u64.convert_seconds("m"), "0.00");
    assert_eq!(5400u64.convert_seconds("h"), "1.50");
    assert_eq!(206u64.convert_seconds("h"), "0.06");
    assert_eq!(2256u64.convert_seconds("h"), "0.63");
    assert_eq!((-90i64).convert_seconds("m"), "-1.50");
    assert_eq!((-1i64).convert_seconds("h"), "-0.00");
    assert_eq!(359_999u64.convert_seconds("h"), "100.00");
}

#[test]
fn a_tie_goes_to_the_even_digit() {
    // 18 s are 0.005 h, 54 s are 0.015 h, 1638 s are 0.455 h
    assert_eq!(18u64.convert_seconds("h"), "0.00");
    assert_eq!(54u64.convert_seconds("h"), "0.02");
    assert_eq!(1638u64.convert_seconds("h"), "0.46");
    assert_eq!(90u64.convert_seconds("h"), "0.02");
}

#[test]
fn exact_beyond_the_reach_of_floating_point() {
    let seconds: u64 = (1u64 << 60) + 1;
    assert_eq!(seconds.convert_seconds("m"), "19215358410114116.28");
}

#[test]
fn agrees_with_floating_point_away_from_ties() {
    for seconds in 0u64..5000 {
        if seconds % 36 != 18 {
            assert_eq!(seconds.convert_seconds("h"), format!("{:.2}", seconds as f64 / 3600.0));
        }
        assert_eq!(seconds.convert_seconds("m"), format!("{:.2}", seconds as f64 / 60.0));
        assert_eq!(seconds.convert_seconds("s"), format!("{}", seconds));
        let signed = -(seconds as i64);
        assert_eq!(signed.convert_seconds("s"), format!("{}", signed));
        if seconds > 0 {
            assert_eq!(signed.convert_seconds("m"), format!("{:.2}", signed as f64 / 60.0));
        }
    }
}

#[test]
fn an_unknown_unit_is_rejected() {
    assert_eq!(format_seconds(3661, "hms"), Some("1h01m01s".to_string()));
    assert_eq!(format_seconds(-3661, "hms"), Some("-1h01m01s".to_string()));
    assert_eq!(format_seconds(0, "hms"), Some("0s".to_string()));
    assert_eq!(format_seconds(3600, "h"), Some("1.00".to_string()));
    assert_eq!(format_seconds(3600, "s"), Some("3600".to_string()));
    assert_eq!(format_seconds(3600, "d"), None);
    assert_eq!(format_seconds(3600, ""), None);
}
