use m3u_filter::timeshift::{parse_timeshift, timeshift_fits};

#[test]
fn test_parse_timeshift() {
    assert_eq!(parse_timeshift(Some(&String::from("2"))), Some(120));
    assert_eq!(parse_timeshift(Some(&String::from("-1:30"))), Some(-90));
    assert_eq!(parse_timeshift(Some(&String::from("+0:15"))), Some(15));
    assert_eq!(parse_timeshift(Some(&String::from("1:45"))), Some(105));
    assert_eq!(parse_timeshift(Some(&String::from(":45"))), Some(45));
    assert_eq!(parse_timeshift(Some(&String::from("-:45"))), Some(-45));
    assert_eq!(parse_timeshift(Some(&String::from("0:30"))), Some(30));
    assert_eq!(parse_timeshift(Some(&String::from(":3"))), Some(3));
    assert_eq!(parse_timeshift(Some(&String::from("2:"))), Some(120));
    assert_eq!(parse_timeshift(Some(&String::from("+2:00"))), Some(120));
    assert_eq!(parse_timeshift(Some(&String::from("-0:10"))), Some(-10));
    assert_eq!(parse_timeshift(Some(&String::from("invalid"))), None);
    assert_eq!(parse_timeshift(Some(&String::from("+abc"))), None);
    assert_eq!(parse_timeshift(Some(&String::from(""))), None);
    assert_eq!(parse_timeshift(None), None);
}

#[test]
fn timeshift_negative_minutes_are_subtracted() {
    assert_eq!(parse_timeshift(Some(&String::from("1:-30"))), Some(30));
    assert_eq!(parse_timeshift(Some(&String::from("--2"))), Some(-120));
    assert_eq!(parse_timeshift(Some(&String::from("0:0"))), None);
    assert_eq!(parse_timeshift(Some(&String::from("1:2:3"))), Some(62));
}

#[test]
fn timeshift_fits_detects_overflow() {
    assert!(timeshift_fits("2:30"));
    assert!(!timeshift_fits("35791395"));
    assert!(timeshift_fits("35791394"));
    assert!(timeshift_fits("99999999999"));
}
