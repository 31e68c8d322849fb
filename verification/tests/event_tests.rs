use core::cmp::Ordering;

use image_sieve::dates::Date;
use image_sieve::event::{parse_date, Event};

#[test]
fn parse() {
    let test_cases = [
        ("2021-09-14", "2021-09-14"),
        ("2021-9-14", "2021-09-14"),
        ("2021-9-4", "2021-09-04"),
        ("14.09.2021", "2021-09-14"),
        ("04.09.2021", "2021-09-04"),
        ("4.9.2021", "2021-09-04"),
    ];

    for (input, result) in test_cases {
        assert_eq!(parse_date(input).unwrap().to_ymd_string(), result);
    }

    assert!(parse_date("invalid").is_err());
}

#[test]
fn test_parse() {
    let test_cases = [
        ("2021-09-14", "2021-09-14"),
        ("2021-9-14", "2021-09-14"),
        ("2021-9-4", "2021-09-04"),
        ("14.09.2021", "2021-09-14"),
        ("04.09.2021", "2021-09-04"),
        ("4.9.2021", "2021-09-04"),
    ];

    for (input, result) in test_cases {
        assert_eq!(parse_date(input).unwrap().to_ymd_string(), result);
    }

    assert!(parse_date("invalid").is_err());
    assert_eq!(
        parse_date("invalid").unwrap_err(),
        String::from("Invalid date invalid")
    );
}

#[test]
fn test_as_string() {
    let event = Event::new("test", "2021-09-14", "2021-09-15");

    assert_eq!(event.start_date_as_string(), "2021-09-14");
    assert_eq!(event.end_date_as_string(), "2021-09-15");
}

#[test]
#[should_panic]
fn test_create_error_start() {
    Event::new("test", "20-13-14", "2021-09-14");
}

#[test]
#[should_panic]
fn test_create_error_end() {
    Event::new("test", "2021-09-14", "2021.09-14");
}

#[test]
fn test_create_and_update() {
    let mut event = Event::new("test", "2021-09-14", "2021-09-15");

    assert!(event.update("test2", "2021-09-16", "2021-09-17"));
    assert_eq!(event.name, "test2");
    assert_eq!(event.start_date_as_string(), "2021-09-16");
    assert_eq!(event.end_date_as_string(), "2021-09-17");

    assert!(!event.update("test3", "20-09.16", "2021-09-18"));
    assert!(!event.update("test3", "2021-09-19", "2021-09"));

    assert_eq!(event.name, "test2");
    assert_eq!(event.start_date_as_string(), "2021-09-16");
    assert_eq!(event.end_date_as_string(), "2021-09-17");
}

#[test]
fn test_contains() {
    let event = Event::new("test", "2021-09-14", "2021-09-16");

    assert!(event.contains(&Date { year: 2021, month: 9, day: 14 }));
    assert!(event.contains(&Date { year: 2021, month: 9, day: 15 }));
    assert!(event.contains(&Date { year: 2021, month: 9, day: 16 }));
    assert!(!event.contains(&Date { year: 2021, month: 9, day: 13 }));
    assert!(!event.contains(&Date { year: 2021, month: 9, day: 17 }));
}

#[test]
fn test_compare() {
    let event1 = Event::new("test1", "2021-09-14", "2021-09-15");
    let event2 = Event::new("test2", "2021-09-14", "2021-09-15");
    let event3 = Event::new("test3", "2021-09-12", "2021-09-16");

    assert_eq!(event1.cmp(&event2), Ordering::Equal);
    assert_eq!(event1.cmp(&event3), Ordering::Greater);
    assert_eq!(event3.cmp(&event1), Ordering::Less);
}

#[test]
fn test_is_date_valid() {
    assert!(Event::is_date_valid("2021-09-14"));
    assert!(Event::is_date_valid("2021-9-14"));
    assert!(Event::is_date_valid("2021-9-4"));
    assert!(Event::is_date_valid("21-9-4"));
    assert!(Event::is_date_valid("1.1.21"));
    assert!(Event::is_date_valid("1.1.2021"));
    assert!(Event::is_date_valid("01.01.2021"));
    assert!(Event::is_date_valid("01.01.2021"));

    assert!(!Event::is_date_valid("2021-09-14-"));
    assert!(!Event::is_date_valid("2021-09-14-00"));
    assert!(!Event::is_date_valid("21-09.14"));
    assert!(!Event::is_date_valid("21.09-14"));
    assert!(!Event::is_date_valid("41.09.2014"));
    assert!(!Event::is_date_valid("11.13.2014"));
}
