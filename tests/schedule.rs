use chrono::{Datelike, NaiveDate};
use uo2ics::text::parse_u8;
use uo2ics::schedule::{parse_time, Component, DateTime, DateTimeRangeRaw, Section, Status};

fn day_number(y: i32, m: u32, d: u32) -> i64 {
    i64::from(NaiveDate::from_ymd_opt(y, m, d).unwrap().num_days_from_ce())
}

#[test]
fn parse_time_noon_stays_twelve() {
    assert_eq!(parse_time("12:00PM"), Ok((12, 0)));
}

#[test]
fn parse_time_midnight_becomes_zero() {
    assert_eq!(parse_time("12:00AM"), Ok((0, 0)));
}

#[test]
fn parse_time_afternoon_adds_twelve() {
    assert_eq!(parse_time("1:00PM"), Ok((13, 0)));
    assert_eq!(parse_time("11:50PM"), Ok((23, 50)));
}

#[test]
fn parse_time_morning_unchanged() {
    assert_eq!(parse_time("8:30AM"), Ok((8, 30)));
    assert_eq!(parse_time("10:05AM"), Ok((10, 5)));
}

#[test]
fn parse_time_rejects_malformed() {
    assert_eq!(parse_time("8h30AM"), Err(()));
    assert_eq!(parse_time("8:3xAM"), Err(()));
    assert_eq!(parse_time(":30AM"), Err(()));
    assert_eq!(parse_time("250:00PM"), Err(()));
}

#[test]
fn parse_u8_reads_bytes() {
    assert_eq!(parse_u8("0"), Some(0));
    assert_eq!(parse_u8("+42"), Some(42));
    assert_eq!(parse_u8("255"), Some(255));
    assert_eq!(parse_u8("256"), None);
    assert_eq!(parse_u8(""), None);
    assert_eq!(parse_u8("+"), None);
    assert_eq!(parse_u8("-1"), None);
}

#[test]
fn time_range_wednesday_morning() {
    let t = DateTimeRangeRaw::from_str("We 8:30AM - 9:30AM").unwrap();
    assert_eq!(t.weekday, 2);
    assert_eq!(t.start, (8, 30));
    assert_eq!(t.end, (9, 30));
}

#[test]
fn time_range_friday_afternoon() {
    let t = DateTimeRangeRaw::from_str("Fr 1:00PM - 2:20PM").unwrap();
    assert_eq!(t.weekday, 4);
    assert_eq!(t.start, (13, 0));
    assert_eq!(t.end, (14, 20));
}

#[test]
fn time_range_rejects_unknown_weekday_or_missing_end() {
    assert!(DateTimeRangeRaw::from_str("Sa 8:30AM - 9:30AM").is_err());
    assert!(DateTimeRangeRaw::from_str("We 8:30AM").is_err());
    assert!(DateTimeRangeRaw::from_str("We").is_err());
    assert!(DateTimeRangeRaw::from_str("").is_err());
}

#[test]
fn status_from_text() {
    assert_eq!(Status::from_str("Enrolled"), Ok(Status::Enrolled));
    assert_eq!(Status::from_str("Waiting"), Ok(Status::Waiting));
    assert_eq!(Status::from_str("Dropped"), Err(()));
}

#[test]
fn section_from_text_and_back() {
    assert_eq!(Section::from_str("A00"), Ok(Section('A', 0)));
    assert_eq!(Section::from_str("B7"), Ok(Section('B', 7)));
    assert_eq!(Section::from_str("C100"), Err(()));
    assert_eq!(Section::from_str(""), Err(()));
    assert_eq!(Section::from_str("Z"), Err(()));
    assert_eq!(Section('B', 7).to_string(), "B07");
    assert_eq!(Section('A', 42).to_string(), "A42");
    assert_eq!(Section('C', 123).to_string(), "C123");
}

#[test]
fn component_from_text_and_back() {
    assert_eq!(Component::from_str("Laboratory"), Ok(Component::Laboratory));
    assert_eq!(Component::from_str("Lecture"), Ok(Component::Lecture));
    assert_eq!(Component::from_str("Tutorial"), Ok(Component::Tutorial));
    assert_eq!(Component::from_str("Seminar"), Err(()));
    assert_eq!(Component::Laboratory.to_string(), "LAB");
    assert_eq!(Component::Lecture.to_string(), "LEC");
    assert_eq!(Component::Tutorial.to_string(), "TUT");
}

#[test]
fn weekday_agrees_with_chrono() {
    let tz = chrono_tz::America::Toronto;
    for (y, m, d) in [(2024, 9, 4), (2025, 1, 6), (1, 1, 1), (2000, 2, 29), (1969, 7, 20)] {
        let date = NaiveDate::from_ymd_opt(y, m, d).unwrap();
        let t = DateTime::midnight(day_number(y, m, d), tz);
        assert_eq!(u32::from(t.weekday()), date.weekday().num_days_from_monday());
    }
}

#[test]
fn anchoring_on_target_weekday_keeps_the_date() {
    let tz = chrono_tz::America::Toronto;
    let wednesday = day_number(2024, 9, 4);
    let raw = DateTimeRangeRaw::from_str("We 8:30AM - 9:50AM").unwrap();
    let r = raw.into_datetime_range(DateTime::midnight(wednesday, tz));
    assert_eq!(r.start.day, wednesday);
    assert_eq!(r.end.day, wednesday);
    assert_eq!((r.start.hour, r.start.minute, r.start.second, r.start.nanosecond), (8, 30, 0, 0));
    assert_eq!((r.end.hour, r.end.minute), (9, 50));
}

#[test]
fn anchoring_on_day_after_wraps_six_days() {
    let tz = chrono_tz::America::Toronto;
    let thursday = day_number(2024, 9, 5);
    let raw = DateTimeRangeRaw::from_str("We 8:30AM - 9:50AM").unwrap();
    let r = raw.into_datetime_range(DateTime::midnight(thursday, tz));
    assert_eq!(r.start.day, thursday + 6);
    assert_eq!(r.start.day, day_number(2024, 9, 11));
}

#[test]
fn anchoring_moves_forward_within_the_week() {
    let tz = chrono_tz::America::Toronto;
    let wednesday = day_number(2024, 9, 4);
    let raw = DateTimeRangeRaw::from_str("Fr 1:00PM - 2:20PM").unwrap();
    let r = raw.into_datetime_range(DateTime::midnight(wednesday, tz));
    assert_eq!(r.start.day, day_number(2024, 9, 6));
    let raw = DateTimeRangeRaw::from_str("Mo 1:00PM - 2:20PM").unwrap();
    let r = raw.into_datetime_range(DateTime::midnight(wednesday, tz));
    assert_eq!(r.start.day, day_number(2024, 9, 9));
}

#[test]
fn time_range_across_noon() {
    let t = DateTimeRangeRaw::from_str("Tu 11:30AM - 12:50PM").unwrap();
    assert_eq!(t.weekday, 1);
    assert_eq!(t.start, (11, 30));
    assert_eq!(t.end, (12, 50));
    let t = DateTimeRangeRaw::from_str("Th 12:10AM - 1:00AM").unwrap();
    assert_eq!(t.weekday, 3);
    assert_eq!(t.start, (0, 10));
    assert_eq!(t.end, (1, 0));
}
