use chrono::{Datelike, NaiveDate};
use uo2ics::course::{build_class, build_classes, split_location, ParseError};
use uo2ics::schedule::{Component, Section};

const BLANK: &str = "\u{a0}";

fn day_number(y: i32, m: u32, d: u32) -> i64 {
    i64::from(NaiveDate::from_ymd_opt(y, m, d).unwrap().num_days_from_ce())
}

fn cells(rows: &[[&str; 7]]) -> Vec<String> {
    rows.iter().flat_map(|r| r.iter().map(|c| c.to_string())).collect()
}

const TERM: &str = "09/04/2024 - 12/20/2024";

#[test]
fn location_splits_address_and_room() {
    let (address, room) = split_location("STE 1234 (University Centre)").unwrap();
    assert_eq!(address, "STE 1234");
    assert_eq!(room, "University Centre");
}

#[test]
fn location_without_room_is_an_error() {
    assert!(split_location("STE 1234").is_err());
}

#[test]
fn location_keeps_everything_after_the_first_parenthesis() {
    let (address, room) = split_location("MRT (Hall (B))").unwrap();
    assert_eq!(address, "MRT");
    assert_eq!(room, "Hall (B)");
}

#[test]
fn class_from_cells() {
    let cs = cells(&[["", "A00", "Lecture", "Mo 10:00AM - 11:20AM", "STE 1234 (Theatre)", "Dr. Smith", TERM]]);
    let c = build_class(&cs, 0, None, chrono_tz::America::Toronto).unwrap();
    assert_eq!(c.section, Section('A', 0));
    assert_eq!(c.component, Component::Lecture);
    assert_eq!(c.address, "STE 1234");
    assert_eq!(c.location, "Theatre");
    assert_eq!(c.instructor, "Dr. Smith");
    assert_eq!(c.time.start.day, day_number(2024, 9, 9));
    assert_eq!((c.time.start.hour, c.time.start.minute), (10, 0));
    assert_eq!((c.time.end.hour, c.time.end.minute), (11, 20));
    assert_eq!(c.end.day, day_number(2024, 12, 20));
    assert_eq!((c.end.hour, c.end.minute), (0, 0));
}

#[test]
fn blank_cells_inherit_from_previous_class() {
    let cs = cells(&[
        ["", "B02", "Laboratory", "Tu 1:00PM - 2:20PM", "STE 1234 (Lab)", "Dr. Smith", TERM],
        ["", BLANK, BLANK, "Th 1:00PM - 2:20PM", "STE 1234 (Lab)", "Dr. Smith", TERM],
    ]);
    let v = build_classes(&cs, chrono_tz::America::Toronto).unwrap();
    assert_eq!(v.len(), 2);
    assert_eq!(v[1].section, Section('B', 2));
    assert_eq!(v[1].component, Component::Laboratory);
    assert_eq!(v[1].time.start.day, day_number(2024, 9, 5));
}

#[test]
fn blank_cell_in_first_class_is_an_error() {
    let cs = cells(&[["", BLANK, "Lecture", "Mo 10:00AM - 11:20AM", "STE 1234 (Theatre)", "Dr. Smith", TERM]]);
    assert_eq!(build_classes(&cs, chrono_tz::America::Toronto).unwrap_err(), ParseError::NothingToInherit);
    let cs = cells(&[["", "A00", BLANK, "Mo 10:00AM - 11:20AM", "STE 1234 (Theatre)", "Dr. Smith", TERM]]);
    assert_eq!(build_classes(&cs, chrono_tz::America::Toronto).unwrap_err(), ParseError::NothingToInherit);
}

#[test]
fn trailing_partial_group_is_ignored() {
    let mut cs = cells(&[["", "A00", "Lecture", "Mo 10:00AM - 11:20AM", "STE 1234 (Theatre)", "Dr. Smith", TERM]]);
    cs.push("".to_string());
    cs.push("bad".to_string());
    assert_eq!(build_classes(&cs, chrono_tz::America::Toronto).unwrap().len(), 1);
}

fn error_of(row: [&str; 7]) -> ParseError {
    build_classes(&cells(&[row]), chrono_tz::America::Toronto).unwrap_err()
}

#[test]
fn each_bad_cell_gives_its_error() {
    let ok = ["", "A00", "Lecture", "Mo 10:00AM - 11:20AM", "STE 1234 (Theatre)", "Dr. Smith", TERM];
    let mut r = ok;
    r[1] = "A100";
    assert_eq!(error_of(r), ParseError::Section);
    let mut r = ok;
    r[2] = "Seminar";
    assert_eq!(error_of(r), ParseError::Component);
    let mut r = ok;
    r[3] = "Mo 10:00AM";
    assert_eq!(error_of(r), ParseError::Time);
    let mut r = ok;
    r[3] = "Mo 25:00AM - 26:00AM";
    assert_eq!(error_of(r), ParseError::ClockRange);
    let mut r = ok;
    r[4] = "STE 1234";
    assert_eq!(error_of(r), ParseError::Location);
    let mut r = ok;
    r[6] = "09/04/2024";
    assert_eq!(error_of(r), ParseError::TermDates);
    let mut r = ok;
    r[6] = "13/45/2024 - 12/20/2024";
    assert_eq!(error_of(r), ParseError::TermDates);
}
