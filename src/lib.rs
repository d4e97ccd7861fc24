//! Conversion of a student-records class schedule export into calendar data.
pub mod course;
pub mod document;
pub mod events;
pub mod extract;
pub mod schedule;
pub mod text;
