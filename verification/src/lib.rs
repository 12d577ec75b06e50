//! Timetable records turned into calendar occurrences.
//!
//! A record carries eight text fields as they were typed into a timetable.
//! This crate reads the three temporal ones (a duration, a list of dates or
//! date ranges, a time of day) and combines them into occurrences that a
//! calendar writer can emit.
pub mod calendar;
pub mod dates;
pub mod duration;
pub mod event;
pub mod occurrence;
pub mod prompt;
pub mod text;
pub mod walltime;
