//! Compiles a university timetable into recurring calendar events.
pub mod text;
pub mod time;
pub mod config;
pub mod models;
pub mod request;
pub mod calendar;
pub mod ical;
pub mod cache;
