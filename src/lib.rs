//! Turns a vision model's free-text reading of a ticket into an iCalendar event: field
//! extraction, date normalisation, event synthesis, calendar text, and the one-at-a-time
//! scheduling of tickets from a watched folder.

pub mod datetime;
pub mod encode;
pub mod event;
pub mod fields;
pub mod ics;
pub mod ics_read;
pub mod orchestrator;
pub mod schedule;
pub mod text;
