//! Basecamp as a calendar back-end.
//!
//! Schedules become calendars, schedule entries become events, and bookings become schedule
//! entries that can be found again. The library computes and decides; sending requests and
//! reading the database is left to the program around it.

pub mod basecamp;
pub mod decimal;
pub mod error;
pub mod json;
pub mod providers;
pub mod text;
pub mod time;
pub mod utils;
pub mod web;
