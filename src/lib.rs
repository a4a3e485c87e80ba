//! Calendar and solar-event arithmetic for sunrise and sunset tables.

pub mod calendar;
pub mod sun_times;

pub use calendar::hdate_get_day_of_year;
pub use sun_times::{SunTimes, NO_CROSSING_MINUTES};
