use vstd::prelude::*;

verus! {

/// The minute count given for both events when the sun never reaches the
/// requested altitude on that date at that latitude (polar day or night).
pub const NO_CROSSING_MINUTES: i32 = -720;

/// Sunrise and sunset of one date, in minutes after 00:00 UTC of that date,
/// rounded to the nearest minute.
///
/// Both fields equal `NO_CROSSING_MINUTES` when the sun does not cross the
/// requested altitude that day.
#[derive(Clone, Copy, Debug, PartialEq, Eq, Structural)]
pub struct SunTimes {
    pub sunrise_minutes: i32,
    pub sunset_minutes: i32,
}

impl SunTimes {
    /// The result for a date on which the sun never reaches the altitude.
    pub fn no_crossing() -> (r: SunTimes)
        ensures
            r.sunrise_minutes == NO_CROSSING_MINUTES,
            r.sunset_minutes == NO_CROSSING_MINUTES,
    {
        SunTimes { sunrise_minutes: NO_CROSSING_MINUTES, sunset_minutes: NO_CROSSING_MINUTES }
    }

    /// Whether this is the result for a date on which the sun never reaches
    /// the altitude.
    pub fn is_no_crossing(&self) -> (r: bool)
        ensures
            r == (self.sunrise_minutes == NO_CROSSING_MINUTES && self.sunset_minutes
                == NO_CROSSING_MINUTES),
    {
        self.sunrise_minutes == NO_CROSSING_MINUTES && self.sunset_minutes == NO_CROSSING_MINUTES
    }
}

} // verus!
