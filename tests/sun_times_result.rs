use sun_times::{SunTimes, NO_CROSSING_MINUTES};

#[test]
fn no_crossing_uses_the_sentinel() {
    let t = SunTimes::no_crossing();
    assert_eq!(t.sunrise_minutes, -720);
    assert_eq!(t.sunset_minutes, -720);
    assert_eq!(NO_CROSSING_MINUTES, -720);
    assert!(t.is_no_crossing());
}

#[test]
fn ordinary_times_are_not_the_sentinel() {
    let t = SunTimes { sunrise_minutes: 354, sunset_minutes: 1086 };
    assert!(!t.is_no_crossing());
    let half = SunTimes { sunrise_minutes: -720, sunset_minutes: 1086 };
    assert!(!half.is_no_crossing());
}
