use sun_times::hdate_get_day_of_year;

fn is_leap(year: i32) -> bool {
    year % 4 == 0 && (year % 100 != 0 || year % 400 == 0)
}

fn month_length(month: i32, year: i32) -> i32 {
    match month {
        2 => {
            if is_leap(year) {
                29
            } else {
                28
            }
        }
        4 | 6 | 9 | 11 => 30,
        _ => 31,
    }
}

#[test]
fn first_of_january_is_day_one() {
    for year in [1, 4, 100, 400, 1582, 1900, 1999, 2000, 2023, 2024, 2100, 9999] {
        assert_eq!(hdate_get_day_of_year(1, 1, year), 1);
    }
}

#[test]
fn last_of_december_counts_the_year() {
    assert_eq!(hdate_get_day_of_year(31, 12, 2023), 365);
    assert_eq!(hdate_get_day_of_year(31, 12, 2024), 366);
    assert_eq!(hdate_get_day_of_year(31, 12, 1900), 365);
    assert_eq!(hdate_get_day_of_year(31, 12, 2000), 366);
    assert_eq!(hdate_get_day_of_year(31, 12, 2100), 365);
    assert_eq!(hdate_get_day_of_year(31, 12, 2400), 366);
}

#[test]
fn march_first_follows_the_leap_rule() {
    assert_eq!(hdate_get_day_of_year(1, 3, 2023), 60);
    assert_eq!(hdate_get_day_of_year(1, 3, 2024), 61);
    assert_eq!(hdate_get_day_of_year(1, 3, 1900), 60);
    assert_eq!(hdate_get_day_of_year(1, 3, 2000), 61);
    assert_eq!(hdate_get_day_of_year(29, 2, 2024), 60);
}

#[test]
fn equinox_dates() {
    assert_eq!(hdate_get_day_of_year(21, 3, 2023), 80);
    assert_eq!(hdate_get_day_of_year(23, 9, 2023), 266);
    assert_eq!(hdate_get_day_of_year(21, 12, 2023), 355);
}

#[test]
fn out_of_range_day_extrapolates() {
    assert_eq!(hdate_get_day_of_year(32, 1, 2023), 32);
    assert_eq!(hdate_get_day_of_year(0, 1, 2023), 0);
    assert_eq!(hdate_get_day_of_year(31, 2, 2023), 62);
}

#[test]
fn every_date_of_a_year_advances_by_one() {
    for year in [1900, 1999, 2000, 2023, 2024] {
        let mut expected = 1;
        for month in 1..=12 {
            for day in 1..=month_length(month, year) {
                assert_eq!(hdate_get_day_of_year(day, month, year), expected);
                expected += 1;
            }
        }
        assert_eq!(expected - 1, if is_leap(year) { 366 } else { 365 });
    }
}
