use enkronio::work_period::{format_duration, format_duration_years_only, months_between, sum_durations, Date};

#[test]
fn test_format_duration() {
    assert_eq!(format_duration(0, 0), "0 months");
    assert_eq!(format_duration(0, 1), "1 month");
    assert_eq!(format_duration(0, 5), "5 months");
    assert_eq!(format_duration(1, 0), "1 year");
    assert_eq!(format_duration(2, 0), "2 years");
    assert_eq!(format_duration(2, 10), "2 years, 10 months");
    assert_eq!(format_duration(1, 1), "1 year, 1 month");
}

#[test]
fn test_sum_durations() {
    let durations = vec![(2, 10), (3, 5), (2, 2)];
    let (years, months) = sum_durations(&durations);
    // 2*12+10 + 3*12+5 + 2*2+2 = 34 + 41 + 26 = 101 months = 8 years, 5 months
    assert_eq!(years, 8);
    assert_eq!(months, 5);
}

#[test]
fn test_format_duration_years_only() {
    assert_eq!(format_duration_years_only(9, 2), "9 years"); // 9y2m rounds down to 9y
    assert_eq!(format_duration_years_only(9, 6), "10 years"); // 9y6m rounds up to 10y
    assert_eq!(format_duration_years_only(9, 11), "10 years"); // 9y11m rounds up to 10y
    assert_eq!(format_duration_years_only(1, 0), "1 year"); // singular
    assert_eq!(format_duration_years_only(0, 5), "0 years"); // less than 6 months = 0 years
    assert_eq!(format_duration_years_only(0, 9), "1 year"); // 9 months rounds to 1 year
}

#[test]
fn test_sum_durations_negative_total() {
    let durations = vec![(-1, -3), (0, 2)];
    let (years, months) = sum_durations(&durations);
    // -15 + 2 = -13 months = -1 year, -1 month with truncating division
    assert_eq!(years, -1);
    assert_eq!(months, -1);
}

#[test]
fn test_months_between() {
    let start = Date::from_ymd(2022, 12, 1);
    let end = Date::from_ymd(2025, 10, 1);
    let (years, months) = months_between(start, end);
    assert_eq!(years, 2);
    assert_eq!(months, 10);
}

#[test]
fn test_months_between_day_borrow() {
    let start = Date::from_ymd(2020, 1, 20);
    let end = Date::from_ymd(2020, 3, 10);
    let (years, months) = months_between(start, end);
    assert_eq!(years, 0);
    assert_eq!(months, 1);
}

#[test]
fn test_date_accessors() {
    let d = Date::from_ymd(2022, 12, 1);
    assert_eq!(d.year(), 2022);
    assert_eq!(d.month(), 12);
    assert_eq!(d.day(), 1);
}
