use monash_to_ics::calendar::{CalendarDate, Timestamp, MAX_YEAR, MIN_YEAR};

fn stamp(year: i32, month: u32, day: u32, hour: u32, minute: u32) -> Timestamp {
    Timestamp { date: CalendarDate::new(year, month, day).unwrap(), hour, minute }
}

#[test]
fn dates_that_exist() {
    assert_eq!(CalendarDate::new(2021, 3, 5), Some(CalendarDate { year: 2021, month: 3, day: 5 }));
    assert_eq!(
        CalendarDate::new(2021, 12, 31),
        Some(CalendarDate { year: 2021, month: 12, day: 31 })
    );
    assert_eq!(CalendarDate::new(2024, 2, 29), Some(CalendarDate { year: 2024, month: 2, day: 29 }));
    assert_eq!(CalendarDate::new(2000, 2, 29), Some(CalendarDate { year: 2000, month: 2, day: 29 }));
}

#[test]
fn dates_that_do_not_exist() {
    assert_eq!(CalendarDate::new(2021, 2, 29), None);
    assert_eq!(CalendarDate::new(1900, 2, 29), None);
    assert_eq!(CalendarDate::new(2021, 4, 31), None);
    assert_eq!(CalendarDate::new(2021, 0, 1), None);
    assert_eq!(CalendarDate::new(2021, 13, 1), None);
    assert_eq!(CalendarDate::new(2021, 1, 0), None);
    assert_eq!(CalendarDate::new(2021, 1, 32), None);
    assert_eq!(CalendarDate::new(2021, u32::MAX, u32::MAX), None);
}

#[test]
fn every_month_has_its_length() {
    let lengths = [31, 28, 31, 30, 31, 30, 31, 31, 30, 31, 30, 31];
    for (index, length) in lengths.iter().enumerate() {
        let month = index as u32 + 1;
        assert!(CalendarDate::new(2021, month, *length).is_some());
        assert!(CalendarDate::new(2021, month, *length + 1).is_none());
    }
}

#[test]
fn years_have_bounds() {
    assert_eq!(MIN_YEAR, -262143);
    assert_eq!(MAX_YEAR, 262142);
    assert!(CalendarDate::new(MAX_YEAR, 12, 31).is_some());
    assert!(CalendarDate::new(MAX_YEAR + 1, 1, 1).is_none());
    assert!(CalendarDate::new(MIN_YEAR, 1, 1).is_some());
    assert!(CalendarDate::new(MIN_YEAR - 1, 12, 31).is_none());
    assert!(CalendarDate::new(i32::MIN, 1, 1).is_none());
}

#[test]
fn validity_of_dates_and_timestamps() {
    assert!(CalendarDate { year: 2021, month: 3, day: 5 }.is_valid());
    assert!(!CalendarDate { year: 2021, month: 2, day: 29 }.is_valid());
    assert!(!CalendarDate { year: MAX_YEAR + 1, month: 1, day: 1 }.is_valid());
    assert!(stamp(2021, 3, 5, 23, 59).is_valid());
    assert!(!stamp(2021, 3, 5, 24, 0).is_valid());
    assert!(!stamp(2021, 3, 5, 0, 60).is_valid());
    let nowhere = Timestamp { date: CalendarDate { year: 2021, month: 4, day: 31 }, hour: 0, minute: 0 };
    assert!(!nowhere.is_valid());
    assert_eq!(nowhere.plus_minutes(5), None);
    assert_eq!(stamp(2021, 3, 5, 24, 0).plus_minutes(5), None);
    assert_eq!(stamp(2021, 3, 5, 0, 60).plus_minutes(0), None);
}

#[test]
fn minutes_within_the_hour() {
    assert_eq!(stamp(2021, 3, 5, 9, 0).plus_minutes(50), Some(stamp(2021, 3, 5, 9, 50)));
    assert_eq!(stamp(2021, 3, 5, 9, 0).plus_minutes(0), Some(stamp(2021, 3, 5, 9, 0)));
}

#[test]
fn minutes_carry_into_hours_and_days() {
    assert_eq!(stamp(2021, 3, 5, 9, 30).plus_minutes(45), Some(stamp(2021, 3, 5, 10, 15)));
    assert_eq!(stamp(2021, 3, 5, 23, 30).plus_minutes(45), Some(stamp(2021, 3, 6, 0, 15)));
    assert_eq!(stamp(2021, 3, 5, 9, 0).plus_minutes(1440), Some(stamp(2021, 3, 6, 9, 0)));
}

#[test]
fn minutes_carry_into_months_and_years() {
    assert_eq!(stamp(2021, 4, 30, 23, 55).plus_minutes(10), Some(stamp(2021, 5, 1, 0, 5)));
    assert_eq!(stamp(2021, 12, 31, 23, 55).plus_minutes(10), Some(stamp(2022, 1, 1, 0, 5)));
    assert_eq!(stamp(2021, 1, 1, 0, 0).plus_minutes(525600), Some(stamp(2022, 1, 1, 0, 0)));
    assert_eq!(stamp(2024, 1, 1, 0, 0).plus_minutes(525600), Some(stamp(2024, 12, 31, 0, 0)));
}

#[test]
fn minutes_know_the_leap_day() {
    assert_eq!(stamp(2024, 2, 28, 12, 0).plus_minutes(1440), Some(stamp(2024, 2, 29, 12, 0)));
    assert_eq!(stamp(2023, 2, 28, 12, 0).plus_minutes(1440), Some(stamp(2023, 3, 1, 12, 0)));
    assert_eq!(stamp(1900, 2, 28, 12, 0).plus_minutes(1440), Some(stamp(1900, 3, 1, 12, 0)));
}

#[test]
fn lengths_of_time() {
    assert_eq!(stamp(2021, 3, 5, 9, 0).later_by(0), Some(stamp(2021, 3, 5, 9, 0)));
    assert_eq!(stamp(2021, 3, 5, 9, 0).later_by(125), Some(stamp(2021, 3, 5, 11, 5)));
    assert_eq!(stamp(2021, 3, 5, 9, 0).later_by(u64::MAX), None);
    assert_eq!(stamp(2021, 3, 5, 9, 0).later_by(i64::MAX as u64 + 1), None);
    assert_eq!(stamp(2021, 3, 5, 24, 0).later_by(1), None);
}

#[test]
fn minutes_may_go_back() {
    assert_eq!(stamp(2021, 3, 1, 0, 5).plus_minutes(-10), Some(stamp(2021, 2, 28, 23, 55)));
    assert_eq!(stamp(1, 1, 1, 0, 0).plus_minutes(-1), Some(stamp(0, 12, 31, 23, 59)));
}

#[test]
fn minutes_past_the_last_day() {
    assert_eq!(stamp(MAX_YEAR, 12, 31, 23, 59).plus_minutes(1), None);
    assert_eq!(stamp(MAX_YEAR, 12, 31, 23, 58).plus_minutes(1), Some(stamp(MAX_YEAR, 12, 31, 23, 59)));
    assert_eq!(stamp(MIN_YEAR, 1, 1, 0, 0).plus_minutes(-1), None);
    assert_eq!(stamp(2021, 3, 5, 9, 0).plus_minutes(i64::MAX), None);
    assert_eq!(stamp(2021, 3, 5, 9, 0).plus_minutes(i64::MIN), None);
}
