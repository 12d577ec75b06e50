use chrono::{Datelike, Local};
use monash_to_ics::calendar::CalendarDate;
use monash_to_ics::dates::DateComponent;
use monash_to_ics::event::XLSEvent;

fn date(year: i32, month: u32, day: u32) -> CalendarDate {
    CalendarDate::new(year, month, day).unwrap()
}

#[test]
fn test_dates_from_string() {
    let date_text = "5/3-2/4, 16/4-28/5".to_string();
    let year = Local::now().year();
    assert_eq!(
        vec![
            DateComponent { start: date(year, 3, 5), end: Some(date(year, 4, 2)) },
            DateComponent { start: date(year, 4, 16), end: Some(date(year, 5, 28)) },
        ],
        XLSEvent::dates_from_string(date_text).unwrap()
    );
}

#[test]
fn test_time_from_string() {
    let time = "08:32".to_string();
    assert_eq!((8, 32), XLSEvent::time_from_string(time).unwrap());
}

#[test]
fn record_in_the_current_year() {
    let record = XLSEvent::new(
        "FIT1045".to_string(),
        "Lecture".to_string(),
        "Fri".to_string(),
        "09:00".to_string(),
        "Clayton".to_string(),
        "Room 1".to_string(),
        "50 mins".to_string(),
        "5/3".to_string(),
    );
    let year = Local::now().year();
    assert_eq!(record.duration_in_mins(), Some(50));
    assert_eq!(record.get_time(), Some((9, 0)));
    assert_eq!(
        record.get_dates(),
        Some(vec![DateComponent { start: date(year, 3, 5), end: None }])
    );
    let found = record.occurrences(year).unwrap();
    assert_eq!(found.len(), 1);
    assert_eq!(found[0].start.date, date(year, 3, 5));
    assert_eq!((found[0].start.hour, found[0].start.minute), (9, 0));
    assert_eq!(found[0].end_bound, None);
    assert_eq!(found[0].horizon, None);
    assert_eq!(found[0].duration, 50);
}
