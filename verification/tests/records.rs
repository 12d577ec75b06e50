use monash_to_ics::event::{XLSEvent, LARGEST_COLUMN};
use monash_to_ics::prompt::{read_count, read_yes_or_no, strip_line_end};

fn named(subject_code: &str, group: &str) -> XLSEvent {
    XLSEvent::new(
        subject_code.to_string(),
        group.to_string(),
        "Mon".to_string(),
        "09:00".to_string(),
        "Clayton".to_string(),
        "Room 1".to_string(),
        "2 hrs".to_string(),
        "5/3".to_string(),
    )
}

#[test]
fn fields_are_kept_as_given() {
    let record = named("FIT1045", "Lecture");
    assert_eq!(record.location(), "Room 1");
    assert_eq!(record.campus(), "Clayton");
    assert_eq!(record.get_duration(), "2 hrs");
}

#[test]
fn records_compare_by_their_fields() {
    assert_eq!(named("FIT1045", "Lecture"), named("FIT1045", "Lecture"));
    assert_eq!(named("FIT1045", "Lecture"), named("FIT1045", "Lecture").clone());
    assert_ne!(named("FIT1045", "Lecture"), named("FIT1045", "Lab"));
    assert_ne!(named("FIT1045", "Lecture"), named("FIT1046", "Lecture"));
}

#[test]
fn name_keeps_a_short_code() {
    assert_eq!(named("FIT1045", "Lecture").create_name(), "FIT1045 Lecture");
    assert_eq!(named("FIT", "Lab 2").create_name(), "FIT Lab 2");
    assert_eq!(named("", "").create_name(), " ");
}

#[test]
fn name_cuts_a_long_code() {
    assert_eq!(named("FIT1045-S1-01", "Lecture").create_name(), "FIT1045 Lecture");
    assert_eq!(named("12345678", "g").create_name(), "1234567 g");
}

#[test]
fn name_counts_characters() {
    assert_eq!(named("\u{e9}\u{e9}\u{e9}\u{e9}\u{e9}\u{e9}\u{e9}\u{e9}", "g").create_name(),
        "\u{e9}\u{e9}\u{e9}\u{e9}\u{e9}\u{e9}\u{e9} g");
    assert_eq!(named("\u{e9}\u{e9}\u{e9}\u{e9}", "g").create_name(), "\u{e9}\u{e9}\u{e9}\u{e9} g");
}

#[test]
fn record_from_row() {
    let row: Vec<String> =
        ["FIT1045", "a", "Lecture", "b", "Mon", "09:00", "Clayton", "Room 1", "c", "2 hrs", "5/3"]
            .iter()
            .map(|cell| cell.to_string())
            .collect();
    let record = XLSEvent::from_row(&row).unwrap();
    assert_eq!(record.create_name(), "FIT1045 Lecture");
    assert_eq!(record.get_time(), Some((9, 0)));
    assert_eq!(record.campus(), "Clayton");
    assert_eq!(record.location(), "Room 1");
    assert_eq!(record.get_duration(), "2 hrs");
    assert_eq!(record.duration_in_mins(), Some(120));
    assert_eq!(record.get_dates_in(2021).map(|dates| dates.len()), Some(1));
}

#[test]
fn short_row_holds_no_record() {
    assert_eq!(LARGEST_COLUMN, 10);
    let row: Vec<String> = (0..10).map(|cell| cell.to_string()).collect();
    assert!(XLSEvent::from_row(&row).is_none());
    assert!(XLSEvent::from_row(&Vec::new()).is_none());
    let row: Vec<String> = (0..12).map(|cell| cell.to_string()).collect();
    assert_eq!(XLSEvent::from_row(&row).unwrap().get_duration(), "9");
}

#[test]
fn line_end_is_taken_off_once() {
    assert_eq!(strip_line_end("y\n"), "y");
    assert_eq!(strip_line_end("y"), "y");
    assert_eq!(strip_line_end("y\n\n"), "y\n");
    assert_eq!(strip_line_end("\n"), "");
    assert_eq!(strip_line_end(""), "");
    assert_eq!(strip_line_end("y\r\n"), "y\r");
}

#[test]
fn yes_and_no() {
    assert_eq!(read_yes_or_no("y\n"), Some(true));
    assert_eq!(read_yes_or_no("Y\n"), Some(true));
    assert_eq!(read_yes_or_no("n\n"), Some(false));
    assert_eq!(read_yes_or_no("N"), Some(false));
    assert_eq!(read_yes_or_no("yes\n"), None);
    assert_eq!(read_yes_or_no("\n"), None);
    assert_eq!(read_yes_or_no(" y\n"), None);
    assert_eq!(read_yes_or_no("y\r\n"), None);
}

#[test]
fn counts() {
    assert_eq!(read_count("50\n"), Some(50));
    assert_eq!(read_count("0"), Some(0));
    assert_eq!(read_count("+7\n"), Some(7));
    assert_eq!(read_count("007\n"), Some(7));
    assert_eq!(read_count("\n"), None);
    assert_eq!(read_count("-7\n"), None);
    assert_eq!(read_count("7 \n"), None);
    assert_eq!(read_count("7.5\n"), None);
    assert_eq!(read_count("+\n"), None);
    assert_eq!(read_count(&format!("{}\n", usize::MAX)), Some(usize::MAX));
    assert_eq!(read_count("99999999999999999999999999\n"), None);
}
