use monash_to_ics::event::XLSEvent;
use monash_to_ics::walltime::{parse_time, WallTime};

#[test]
fn hour_and_minute_are_read() {
    assert_eq!(parse_time("08:32"), Some((8, 32)));
    assert_eq!(parse_time("00:00"), Some((0, 0)));
    assert_eq!(parse_time("23:59"), Some((23, 59)));
}

#[test]
fn four_characters_are_too_few() {
    assert_eq!(parse_time("8:32"), None);
    assert_eq!(XLSEvent::time_from_string("8:32".to_string()), None);
}

#[test]
fn wrong_separator_is_rejected() {
    assert_eq!(parse_time("08-32"), None);
    assert_eq!(parse_time("08.32"), None);
    assert_eq!(parse_time("0832:"), None);
    assert_eq!(parse_time("0:832"), None);
}

#[test]
fn wrong_length_is_rejected() {
    assert_eq!(parse_time(""), None);
    assert_eq!(parse_time("08:3"), None);
    assert_eq!(parse_time("08:320"), None);
    assert_eq!(parse_time(" 08:32"), None);
    assert_eq!(parse_time("08:32 "), None);
}

#[test]
fn fields_must_be_numerals() {
    assert_eq!(parse_time("ab:cd"), None);
    assert_eq!(parse_time("0a:32"), None);
    assert_eq!(parse_time("08:3x"), None);
    assert_eq!(parse_time(" 8:32"), None);
    assert_eq!(parse_time("-8:32"), None);
    assert_eq!(parse_time("\u{663}\u{663}:32"), None);
    assert_eq!(parse_time("a\u{e9}:b"), None);
}

#[test]
fn plus_sign_may_lead_a_field() {
    assert_eq!(parse_time("+8:+5"), Some((8, 5)));
    assert_eq!(parse_time("++:00"), None);
}

#[test]
fn range_is_not_checked_when_reading() {
    assert_eq!(parse_time("99:99"), Some((99, 99)));
    assert_eq!(parse_time("24:60"), Some((24, 60)));
}

#[test]
fn wall_time_is_held_to_the_clock() {
    assert_eq!(WallTime::new(8, 32), Some(WallTime { hour: 8, minute: 32 }));
    assert_eq!(WallTime::new(23, 59), Some(WallTime { hour: 23, minute: 59 }));
    assert_eq!(WallTime::new(24, 0), None);
    assert_eq!(WallTime::new(0, 60), None);
    assert_eq!(WallTime::new(99, 99), None);
}

#[test]
fn time_of_record() {
    let record = XLSEvent::new(
        "FIT1045".to_string(),
        "Lecture".to_string(),
        "Mon".to_string(),
        "14:05".to_string(),
        "Clayton".to_string(),
        "Room 1".to_string(),
        "2 hrs".to_string(),
        "5/3".to_string(),
    );
    assert_eq!(record.get_time(), Some((14, 5)));
}

#[test]
fn reading_time_twice_gives_the_same() {
    for text in ["08:32", "8:32", "08-32", "99:99", ""] {
        assert_eq!(parse_time(text), parse_time(text));
    }
}
