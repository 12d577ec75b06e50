use monash_to_ics::duration::parse_duration;
use monash_to_ics::event::XLSEvent;

fn record_with_duration(duration: &str) -> XLSEvent {
    XLSEvent::new(
        "FIT1045".to_string(),
        "Lecture".to_string(),
        "Mon".to_string(),
        "09:00".to_string(),
        "Clayton".to_string(),
        "Room 1".to_string(),
        duration.to_string(),
        "5/3".to_string(),
    )
}

#[test]
fn hours_are_sixty_minutes() {
    assert_eq!(parse_duration("2 hrs"), Some(120));
    assert_eq!(parse_duration("1 hr"), Some(60));
    assert_eq!(parse_duration("0 hr"), Some(0));
}

#[test]
fn hours_in_either_case() {
    assert_eq!(parse_duration("2 HRS"), Some(120));
    assert_eq!(parse_duration("2 Hr"), Some(120));
    assert_eq!(parse_duration("2 hRs"), Some(120));
}

#[test]
fn fractional_hours_round_toward_zero() {
    assert_eq!(parse_duration("1.5 hr"), Some(90));
    assert_eq!(parse_duration("1.99 hr"), Some(119));
    assert_eq!(parse_duration("0.35 hr"), Some(21));
    assert_eq!(parse_duration("1.15 hrs"), Some(69));
    assert_eq!(parse_duration("2.05 hrs"), Some(123));
    assert_eq!(parse_duration("4.10 hr"), Some(246));
    assert_eq!(parse_duration("0.01 hr"), Some(0));
    assert_eq!(parse_duration("0.99 hrs"), Some(59));
}

#[test]
fn long_fractions_are_read_in_full() {
    assert_eq!(parse_duration("0.016666666666666666666666666666 hr"), Some(0));
    assert_eq!(parse_duration("0.016666666666666666666666666667 hr"), Some(1));
    assert_eq!(parse_duration("0.999999999999999999999999999999"), Some(0));
}

#[test]
fn other_units_are_minutes() {
    assert_eq!(parse_duration("50 mins"), Some(50));
    assert_eq!(parse_duration("50 min"), Some(50));
    assert_eq!(parse_duration("2 hours"), Some(2));
    assert_eq!(parse_duration("2 h"), Some(2));
    assert_eq!(parse_duration("1 hr 50"), Some(1));
    assert_eq!(parse_duration("90.7 minutes"), Some(90));
}

#[test]
fn no_unit_is_minutes() {
    assert_eq!(parse_duration("50"), Some(50));
    assert_eq!(parse_duration("50 "), Some(50));
    assert_eq!(parse_duration("1.9"), Some(1));
}

#[test]
fn amount_ends_at_first_other_character() {
    assert_eq!(parse_duration("50mins"), Some(50));
    assert_eq!(parse_duration("1x5 hr"), Some(1));
    assert_eq!(parse_duration("1 5 hr"), Some(1));
    assert_eq!(parse_duration("7,5 hr"), Some(7));
}

#[test]
fn character_that_ends_the_amount_is_passed_over() {
    assert_eq!(parse_duration("2hrs"), Some(2));
    assert_eq!(parse_duration("2hr"), Some(2));
    assert_eq!(parse_duration("2xhrs"), Some(120));
    assert_eq!(parse_duration("2x hr"), Some(120));
    assert_eq!(parse_duration("2 hr"), Some(120));
    assert_eq!(parse_duration("2x"), Some(2));
}

#[test]
fn unit_is_trimmed() {
    assert_eq!(parse_duration("2   hr"), Some(120));
    assert_eq!(parse_duration("2 hrs  "), Some(120));
    assert_eq!(parse_duration("2\thr\n"), Some(120));
    assert_eq!(parse_duration("2\u{a0}hr"), Some(120));
}

#[test]
fn point_without_digits_on_one_side() {
    assert_eq!(parse_duration(".5 hr"), Some(30));
    assert_eq!(parse_duration("5. hr"), Some(300));
    assert_eq!(parse_duration("5."), Some(5));
}

#[test]
fn no_amount_is_no_duration() {
    assert_eq!(parse_duration(""), None);
    assert_eq!(parse_duration("hrs"), None);
    assert_eq!(parse_duration(" 5"), None);
    assert_eq!(parse_duration("a5"), None);
    assert_eq!(parse_duration("-5"), None);
}

#[test]
fn malformed_amount_is_no_duration() {
    assert_eq!(parse_duration("."), None);
    assert_eq!(parse_duration(". hr"), None);
    assert_eq!(parse_duration("1.2.3"), None);
    assert_eq!(parse_duration("1..2"), None);
    assert_eq!(parse_duration("\u{663}"), None);
    assert_eq!(parse_duration("5\u{bd} hr"), None);
}

#[test]
fn huge_amounts_saturate() {
    assert_eq!(parse_duration("99999999999999999999999999999999"), Some(usize::MAX));
    assert_eq!(parse_duration("99999999999999999999999999999999 hrs"), Some(usize::MAX));
    assert_eq!(parse_duration("18446744073709551615"), Some(usize::MAX));
}

#[test]
fn leading_zeros_do_not_count() {
    assert_eq!(parse_duration("0000000000000000000000000000002 hr"), Some(120));
}

#[test]
fn duration_of_record() {
    assert_eq!(record_with_duration("2 hrs").duration_in_mins(), Some(120));
    assert_eq!(record_with_duration("50 mins").duration_in_mins(), Some(50));
    assert_eq!(record_with_duration("soon").duration_in_mins(), None);
    assert_eq!(record_with_duration("2 hrs").get_duration(), "2 hrs");
}

#[test]
fn reading_duration_twice_gives_the_same() {
    for text in ["2 hrs", "1.5 hr", "x", "", "50 mins"] {
        assert_eq!(parse_duration(text), parse_duration(text));
    }
}
