use wordle_timer_bot::duration::{format_duration, format_duration_parts, u64_to_string};
use wordle_timer_bot::events::{completion_description, validate_message, MessageRejection, WORDLE_APP_ID};

#[test]
fn duration_components_render_expected_strings() {
    assert_eq!(format_duration_parts(0, 0, 5, 250), "5.250 seconds");
    assert_eq!(format_duration_parts(1, 0, 0, 0), "1 hour and 0.000 seconds");
    assert_eq!(format_duration_parts(2, 3, 4, 5), "2 hours, 3 minutes and 4.005 seconds");
}

#[test]
fn duration_pluralization_and_padding() {
    assert_eq!(format_duration_parts(0, 1, 1, 0), "1 minute and 1.000 second");
    assert_eq!(format_duration_parts(0, 2, 0, 7), "2 minutes and 0.007 seconds");
    assert_eq!(format_duration_parts(0, 0, 12, 500), "12.500 seconds");
    assert_eq!(format_duration_parts(123, 0, 0, 99), "123 hours and 0.099 seconds");
}

#[test]
fn duration_from_milliseconds_splits_units() {
    // 1 h 2 min 5 s 4 ms.
    assert_eq!(format_duration(3_725_004), "1 hour, 2 minutes and 5.004 seconds");
    assert_eq!(format_duration(0), "0.000 seconds");
    assert_eq!(format_duration(59_999), "59.999 seconds");
    assert_eq!(format_duration(60_000), "1 minute and 0.000 seconds");
}

#[test]
fn decimal_rendering() {
    assert_eq!(u64_to_string(0), "0");
    assert_eq!(u64_to_string(7), "7");
    assert_eq!(u64_to_string(105), "105");
    assert_eq!(u64_to_string(18446744073709551615), "18446744073709551615");
}

#[test]
fn completion_description_embeds_duration() {
    assert_eq!(
        completion_description("alice", 3_725_004, false),
        "alice finished their Wordle in **1 hour, 2 minutes and 5.004 seconds**!"
    );
    assert_eq!(
        completion_description("bob", 5_250, true),
        "bob finished their Wordle in **5.250 seconds**! (Updated)"
    );
}

#[test]
fn message_validation_checks_author_and_channel() {
    assert_eq!(validate_message(WORDLE_APP_ID, "daily-puzzles", "daily-puzzles"), Ok(()));
    // Channel names compare ignoring ASCII case.
    assert_eq!(validate_message(WORDLE_APP_ID, "Daily-Puzzles", "daily-puzzles"), Ok(()));
    assert_eq!(
        validate_message(12345, "daily-puzzles", "daily-puzzles"),
        Err(MessageRejection::NotFromApp)
    );
    assert_eq!(
        validate_message(WORDLE_APP_ID, "general", "daily-puzzles"),
        Err(MessageRejection::WrongChannel)
    );
    assert_eq!(
        validate_message(WORDLE_APP_ID, "daily-puzzle", "daily-puzzles"),
        Err(MessageRejection::WrongChannel)
    );
}
