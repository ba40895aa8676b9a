use remind::parser::try_parse;
use remind::parser::ParseError;
use remind::parser::Reminder;

/// The reference time of day used by most cases: 13:51:30.
fn now() -> u32 {
    13 * 3600 + 51 * 60 + 30
}

fn to_slice(s: &str) -> Vec<String> {
    s.split_ascii_whitespace().map(|w| w.to_string()).collect()
}

#[test]
fn test_parse_empty() {
    let result = try_parse(&Vec::new(), now());
    assert!(result.is_err());
}

#[test]
fn test_parse_only_command() {
    let result = try_parse(&to_slice("remind"), now());
    assert!(result.is_err());
}

#[test]
fn test_parse_only_me() {
    let result = try_parse(&to_slice("remind me"), now());
    assert!(result.is_err());
}

#[test]
fn test_parse_only_action() {
    let result = try_parse(&to_slice("remind work"), now());
    assert_eq!(
        result,
        Ok(Reminder {
            time: 0,
            action: "work".to_string(),
        })
    );
}

#[test]
fn test_parse_time_and_action() {
    let result = try_parse(&to_slice("remind in 5 minutes to ask"), now());
    assert_eq!(
        result,
        Ok(Reminder {
            time: 5 * 60,
            action: "ask".to_string(),
        })
    );
}

#[test]
fn test_parse_to_action_and_time() {
    let result = try_parse(&to_slice("remind to ask in 5 minutes"), now());
    assert_eq!(
        result,
        Ok(Reminder {
            time: 5 * 60,
            action: "ask".to_string(),
        })
    );
}

#[test]
fn test_parse_me_and_action_and_time() {
    let result = try_parse(&to_slice("remind me to ask something in 5 minutes"), now());
    assert_eq!(
        result,
        Ok(Reminder {
            time: 5 * 60,
            action: "ask something".to_string(),
        })
    );
}

#[test]
fn test_parse_action_and_time() {
    let result = try_parse(&to_slice("remind closing something in 5 minutes"), now());
    assert_eq!(
        result,
        Ok(Reminder {
            time: 5 * 60,
            action: "closing something".to_string(),
        })
    );
}

#[test]
fn test_parse_action_and_at_time() {
    let now = 13 * 3600 + 51 * 60 + 30;
    let result = try_parse(&to_slice("remind me to do something at 14:10"), now);
    assert_eq!(
        result,
        Ok(Reminder {
            time: 18 * 60 + 30,
            action: "do something".to_string(),
        })
    );
}

#[test]
fn test_parse_action_and_at_time_seconds() {
    let now = 13 * 3600 + 51 * 60 + 30;
    let result = try_parse(&to_slice("remind me to do something at 14:10:31"), now);
    assert_eq!(
        result,
        Ok(Reminder {
            time: 19 * 60 + 1,
            action: "do something".to_string(),
        })
    );
}

#[test]
fn test_parse_negative_time() {
    let now = 13 * 3600 + 51 * 60 + 30;
    let result = try_parse(&to_slice("remind me to do something at 7:10:31"), now);
    assert!(result.is_err());
}

#[test]
fn test_parse_several_in() {
    let result = try_parse(
        &to_slice("remind me to write asdf in the notebook in 10 minutes"),
        now(),
    );
    assert_eq!(
        result,
        Ok(Reminder {
            time: 10 * 60,
            action: "write asdf in the notebook".to_string(),
        })
    );
}

#[test]
fn unit_seconds_scale_by_one() {
    let result = try_parse(&to_slice("remind in 2 seconds to blink"), now());
    assert_eq!(
        result,
        Ok(Reminder {
            time: 2,
            action: "blink".to_string(),
        })
    );
    let result = try_parse(&to_slice("remind in 1 second to blink"), now());
    assert_eq!(
        result,
        Ok(Reminder {
            time: 1,
            action: "blink".to_string(),
        })
    );
}

#[test]
fn unit_minutes_scale_by_sixty() {
    let result = try_parse(&to_slice("remind in 3 minutes to stretch"), now());
    assert_eq!(
        result,
        Ok(Reminder {
            time: 3 * 60,
            action: "stretch".to_string(),
        })
    );
    let result = try_parse(&to_slice("remind in 1 minute to stretch"), now());
    assert_eq!(
        result,
        Ok(Reminder {
            time: 60,
            action: "stretch".to_string(),
        })
    );
}

#[test]
fn unit_hours_scale_by_three_thousand_six_hundred() {
    let result = try_parse(&to_slice("remind in 2 hours to leave"), now());
    assert_eq!(
        result,
        Ok(Reminder {
            time: 2 * 3600,
            action: "leave".to_string(),
        })
    );
    let result = try_parse(&to_slice("remind in 1 hour to leave"), now());
    assert_eq!(
        result,
        Ok(Reminder {
            time: 3600,
            action: "leave".to_string(),
        })
    );
}

#[test]
fn count_with_plus_sign_is_accepted() {
    let result = try_parse(&to_slice("remind in +5 minutes to ask"), now());
    assert_eq!(
        result,
        Ok(Reminder {
            time: 5 * 60,
            action: "ask".to_string(),
        })
    );
}

#[test]
fn largest_count_is_accepted() {
    let result = try_parse(
        &to_slice("remind in 18446744073709551615 seconds to wait"),
        now(),
    );
    assert_eq!(
        result,
        Ok(Reminder {
            time: u64::MAX,
            action: "wait".to_string(),
        })
    );
}

#[test]
fn count_over_u64_is_invalid_duration() {
    let result = try_parse(
        &to_slice("remind in 18446744073709551616 seconds to wait"),
        now(),
    );
    assert_eq!(result, Err(ParseError::InvalidDuration));
}

#[test]
fn overflowing_unit_product_is_invalid_duration() {
    let result = try_parse(
        &to_slice("remind in 18446744073709551615 hours to wait"),
        now(),
    );
    assert_eq!(result, Err(ParseError::InvalidDuration));
}

#[test]
fn missing_action_after_duration() {
    let result = try_parse(&to_slice("remind in 5 minutes"), now());
    assert_eq!(result, Err(ParseError::MissingAction));
}

#[test]
fn marker_alone_is_missing_action() {
    let result = try_parse(&to_slice("remind to"), now());
    assert_eq!(result, Err(ParseError::MissingAction));
}

#[test]
fn missing_duration_after_in() {
    let result = try_parse(&to_slice("remind me in"), now());
    assert_eq!(result, Err(ParseError::MissingDuration));
}

#[test]
fn non_numeric_count_is_invalid_duration() {
    let result = try_parse(&to_slice("remind in five minutes to ask"), now());
    assert_eq!(result, Err(ParseError::InvalidDuration));
}

#[test]
fn missing_unit_after_count() {
    let result = try_parse(&to_slice("remind in 5"), now());
    assert_eq!(result, Err(ParseError::MissingUnit));
}

#[test]
fn unknown_unit_is_invalid_unit() {
    let result = try_parse(&to_slice("remind in 5 lightyears to ask"), now());
    assert_eq!(result, Err(ParseError::InvalidUnit));
}

#[test]
fn missing_time_after_at() {
    let result = try_parse(&to_slice("remind me at"), now());
    assert_eq!(result, Err(ParseError::MissingTime));
}

#[test]
fn malformed_clock_time_is_invalid_time() {
    let result = try_parse(&to_slice("remind at 25:61 to ask"), now());
    assert_eq!(result, Err(ParseError::InvalidTime));
    let result = try_parse(&to_slice("remind at noon to ask"), now());
    assert_eq!(result, Err(ParseError::InvalidTime));
}

#[test]
fn past_time_is_time_in_past() {
    let result = try_parse(&to_slice("remind me to do something at 7:10:31"), now());
    assert_eq!(result, Err(ParseError::TimeInPast));
}

#[test]
fn equal_time_gives_zero_wait() {
    let result = try_parse(&to_slice("remind me to check at 13:51:30"), now());
    assert_eq!(
        result,
        Ok(Reminder {
            time: 0,
            action: "check".to_string(),
        })
    );
}

#[test]
fn exactly_one_marker_is_stripped() {
    let result = try_parse(&to_slice("remind to that task in 5 minutes"), now());
    assert_eq!(
        result,
        Ok(Reminder {
            time: 5 * 60,
            action: "that task".to_string(),
        })
    );
}

#[test]
fn last_at_wins_inside_action() {
    let result = try_parse(&to_slice("remind me to meet at the cafe at 14:10"), now());
    assert_eq!(
        result,
        Ok(Reminder {
            time: 18 * 60 + 30,
            action: "meet at the cafe".to_string(),
        })
    );
}

#[test]
fn trailing_in_clause_beats_at_clause() {
    let result = try_parse(
        &to_slice("remind to write in x at 7:00 in 2 minutes"),
        now(),
    );
    assert_eq!(
        result,
        Ok(Reminder {
            time: 2 * 60,
            action: "write in x at 7:00".to_string(),
        })
    );
}

#[test]
fn tokens_after_trailing_clause_are_dropped() {
    let result = try_parse(&to_slice("remind task in 5 minutes extra"), now());
    assert_eq!(
        result,
        Ok(Reminder {
            time: 5 * 60,
            action: "task".to_string(),
        })
    );
}

#[test]
fn me_can_be_the_action() {
    let result = try_parse(&to_slice("remind me me"), now());
    assert_eq!(
        result,
        Ok(Reminder {
            time: 0,
            action: "me".to_string(),
        })
    );
}

#[test]
fn action_splits_back_into_its_tokens() {
    let input = to_slice("remind me to write asdf in the notebook in 10 minutes");
    let result = try_parse(&input, now()).unwrap();
    let resplit = to_slice(&result.action);
    assert_eq!(resplit, to_slice("write asdf in the notebook"));
    assert_eq!(resplit, input[3..8].to_vec());
}

#[test]
fn error_messages_are_fixed() {
    let e = try_parse(&to_slice("remind in five minutes to ask"), now()).unwrap_err();
    assert_eq!(e.message(), "Expected a time interval");
    let e = try_parse(&to_slice("remind"), now()).unwrap_err();
    assert_eq!(
        e.message(),
        "Expected an action, 'at' <time>, 'in <time interval>', or 'me'"
    );
    let e = try_parse(&to_slice("remind me"), now()).unwrap_err();
    assert_eq!(
        e.message(),
        "Expected an action, 'at' <time> or 'in <time interval>'"
    );
    let e = try_parse(&to_slice("remind me to do something at 7:10:31"), now()).unwrap_err();
    assert_eq!(e.message(), "Time should not be in the past");
}

#[test]
fn missing_input_points_of_failure_are_distinct() {
    let result = try_parse(&to_slice("remind"), now());
    assert_eq!(result, Err(ParseError::MissingInput { after_me: false }));
    let result = try_parse(&to_slice("remind me"), now());
    assert_eq!(result, Err(ParseError::MissingInput { after_me: true }));
}

#[test]
fn trailing_marker_alone_is_missing_action() {
    let result = try_parse(&to_slice("remind in 5 minutes to"), now());
    assert_eq!(result, Err(ParseError::MissingAction));
    let result = try_parse(&to_slice("remind at 14:10 that"), now());
    assert_eq!(result, Err(ParseError::MissingAction));
}

#[test]
fn empty_action_before_trailing_clause_is_missing_action() {
    let result = try_parse(&to_slice("remind to in 5 minutes"), now());
    assert_eq!(result, Err(ParseError::MissingAction));
    let result = try_parse(&to_slice("remind me that at 14:10"), now());
    assert_eq!(result, Err(ParseError::MissingAction));
}
