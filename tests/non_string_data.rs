#![allow(unused_imports)]

use telomere_json::state::{
    BraceState, BracketState, JSONState, NonStringState, PrimValue, StringState,
};
use telomere_json::tokens::{CompletionCheckValues, JSONParseError, RecursiveStructureType, Token};
use telomere_json::lexer::{is_non_string_data, parse_non_string_data};

// Helper functions to create states for tests
fn brace_state(state: BraceState) -> JSONState {
    JSONState::Brace(state)
}

fn bracket_state(state: BracketState) -> JSONState {
    JSONState::Bracket(state)
}

// --- Start Parsing Tests ---

#[test]
fn non_string_data_test_start_literal_in_bracket() {
    let mut state = bracket_state(BracketState::Empty);
    let result = parse_non_string_data('t', &mut state);
    assert_eq!(result, Ok(Token::NonStringData));
    assert_eq!(
        state,
        bracket_state(BracketState::InValue(PrimValue::NonString(
            NonStringState::NonCompletable("t".to_string())
        )))
    );
}

#[test]
fn non_string_data_test_start_number_in_brace() {
    let mut state = brace_state(BraceState::ExpectingValue);
    let result = parse_non_string_data('1', &mut state);
    assert_eq!(result, Ok(Token::NonStringData));
    assert_eq!(
        state,
        brace_state(BraceState::InValue(PrimValue::NonString(
            NonStringState::Completable("1".to_string())
        )))
    );
}

#[test]
fn test_start_minus_in_brace_sets_noncompletable() {
    let mut state = brace_state(BraceState::ExpectingValue);
    let result = parse_non_string_data('-', &mut state);
    assert_eq!(result, Ok(Token::NonStringData));
    assert_eq!(
        state,
        brace_state(BraceState::InValue(PrimValue::NonString(
            NonStringState::NonCompletable("-".to_string())
        )))
    );
}

#[test]
fn test_start_minus_in_bracket_sets_noncompletable() {
    let mut state = bracket_state(BracketState::Empty);
    let result = parse_non_string_data('-', &mut state);
    assert_eq!(result, Ok(Token::NonStringData));
    assert_eq!(
        state,
        bracket_state(BracketState::InValue(PrimValue::NonString(
            NonStringState::NonCompletable("-".to_string())
        )))
    );
}

// --- Continue Parsing Tests ---

#[test]
fn non_string_data_test_continue_valid_literal() {
    let mut state = brace_state(BraceState::InValue(PrimValue::NonString(
        NonStringState::Completable("t".to_string()),
    )));
    let result = parse_non_string_data('r', &mut state);
    assert_eq!(result, Ok(Token::NonStringData));
    assert_eq!(
        state,
        brace_state(BraceState::InValue(PrimValue::NonString(
            NonStringState::NonCompletable("tr".to_string())
        )))
    );
    // 'tr' is still incomplete literal; next 'u' then 'e' will flip
    let _ = parse_non_string_data('u', &mut state);
    let _ = parse_non_string_data('e', &mut state);
    assert_eq!(
        state,
        brace_state(BraceState::InValue(PrimValue::NonString(
            NonStringState::Completable("true".to_string())
        )))
    );
}

#[test]
fn non_string_data_test_continue_valid_number() {
    let mut state = bracket_state(BracketState::InValue(PrimValue::NonString(
        NonStringState::Completable("12".to_string()),
    )));
    let result = parse_non_string_data('3', &mut state);
    assert_eq!(result, Ok(Token::NonStringData));
    assert_eq!(
        state,
        bracket_state(BracketState::InValue(PrimValue::NonString(
            NonStringState::Completable("123".to_string())
        )))
    );
}

#[test]
fn test_number_exponent_incomplete_not_closable_brace() {
    let mut state = brace_state(BraceState::ExpectingValue);
    let _ = parse_non_string_data('1', &mut state);
    let _ = parse_non_string_data('e', &mut state);
    assert_eq!(
        state,
        brace_state(BraceState::InValue(PrimValue::NonString(
            NonStringState::NonCompletable("1e".to_string())
        )))
    );
}

#[test]
fn test_number_exponent_sign_still_incomplete() {
    let mut state = brace_state(BraceState::ExpectingValue);
    let _ = parse_non_string_data('1', &mut state);
    let _ = parse_non_string_data('e', &mut state);
    let _ = parse_non_string_data('+', &mut state);
    assert_eq!(
        state,
        brace_state(BraceState::InValue(PrimValue::NonString(
            NonStringState::NonCompletable("1e+".to_string())
        )))
    );
}

#[test]
fn test_number_exponent_becomes_completable_after_digit() {
    let mut state = brace_state(BraceState::ExpectingValue);
    let _ = parse_non_string_data('1', &mut state);
    let _ = parse_non_string_data('e', &mut state);
    let _ = parse_non_string_data('3', &mut state);
    assert_eq!(
        state,
        brace_state(BraceState::InValue(PrimValue::NonString(
            NonStringState::Completable("1e3".to_string())
        )))
    );
}

#[test]
fn non_string_data_test_continue_to_completion() {
    let mut state = brace_state(BraceState::InValue(PrimValue::NonString(
        NonStringState::Completable("tru".to_string()),
    )));
    let result = parse_non_string_data('e', &mut state);
    assert_eq!(result, Ok(Token::NonStringData));
    assert_eq!(
        state,
        brace_state(BraceState::InValue(PrimValue::NonString(
            NonStringState::Completable("true".to_string())
        )))
    );
}

// --- State Transition to NonCompletable ---

#[test]
fn non_string_data_test_continue_invalid_literal_transitions_to_noncompletable() {
    let mut state = bracket_state(BracketState::InValue(PrimValue::NonString(
        NonStringState::Completable("t".to_string()),
    )));
    let result = parse_non_string_data('x', &mut state);
    assert!(result.is_err());
    assert_eq!(
        state,
        bracket_state(BracketState::InValue(PrimValue::NonString(
            NonStringState::NonCompletable("tx".to_string())
        )))
    );
}

#[test]
fn non_string_data_test_continue_invalid_number_transitions_to_noncompletable() {
    let mut state = brace_state(BraceState::InValue(PrimValue::NonString(
        NonStringState::Completable("12".to_string()),
    )));
    let result = parse_non_string_data('a', &mut state);
    assert!(result.is_err());
    assert_eq!(
        state,
        brace_state(BraceState::InValue(PrimValue::NonString(
            NonStringState::NonCompletable("12a".to_string())
        )))
    );
}

// --- Guard Function Tests ---

#[test]
fn non_string_data_test_is_non_string_data_guard() {
    // Valid start states
    assert!(is_non_string_data(
        't',
        &brace_state(BraceState::ExpectingValue)
    ));
    assert!(is_non_string_data('1', &bracket_state(BracketState::Empty)));
    assert!(is_non_string_data(
        '-',
        &bracket_state(BracketState::ExpectingValue)
    ));

    // Invalid start states
    assert!(!is_non_string_data(
        't',
        &brace_state(BraceState::ExpectingKey)
    ));
    assert!(!is_non_string_data('1', &JSONState::Pending));

    // Valid continue states
    let continue_state = brace_state(BraceState::InValue(PrimValue::NonString(
        NonStringState::Completable("123".to_string()),
    )));
    assert!(is_non_string_data('4', &continue_state));
    assert!(is_non_string_data('a', &continue_state)); // Guard is permissive, parser is strict
}

// Helper functions to create states for tests
// --- Start Parsing Tests ---

#[test]
fn non_string_data_test_start_literal_in_bracket_2() {
    let mut state = bracket_state(BracketState::Empty);
    let result = parse_non_string_data('t', &mut state);
    assert_eq!(result, Ok(Token::NonStringData));
    assert_eq!(
        state,
        bracket_state(BracketState::InValue(PrimValue::NonString(
            NonStringState::NonCompletable("t".to_string())
        )))
    );
}

#[test]
fn non_string_data_test_start_number_in_brace_2() {
    let mut state = brace_state(BraceState::ExpectingValue);
    let result = parse_non_string_data('1', &mut state);
    assert_eq!(result, Ok(Token::NonStringData));
    assert_eq!(
        state,
        brace_state(BraceState::InValue(PrimValue::NonString(
            NonStringState::Completable("1".to_string())
        )))
    );
}

// --- Continue Parsing Tests ---

#[test]
fn non_string_data_test_continue_valid_literal_2() {
    let mut state = brace_state(BraceState::InValue(PrimValue::NonString(
        NonStringState::Completable("t".to_string()),
    )));
    let result = parse_non_string_data('r', &mut state);
    assert_eq!(result, Ok(Token::NonStringData));
    assert_eq!(
        state,
        brace_state(BraceState::InValue(PrimValue::NonString(
            NonStringState::NonCompletable("tr".to_string())
        )))
    );
}

#[test]
fn non_string_data_test_continue_valid_number_2() {
    let mut state = bracket_state(BracketState::InValue(PrimValue::NonString(
        NonStringState::Completable("12".to_string()),
    )));
    let result = parse_non_string_data('3', &mut state);
    assert_eq!(result, Ok(Token::NonStringData));
    assert_eq!(
        state,
        bracket_state(BracketState::InValue(PrimValue::NonString(
            NonStringState::Completable("123".to_string())
        )))
    );
}

#[test]
fn non_string_data_test_continue_to_completion_2() {
    let mut state = brace_state(BraceState::InValue(PrimValue::NonString(
        NonStringState::Completable("tru".to_string()),
    )));
    let result = parse_non_string_data('e', &mut state);
    assert_eq!(result, Ok(Token::NonStringData));
    assert_eq!(
        state,
        brace_state(BraceState::InValue(PrimValue::NonString(
            NonStringState::Completable("true".to_string())
        )))
    );
}

// --- State Transition to NonCompletable ---

#[test]
fn non_string_data_test_continue_invalid_literal_transitions_to_noncompletable_2() {
    let mut state = bracket_state(BracketState::InValue(PrimValue::NonString(
        NonStringState::Completable("t".to_string()),
    )));
    let result = parse_non_string_data('x', &mut state);
    assert!(result.is_err());
    assert_eq!(
        state,
        bracket_state(BracketState::InValue(PrimValue::NonString(
            NonStringState::NonCompletable("tx".to_string())
        )))
    );
}

#[test]
fn non_string_data_test_continue_invalid_number_transitions_to_noncompletable_2() {
    let mut state = brace_state(BraceState::InValue(PrimValue::NonString(
        NonStringState::Completable("12".to_string()),
    )));
    let result = parse_non_string_data('a', &mut state);
    assert!(result.is_err());
    assert_eq!(
        state,
        brace_state(BraceState::InValue(PrimValue::NonString(
            NonStringState::NonCompletable("12a".to_string())
        )))
    );
}

// --- Guard Function Tests ---

#[test]
fn non_string_data_test_is_non_string_data_guard_2() {
    // Valid start states
    assert!(is_non_string_data(
        't',
        &brace_state(BraceState::ExpectingValue)
    ));
    assert!(is_non_string_data('1', &bracket_state(BracketState::Empty)));
    assert!(is_non_string_data(
        '-',
        &bracket_state(BracketState::ExpectingValue)
    ));

    // Invalid start states
    assert!(!is_non_string_data(
        't',
        &brace_state(BraceState::ExpectingKey)
    ));
    assert!(!is_non_string_data('1', &JSONState::Pending));

    // Valid continue states
    let continue_state = brace_state(BraceState::InValue(PrimValue::NonString(
        NonStringState::Completable("123".to_string()),
    )));
    assert!(is_non_string_data('4', &continue_state));
    assert!(is_non_string_data('a', &continue_state)); // Guard is permissive, parser is strict
}
