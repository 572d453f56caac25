#![allow(unused_imports)]

use telomere_json::state::{
    BraceState, BracketState, JSONState, NonStringState, PrimValue, StringState,
};
use telomere_json::tokens::{CompletionCheckValues, JSONParseError, RecursiveStructureType, Token};
use telomere_json::lexer::parse_colon;

// Helper functions to create states for tests
fn brace_state(state: BraceState) -> JSONState {
    JSONState::Brace(state)
}

fn bracket_state(state: BracketState) -> JSONState {
    JSONState::Bracket(state)
}

// --- VALID STATE TRANSITION ---

#[test]
fn test_colon_after_closed_key() {
    let mut state = brace_state(BraceState::InKey(StringState::Closed));
    let result = parse_colon(&mut state);
    assert_eq!(result, Ok(Token::Colon));
    assert_eq!(state, brace_state(BraceState::ExpectingValue));
}

// --- VALID CONTENT CASES (COLON INSIDE A STRING) ---

#[test]
fn test_colon_in_open_string_key() {
    let mut state = brace_state(BraceState::InKey(StringState::Open));
    let state_before = state.clone();
    let result = parse_colon(&mut state);
    assert_eq!(result, Ok(Token::StringContent));
    assert_eq!(state, state_before); // State should not change
}

#[test]
fn test_colon_in_open_string_value_in_brace() {
    let mut state = brace_state(BraceState::InValue(PrimValue::String(StringState::Open)));
    let state_before = state.clone();
    let result = parse_colon(&mut state);
    assert_eq!(result, Ok(Token::StringContent));
    assert_eq!(state, state_before);
}

#[test]
fn test_colon_in_open_string_value_in_bracket() {
    let mut state = bracket_state(BracketState::InValue(PrimValue::String(StringState::Open)));
    let state_before = state.clone();
    let result = parse_colon(&mut state);
    assert_eq!(result, Ok(Token::StringContent));
    assert_eq!(state, state_before);
}

// --- INVALID STATE TRANSITIONS ---

#[test]
fn test_error_colon_in_brace_expecting_key() {
    let mut state = brace_state(BraceState::ExpectingKey);
    let result = parse_colon(&mut state);
    assert_eq!(result, Err(JSONParseError::UnexpectedColon));
}

#[test]
fn test_error_colon_in_brace_expecting_value() {
    let mut state = brace_state(BraceState::ExpectingValue);
    let result = parse_colon(&mut state);
    assert_eq!(result, Err(JSONParseError::UnexpectedColon));
}

#[test]
fn test_error_colon_after_string_value() {
    let mut state = brace_state(BraceState::InValue(PrimValue::String(StringState::Closed)));
    let result = parse_colon(&mut state);
    assert_eq!(result, Err(JSONParseError::UnexpectedColon));
}

#[test]
fn test_error_colon_after_non_string_value() {
    let mut state = brace_state(BraceState::InValue(PrimValue::NonString(
        NonStringState::Completable("".to_string()),
    )));
    let result = parse_colon(&mut state);
    assert_eq!(result, Err(JSONParseError::UnexpectedColon));
}

#[test]
fn test_error_colon_in_any_bracket_state() {
    let states = vec![
        bracket_state(BracketState::ExpectingValue),
        bracket_state(BracketState::InValue(PrimValue::NonString(
            NonStringState::Completable("".to_string()),
        ))),
        bracket_state(BracketState::InValue(PrimValue::String(
            StringState::Closed,
        ))),
    ];
    for mut state in states {
        let result = parse_colon(&mut state);
        assert_eq!(result, Err(JSONParseError::UnexpectedColon));
    }
}
