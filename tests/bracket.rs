#![allow(unused_imports)]

use telomere_json::state::{
    BraceState, BracketState, JSONState, NonStringState, PrimValue, StringState,
};
use telomere_json::tokens::{CompletionCheckValues, JSONParseError, RecursiveStructureType, Token};
use telomere_json::lexer::parse_bracket;

// Helper functions to create states for tests
fn brace_state(state: BraceState) -> JSONState {
    JSONState::Brace(state)
}

fn bracket_state(state: BracketState) -> JSONState {
    JSONState::Bracket(state)
}

// --- OPEN BRACKET TESTS ---

#[test]
fn test_open_bracket_from_pending_state() {
    let mut state = JSONState::Pending;
    let result = parse_bracket(RecursiveStructureType::Open, &mut state);
    assert_eq!(result, Ok(Token::OpenBracket));
    assert_eq!(state, bracket_state(BracketState::Empty));
}

#[test]
fn test_open_bracket_when_expecting_value_in_brace() {
    let mut state = brace_state(BraceState::ExpectingValue);
    let result = parse_bracket(RecursiveStructureType::Open, &mut state);
    assert_eq!(result, Ok(Token::OpenBracket));
    assert_eq!(state, bracket_state(BracketState::Empty));
}

#[test]
fn test_open_bracket_when_expecting_value_in_bracket() {
    let mut state = bracket_state(BracketState::ExpectingValue);
    let result = parse_bracket(RecursiveStructureType::Open, &mut state);
    assert_eq!(result, Ok(Token::OpenBracket));
    assert_eq!(state, bracket_state(BracketState::Empty));
}

#[test]
fn test_error_open_bracket_when_expecting_key() {
    let mut state = brace_state(BraceState::ExpectingKey);
    let result = parse_bracket(RecursiveStructureType::Open, &mut state);
    assert_eq!(result, Err(JSONParseError::UnexpectedOpenBracket));
}

// --- CLOSE BRACKET TESTS ---

#[test]
fn test_close_bracket_in_empty_array() {
    let mut state = bracket_state(BracketState::Empty);
    let result = parse_bracket(RecursiveStructureType::Close, &mut state);
    assert_eq!(result, Ok(Token::CloseBracket));
}

#[test]
fn test_error_close_bracket_after_dangling_comma() {
    // This test correctly fails, preventing `[1,2,]`
    let mut state = bracket_state(BracketState::ExpectingValue);
    let result = parse_bracket(RecursiveStructureType::Close, &mut state);
    assert_eq!(result, Err(JSONParseError::UnexpectedCloseBracket));
}

#[test]
fn test_close_bracket_after_string_value() {
    let mut state = bracket_state(BracketState::InValue(PrimValue::String(
        StringState::Closed,
    )));
    let result = parse_bracket(RecursiveStructureType::Close, &mut state);
    assert_eq!(result, Ok(Token::CloseBracket));
}

#[test]
fn test_close_bracket_after_non_string_value() {
    let mut state = bracket_state(BracketState::InValue(PrimValue::NonString(
        NonStringState::Completable("".to_string()),
    )));
    let result = parse_bracket(RecursiveStructureType::Close, &mut state);
    assert_eq!(result, Ok(Token::CloseBracket));
}

#[test]
fn test_error_close_bracket_from_incomplete_non_string_data() {
    let mut state = bracket_state(BracketState::InValue(PrimValue::NonString(
        NonStringState::NonCompletable("".to_string()),
    )));
    let result = parse_bracket(RecursiveStructureType::Close, &mut state);
    assert_eq!(result, Err(JSONParseError::UnexpectedCloseBracket));
}

#[test]
fn test_error_close_bracket_from_pending() {
    let mut state = JSONState::Pending;
    let result = parse_bracket(RecursiveStructureType::Close, &mut state);
    assert_eq!(result, Err(JSONParseError::UnexpectedCloseBracket));
}

#[test]
fn test_error_close_bracket_in_brace_context() {
    let mut state = brace_state(BraceState::Empty);
    let result = parse_bracket(RecursiveStructureType::Close, &mut state);
    assert_eq!(result, Err(JSONParseError::UnexpectedCloseBracket));
}
