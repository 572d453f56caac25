use vstd::prelude::*;

use crate::literal::{is_digit, is_non_valid_non_string_data, literal_verdict};
use crate::state::{
    ArrayView, BraceState, BracketState, JSONState, NonStringState, ObjectView, PrimValue,
    StateView, StringState, ValueView,
};
use crate::text::push_char;
use crate::tokens::{CompletionCheckValues, JSONParseError, RecursiveStructureType, Token};

verus! {

/// Outcome of reading one character: the token or error, and the state afterwards.
pub type LexStep = (Result<Token, JSONParseError>, StateView);

impl StateView {
    /// The same container with its current child set to `v`.
    pub open spec fn with_value(self, v: ValueView) -> StateView {
        match self {
            StateView::Object(_) => StateView::Object(ObjectView::InValue(v)),
            StateView::Array(_) => StateView::Array(ArrayView::InValue(v)),
            StateView::Pending => StateView::Pending,
        }
    }

    /// The text of the number or keyword being read.
    pub open spec fn scalar_text(self) -> Seq<char> {
        match self {
            StateView::Object(ObjectView::InValue(ValueView::Scalar { text, .. })) => text,
            StateView::Array(ArrayView::InValue(ValueView::Scalar { text, .. })) => text,
            _ => Seq::empty(),
        }
    }
}

pub open spec fn is_whitespace(c: char) -> bool {
    c == ' ' || c == '\t' || c == '\n' || c == '\r'
}

/// The characters that may follow a backslash and end the escape at once.
pub open spec fn is_simple_escape(c: char) -> bool {
    c == '"' || c == '\\' || c == '/' || c == 'b' || c == 'f' || c == 'n' || c == 'r' || c == 't'
}

pub open spec fn is_non_string_start_spec(c: char) -> bool {
    is_digit(c) || c == '-' || c == 'n' || c == 't' || c == 'f'
}

pub open spec fn brace_step(kind: RecursiveStructureType, s: StateView) -> LexStep {
    match kind {
        RecursiveStructureType::Open => {
            if s == StateView::Pending || s.expects_value() {
                (Ok(Token::OpenBrace), StateView::Object(ObjectView::Empty))
            } else {
                (Err(JSONParseError::UnexpectedOpenBrace), s)
            }
        },
        RecursiveStructureType::Close => {
            if s == StateView::Object(ObjectView::Empty) || (s is Object
                && s.holds_complete_value()) {
                (Ok(Token::CloseBrace), s)
            } else {
                (Err(JSONParseError::UnexpectedCloseBrace), s)
            }
        },
    }
}

pub open spec fn bracket_step(kind: RecursiveStructureType, s: StateView) -> LexStep {
    match kind {
        RecursiveStructureType::Open => {
            if s == StateView::Pending || s.expects_value() {
                (Ok(Token::OpenBracket), StateView::Array(ArrayView::Empty))
            } else {
                (Err(JSONParseError::UnexpectedOpenBracket), s)
            }
        },
        RecursiveStructureType::Close => {
            if s == StateView::Array(ArrayView::Empty) || (s is Array && s.holds_complete_value()) {
                (Ok(Token::CloseBracket), s)
            } else {
                (Err(JSONParseError::UnexpectedCloseBracket), s)
            }
        },
    }
}

/// A character inside an open string: content, which also ends a pending escape.
pub open spec fn string_data_step(s: StateView) -> LexStep {
    if s.in_open_string() {
        (Ok(Token::StringContent), s.with_string_state(StringState::Open))
    } else {
        (Err(JSONParseError::UnexpectedCharInStringData), s)
    }
}

pub open spec fn colon_step(s: StateView) -> LexStep {
    if s == StateView::Object(ObjectView::InKey(StringState::Closed)) {
        (Ok(Token::Colon), StateView::Object(ObjectView::ExpectingValue))
    } else if s.in_open_string() && !s.is_escaped() {
        (Ok(Token::StringContent), s)
    } else {
        (Err(JSONParseError::UnexpectedColon), s)
    }
}

pub open spec fn comma_step(s: StateView) -> LexStep {
    if s.holds_complete_value() {
        match s {
            StateView::Object(_) => (Ok(Token::Comma), StateView::Object(ObjectView::ExpectingKey)),
            _ => (Ok(Token::Comma), StateView::Array(ArrayView::ExpectingValue)),
        }
    } else if s.in_open_string() {
        string_data_step(s)
    } else {
        (Err(JSONParseError::UnexpectedComma), s)
    }
}

/// A backslash: starts an escape inside an open string.
pub open spec fn escape_step(s: StateView) -> LexStep {
    if s.in_open_string() && !s.is_escaped() {
        (Ok(Token::StringContent), s.with_string_state(StringState::Escaped))
    } else {
        (Err(JSONParseError::UnexpectedEscape), s)
    }
}

/// The character right after a backslash.
pub open spec fn escaped_char_step(c: char, s: StateView) -> LexStep {
    if !s.is_escaped() {
        (Err(JSONParseError::UnexpectedEscape), s)
    } else if c == 'u' {
        (Err(JSONParseError::NotClosableInsideUnicode), s)
    } else if is_simple_escape(c) {
        (Ok(Token::StringContent), s.with_string_state(StringState::Open))
    } else {
        (Err(JSONParseError::InvalidEscape), s)
    }
}

pub open spec fn quote_step(s: StateView) -> LexStep {
    match s {
        StateView::Object(ObjectView::Empty) | StateView::Object(ObjectView::ExpectingKey) => (
            Ok(Token::OpenKey),
            StateView::Object(ObjectView::InKey(StringState::Open)),
        ),
        StateView::Object(ObjectView::ExpectingValue) => (
            Ok(Token::OpenStringData),
            StateView::Object(ObjectView::InValue(ValueView::Str(StringState::Open))),
        ),
        StateView::Array(ArrayView::Empty) | StateView::Array(ArrayView::ExpectingValue) => (
            Ok(Token::OpenStringData),
            StateView::Array(ArrayView::InValue(ValueView::Str(StringState::Open))),
        ),
        StateView::Object(ObjectView::InKey(ss)) => match ss {
            StringState::Open => (
                Ok(Token::CloseKey),
                StateView::Object(ObjectView::InKey(StringState::Closed)),
            ),
            StringState::Escaped => (
                Ok(Token::StringContent),
                StateView::Object(ObjectView::InKey(StringState::Open)),
            ),
            StringState::Closed => (Err(JSONParseError::QuoteCharAfterKeyClose), s),
        },
        StateView::Object(ObjectView::InValue(v)) | StateView::Array(ArrayView::InValue(v)) => {
            match v {
                ValueView::Str(StringState::Open) => (
                    Ok(Token::CloseStringData),
                    s.with_value(ValueView::Str(StringState::Closed)),
                ),
                ValueView::Str(StringState::Escaped) => (
                    Ok(Token::StringContent),
                    s.with_value(ValueView::Str(StringState::Open)),
                ),
                ValueView::Str(StringState::Closed) => (
                    Err(JSONParseError::QuoteCharAfterValueClose),
                    s,
                ),
                _ => (Err(JSONParseError::QuoteCharInNonStringData), s),
            }
        },
        StateView::Pending => (Err(JSONParseError::UnexpectedQuoteChar), s),
    }
}

/// Whether `c` goes to the number and keyword reader.
pub open spec fn non_string_guard(c: char, s: StateView) -> bool {
    (s.expects_value() && is_non_string_start_spec(c)) || s.in_scalar()
}

pub open spec fn non_string_step(c: char, s: StateView) -> LexStep {
    if s.expects_value() {
        (
            Ok(Token::NonStringData),
            s.with_value(ValueView::Scalar { complete: is_digit(c), text: seq![c] }),
        )
    } else if s.in_scalar() {
        let text = s.scalar_text().push(c);
        let verdict = literal_verdict(text);
        (
            match verdict {
                Ok(_) => Ok(Token::NonStringData),
                Err(e) => Err(e),
            },
            s.with_value(
                ValueView::Scalar { complete: verdict == Ok::<_, JSONParseError>(CompletionCheckValues::Complete), text },
            ),
        )
    } else {
        (Err(JSONParseError::UnexpectedCharInNonStringData), s)
    }
}

/// Whitespace after a finished number or keyword ends it: the container
/// now holds a finished value that nothing but a separator, a closing
/// bracket or more whitespace may follow.
pub open spec fn literal_end_step(s: StateView) -> LexStep {
    (Ok(Token::Whitespace), s.with_value(ValueView::Nested))
}

/// Reading one character, rules taken in priority order.
pub open spec fn lex(c: char, s: StateView) -> LexStep {
    if s.is_escaped() {
        escaped_char_step(c, s)
    } else if c == '\\' {
        escape_step(s)
    } else if c == '"' {
        quote_step(s)
    } else if s.holds_complete_value() && c == ',' {
        comma_step(s)
    } else if s.holds_complete_value() && c == '}' {
        brace_step(RecursiveStructureType::Close, s)
    } else if s.holds_complete_value() && c == ']' {
        bracket_step(RecursiveStructureType::Close, s)
    } else if s.holds_complete_value() && s.in_scalar() && is_whitespace(c) {
        literal_end_step(s)
    } else if s.in_open_string() {
        string_data_step(s)
    } else if non_string_guard(c, s) {
        non_string_step(c, s)
    } else if c == '{' {
        brace_step(RecursiveStructureType::Open, s)
    } else if c == '}' {
        brace_step(RecursiveStructureType::Close, s)
    } else if c == '[' {
        bracket_step(RecursiveStructureType::Open, s)
    } else if c == ']' {
        bracket_step(RecursiveStructureType::Close, s)
    } else if c == ':' {
        colon_step(s)
    } else if c == ',' {
        comma_step(s)
    } else if is_whitespace(c) {
        (Ok(Token::Whitespace), s)
    } else {
        (Err(JSONParseError::InvalidCharEncountered), s)
    }
}

fn is_complete_value(v: &PrimValue) -> (r: bool)
    ensures
        r == v@.is_complete(),
{
    match v {
        PrimValue::String(StringState::Closed) => true,
        PrimValue::NonString(NonStringState::Completable(_)) => true,
        PrimValue::NestedValueCompleted => true,
        _ => false,
    }
}

fn holds_complete_value(st: &JSONState) -> (r: bool)
    ensures
        r == st@.holds_complete_value(),
{
    match st {
        JSONState::Brace(BraceState::InValue(v)) => is_complete_value(v),
        JSONState::Bracket(BracketState::InValue(v)) => is_complete_value(v),
        _ => false,
    }
}

fn expects_value(st: &JSONState) -> (r: bool)
    ensures
        r == st@.expects_value(),
{
    match st {
        JSONState::Brace(BraceState::ExpectingValue) => true,
        JSONState::Bracket(BracketState::Empty) => true,
        JSONState::Bracket(BracketState::ExpectingValue) => true,
        _ => false,
    }
}

fn is_escaped(st: &JSONState) -> (r: bool)
    ensures
        r == st@.is_escaped(),
{
    match st {
        JSONState::Brace(BraceState::InKey(StringState::Escaped)) => true,
        JSONState::Brace(BraceState::InValue(PrimValue::String(StringState::Escaped))) => true,
        JSONState::Bracket(BracketState::InValue(PrimValue::String(StringState::Escaped))) => true,
        _ => false,
    }
}

/// Opens (`Open`) or closes (`Close`) an object.
pub fn parse_brace(brace: RecursiveStructureType, current_state: &mut JSONState) -> (r: Result<
    Token,
    JSONParseError,
>)
    ensures
        (r, final(current_state)@) == brace_step(brace, old(current_state)@),
{
    match brace {
        RecursiveStructureType::Open => {
            if matches!(current_state, JSONState::Pending) || expects_value(current_state) {
                *current_state = JSONState::Brace(BraceState::Empty);
                Ok(Token::OpenBrace)
            } else {
                Err(JSONParseError::UnexpectedOpenBrace)
            }
        },
        RecursiveStructureType::Close => {
            let ok = match current_state {
                JSONState::Brace(BraceState::Empty) => true,
                JSONState::Brace(BraceState::InValue(v)) => is_complete_value(v),
                _ => false,
            };
            if ok {
                Ok(Token::CloseBrace)
            } else {
                Err(JSONParseError::UnexpectedCloseBrace)
            }
        },
    }
}

/// Opens (`Open`) or closes (`Close`) an array.
pub fn parse_bracket(brace: RecursiveStructureType, current_state: &mut JSONState) -> (r: Result<
    Token,
    JSONParseError,
>)
    ensures
        (r, final(current_state)@) == bracket_step(brace, old(current_state)@),
{
    match brace {
        RecursiveStructureType::Open => {
            if matches!(current_state, JSONState::Pending) || expects_value(current_state) {
                *current_state = JSONState::Bracket(BracketState::Empty);
                Ok(Token::OpenBracket)
            } else {
                Err(JSONParseError::UnexpectedOpenBracket)
            }
        },
        RecursiveStructureType::Close => {
            let ok = match current_state {
                JSONState::Bracket(BracketState::Empty) => true,
                JSONState::Bracket(BracketState::InValue(v)) => is_complete_value(v),
                _ => false,
            };
            if ok {
                Ok(Token::CloseBracket)
            } else {
                Err(JSONParseError::UnexpectedCloseBracket)
            }
        },
    }
}

/// Whether the reader is inside an open key or string value.
pub fn is_string_data(state: &JSONState) -> (r: bool)
    ensures
        r == state@.in_open_string(),
{
    match state {
        JSONState::Brace(BraceState::InKey(StringState::Open)) => true,
        JSONState::Brace(BraceState::InKey(StringState::Escaped)) => true,
        JSONState::Brace(BraceState::InValue(PrimValue::String(StringState::Open))) => true,
        JSONState::Brace(BraceState::InValue(PrimValue::String(StringState::Escaped))) => true,
        JSONState::Bracket(BracketState::InValue(PrimValue::String(StringState::Open))) => true,
        JSONState::Bracket(BracketState::InValue(PrimValue::String(StringState::Escaped))) => true,
        _ => false,
    }
}

/// Sets the sub-state of an open (not escaped) string to `next`; false, and
/// no change, elsewhere.
fn set_string_state_after_escape_in_place(st: &mut JSONState, next: StringState) -> (r: bool)
    ensures
        r == (old(st)@.in_open_string() && !old(st)@.is_escaped()),
        final(st)@ == if r {
            old(st)@.with_string_state(next)
        } else {
            old(st)@
        },
{
    match st {
        JSONState::Brace(BraceState::InKey(StringState::Open)) => {
            *st = JSONState::Brace(BraceState::InKey(next));
            true
        },
        JSONState::Brace(BraceState::InValue(PrimValue::String(StringState::Open))) => {
            *st = JSONState::Brace(BraceState::InValue(PrimValue::String(next)));
            true
        },
        JSONState::Bracket(BracketState::InValue(PrimValue::String(StringState::Open))) => {
            *st = JSONState::Bracket(BracketState::InValue(PrimValue::String(next)));
            true
        },
        _ => false,
    }
}

/// Sets the sub-state of an escaped string to `next`; false, and no change,
/// elsewhere.
fn set_string_state_from_escaped_in_place(st: &mut JSONState, next: StringState) -> (r: bool)
    ensures
        r == old(st)@.is_escaped(),
        final(st)@ == if r {
            old(st)@.with_string_state(next)
        } else {
            old(st)@
        },
{
    match st {
        JSONState::Brace(BraceState::InKey(StringState::Escaped)) => {
            *st = JSONState::Brace(BraceState::InKey(next));
            true
        },
        JSONState::Brace(BraceState::InValue(PrimValue::String(StringState::Escaped))) => {
            *st = JSONState::Brace(BraceState::InValue(PrimValue::String(next)));
            true
        },
        JSONState::Bracket(BracketState::InValue(PrimValue::String(StringState::Escaped))) => {
            *st = JSONState::Bracket(BracketState::InValue(PrimValue::String(next)));
            true
        },
        _ => false,
    }
}

/// Reads one character of a string's content.
pub fn parse_string_data(state: &mut JSONState) -> (r: Result<Token, JSONParseError>)
    ensures
        (r, final(state)@) == string_data_step(old(state)@),
{
    if set_string_state_after_escape_in_place(state, StringState::Open) {
        return Ok(Token::StringContent);
    }
    if set_string_state_from_escaped_in_place(state, StringState::Open) {
        return Ok(Token::StringContent);
    }
    Err(JSONParseError::UnexpectedCharInStringData)
}

/// Reads a colon: the separator after a key, or content inside an open
/// (not escaped) string.
pub fn parse_colon(current_state: &mut JSONState) -> (r: Result<Token, JSONParseError>)
    ensures
        (r, final(current_state)@) == colon_step(old(current_state)@),
{
    if matches!(current_state, JSONState::Brace(BraceState::InKey(StringState::Closed))) {
        *current_state = JSONState::Brace(BraceState::ExpectingValue);
        return Ok(Token::Colon);
    }
    if is_string_data(current_state) && !is_escaped(current_state) {
        return Ok(Token::StringContent);
    }
    Err(JSONParseError::UnexpectedColon)
}

/// Reads a comma: the separator after a finished value, or content inside a string.
pub fn parse_comma(current_state: &mut JSONState) -> (r: Result<Token, JSONParseError>)
    ensures
        (r, final(current_state)@) == comma_step(old(current_state)@),
{
    if holds_complete_value(current_state) {
        if matches!(current_state, JSONState::Brace(_)) {
            *current_state = JSONState::Brace(BraceState::ExpectingKey);
        } else {
            *current_state = JSONState::Bracket(BracketState::ExpectingValue);
        }
        return Ok(Token::Comma);
    }
    if is_string_data(current_state) {
        return parse_string_data(current_state);
    }
    Err(JSONParseError::UnexpectedComma)
}

/// Reads a backslash inside a string: the string becomes escaped.
pub fn handle_escape(current_state: &mut JSONState) -> (r: Result<Token, JSONParseError>)
    ensures
        (r, final(current_state)@) == escape_step(old(current_state)@),
{
    if set_string_state_after_escape_in_place(current_state, StringState::Escaped) {
        Ok(Token::StringContent)
    } else {
        Err(JSONParseError::UnexpectedEscape)
    }
}

/// Reads the character after a backslash.
pub fn handle_escaped_char(escaped: char, current_state: &mut JSONState) -> (r: Result<
    Token,
    JSONParseError,
>)
    ensures
        (r, final(current_state)@) == escaped_char_step(escaped, old(current_state)@),
{
    if !is_escaped(current_state) {
        return Err(JSONParseError::UnexpectedEscape);
    }
    if escaped == 'u' {
        return Err(JSONParseError::NotClosableInsideUnicode);
    }
    if escaped == '"' || escaped == '\\' || escaped == '/' || escaped == 'b' || escaped == 'f'
        || escaped == 'n' || escaped == 'r' || escaped == 't' {
        set_string_state_from_escaped_in_place(current_state, StringState::Open);
        return Ok(Token::StringContent);
    }
    Err(JSONParseError::InvalidEscape)
}

/// Reads a double quote: opens or closes a key or string value, or ends an escape.
pub fn parse_quote_char(state: &mut JSONState) -> (r: Result<Token, JSONParseError>)
    ensures
        (r, final(state)@) == quote_step(old(state)@),
{
    match state {
        JSONState::Brace(BraceState::Empty) | JSONState::Brace(BraceState::ExpectingKey) => {
            *state = JSONState::Brace(BraceState::InKey(StringState::Open));
            Ok(Token::OpenKey)
        },
        JSONState::Brace(BraceState::ExpectingValue) => {
            *state = JSONState::Brace(BraceState::InValue(PrimValue::String(StringState::Open)));
            Ok(Token::OpenStringData)
        },
        JSONState::Bracket(BracketState::Empty) | JSONState::Bracket(
            BracketState::ExpectingValue,
        ) => {
            *state = JSONState::Bracket(BracketState::InValue(PrimValue::String(StringState::Open)));
            Ok(Token::OpenStringData)
        },
        JSONState::Brace(BraceState::InKey(StringState::Open)) => {
            *state = JSONState::Brace(BraceState::InKey(StringState::Closed));
            Ok(Token::CloseKey)
        },
        JSONState::Brace(BraceState::InKey(StringState::Escaped)) => {
            *state = JSONState::Brace(BraceState::InKey(StringState::Open));
            Ok(Token::StringContent)
        },
        JSONState::Brace(BraceState::InKey(StringState::Closed)) => Err(
            JSONParseError::QuoteCharAfterKeyClose,
        ),
        JSONState::Brace(BraceState::InValue(PrimValue::String(StringState::Open))) => {
            *state = JSONState::Brace(BraceState::InValue(PrimValue::String(StringState::Closed)));
            Ok(Token::CloseStringData)
        },
        JSONState::Bracket(BracketState::InValue(PrimValue::String(StringState::Open))) => {
            *state = JSONState::Bracket(
                BracketState::InValue(PrimValue::String(StringState::Closed)),
            );
            Ok(Token::CloseStringData)
        },
        JSONState::Brace(BraceState::InValue(PrimValue::String(StringState::Escaped))) => {
            *state = JSONState::Brace(BraceState::InValue(PrimValue::String(StringState::Open)));
            Ok(Token::StringContent)
        },
        JSONState::Bracket(BracketState::InValue(PrimValue::String(StringState::Escaped))) => {
            *state = JSONState::Bracket(BracketState::InValue(PrimValue::String(StringState::Open)));
            Ok(Token::StringContent)
        },
        JSONState::Brace(BraceState::InValue(PrimValue::String(StringState::Closed)))
        | JSONState::Bracket(BracketState::InValue(PrimValue::String(StringState::Closed))) => Err(
            JSONParseError::QuoteCharAfterValueClose,
        ),
        JSONState::Brace(BraceState::InValue(_)) | JSONState::Bracket(BracketState::InValue(_)) => {
            Err(JSONParseError::QuoteCharInNonStringData)
        },
        JSONState::Pending => Err(JSONParseError::UnexpectedQuoteChar),
    }
}

fn is_non_string_start(c: char) -> (r: bool)
    ensures
        r == is_non_string_start_spec(c),
{
    ('0' <= c && c <= '9') || c == '-' || c == 'n' || c == 't' || c == 'f'
}

/// Whether `c` belongs to the number and keyword reader: it starts a value
/// where one is expected, or continues one being read.
pub fn is_non_string_data(c: char, state: &JSONState) -> (r: bool)
    ensures
        r == non_string_guard(c, state@),
{
    match state {
        JSONState::Brace(BraceState::InValue(PrimValue::NonString(_))) => true,
        JSONState::Bracket(BracketState::InValue(PrimValue::NonString(_))) => true,
        _ => expects_value(state) && is_non_string_start(c),
    }
}

/// Starts or continues a number or keyword literal.
pub fn parse_non_string_data(c: char, state: &mut JSONState) -> (r: Result<Token, JSONParseError>)
    ensures
        (r, final(state)@) == non_string_step(c, old(state)@),
{
    if expects_value(state) {
        let mut text = String::new();
        push_char(&mut text, c);
        let ns = if '0' <= c && c <= '9' {
            NonStringState::Completable(text)
        } else {
            NonStringState::NonCompletable(text)
        };
        if matches!(state, JSONState::Brace(_)) {
            *state = JSONState::Brace(BraceState::InValue(PrimValue::NonString(ns)));
        } else {
            *state = JSONState::Bracket(BracketState::InValue(PrimValue::NonString(ns)));
        }
        return Ok(Token::NonStringData);
    }
    let (in_object, mut buffer) = match state {
        JSONState::Brace(BraceState::InValue(PrimValue::NonString(ns))) => match ns {
            NonStringState::Completable(b) => (true, b.clone()),
            NonStringState::NonCompletable(b) => (true, b.clone()),
        },
        JSONState::Bracket(BracketState::InValue(PrimValue::NonString(ns))) => match ns {
            NonStringState::Completable(b) => (false, b.clone()),
            NonStringState::NonCompletable(b) => (false, b.clone()),
        },
        _ => {
            return Err(JSONParseError::UnexpectedCharInNonStringData);
        },
    };
    let status = is_non_valid_non_string_data(c, buffer.as_str());
    push_char(&mut buffer, c);
    let ns = match status {
        Ok(CompletionCheckValues::Complete) => NonStringState::Completable(buffer),
        _ => NonStringState::NonCompletable(buffer),
    };
    if in_object {
        *state = JSONState::Brace(BraceState::InValue(PrimValue::NonString(ns)));
    } else {
        *state = JSONState::Bracket(BracketState::InValue(PrimValue::NonString(ns)));
    }
    match status {
        Ok(_) => Ok(Token::NonStringData),
        Err(e) => Err(e),
    }
}

/// Ends a finished number or keyword: its container then holds a finished
/// value. False, and no change, where no finished literal is open.
fn end_literal(st: &mut JSONState) -> (r: bool)
    ensures
        r == (old(st)@.holds_complete_value() && old(st)@.in_scalar()),
        final(st)@ == if r {
            literal_end_step(old(st)@).1
        } else {
            old(st)@
        },
{
    match st {
        JSONState::Brace(BraceState::InValue(PrimValue::NonString(NonStringState::Completable(_)))) => {
            *st = JSONState::Brace(BraceState::InValue(PrimValue::NestedValueCompleted));
            true
        },
        JSONState::Bracket(BracketState::InValue(PrimValue::NonString(NonStringState::Completable(_)))) => {
            *st = JSONState::Bracket(BracketState::InValue(PrimValue::NestedValueCompleted));
            true
        },
        _ => false,
    }
}

/// Classifies one character in the current state and updates the state.
pub fn parse_char(c: char, st: &mut JSONState) -> (r: Result<Token, JSONParseError>)
    ensures
        (r, final(st)@) == lex(c, old(st)@),
{
    if is_escaped(st) {
        return handle_escaped_char(c, st);
    }
    if c == '\\' {
        return handle_escape(st);
    }
    if c == '"' {
        return parse_quote_char(st);
    }
    if holds_complete_value(st) {
        if c == ',' {
            return parse_comma(st);
        }
        if c == '}' {
            return parse_brace(RecursiveStructureType::Close, st);
        }
        if c == ']' {
            return parse_bracket(RecursiveStructureType::Close, st);
        }
        if c == ' ' || c == '\t' || c == '\n' || c == '\r' {
            if end_literal(st) {
                return Ok(Token::Whitespace);
            }
        }
    }
    if is_string_data(st) {
        return parse_string_data(st);
    }
    if is_non_string_data(c, st) {
        return parse_non_string_data(c, st);
    }
    match c {
        '{' => parse_brace(RecursiveStructureType::Open, st),
        '}' => parse_brace(RecursiveStructureType::Close, st),
        '[' => parse_bracket(RecursiveStructureType::Open, st),
        ']' => parse_bracket(RecursiveStructureType::Close, st),
        ':' => parse_colon(st),
        ',' => parse_comma(st),
        ' ' | '\t' | '\n' | '\r' => Ok(Token::Whitespace),
        _ => Err(JSONParseError::InvalidCharEncountered),
    }
}

} // verus!
