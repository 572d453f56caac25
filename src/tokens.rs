use vstd::prelude::*;

verus! {

/// Whether a structural character opens or closes a container.
#[derive(Debug, PartialEq, Eq, Clone, Copy, Structural)]
pub enum RecursiveStructureType {
    Open,
    Close,
}

/// What one input character was classified as.
#[derive(Debug, PartialEq, Eq, Clone, Copy, Structural)]
pub enum Token {
    OpenBrace,
    CloseBrace,
    OpenBracket,
    CloseBracket,
    OpenKey,
    CloseKey,
    OpenStringData,
    CloseStringData,
    StringContent,
    NonStringData,
    Comma,
    Colon,
    Whitespace,
}

/// Why a character cannot be read in the current state.
#[derive(Debug, PartialEq, Eq, Clone, Copy, Structural)]
pub enum JSONParseError {
    UnexpectedOpenBrace,
    UnexpectedCloseBrace,
    UnexpectedOpenBracket,
    UnexpectedCloseBracket,
    UnexpectedColon,
    UnexpectedComma,
    UnexpectedEscape,
    QuoteCharAfterKeyClose,
    QuoteCharAfterValueClose,
    QuoteCharInNonStringData,
    UnexpectedQuoteChar,
    InvalidCharInLiteral,
    InvalidCharInNumber,
    InvalidNonStringDataFirstChar,
    InvalidCharEncountered,
    InvalidEscape,
    UnexpectedCharInNonStringData,
    UnexpectedCharInStringData,
    /// Soft signal: a `\u` escape is in progress, so the string cannot be closed yet.
    NotClosableInsideUnicode,
}

/// Verdict on a number or keyword literal read so far.
#[derive(Debug, PartialEq, Eq, Clone, Copy, Structural)]
pub enum CompletionCheckValues {
    Complete,
    Incomplete,
}

} // verus!
