use vstd::prelude::*;

use crate::state::JSONState;
use crate::text::push_char;
use crate::tokens::Token;

verus! {

/// Why a token left the container stack alone.
#[derive(Debug, PartialEq, Eq, Clone, Copy, Structural)]
pub enum TokenProcessingError {
    NotAStructuralToken,
    NotClosable,
    NotAnOpeningOrClosingToken,
    NotAnOpeningToken,
    NotAClosingToken,
    CorruptedStackMismatchedTokens,
    CorruptedStackEmptyOnClose,
}

/// Why no completion can be given.
#[derive(Debug, PartialEq, Eq, Clone, Copy, Structural)]
pub enum BalancingError {
    NotClosable,
    Corrupted,
}

/// The tokens that open or close a container or a string.
#[derive(Debug, PartialEq, Eq, Clone, Copy, Structural)]
pub enum StructuralToken {
    OpenBrace,
    CloseBrace,
    OpenBracket,
    CloseBracket,
    OpenKey,
    CloseKey,
    OpenStringData,
    CloseStringData,
}

#[derive(Debug, PartialEq, Eq, Clone, Copy, Structural)]
pub enum OpeningToken {
    OpenBrace,
    OpenBracket,
    OpenKey,
    OpenStringData,
}

/// A marker on the container stack: what will close the context.
#[derive(Debug, PartialEq, Eq, Clone, Copy, Structural)]
pub enum ClosingToken {
    CloseBrace,
    CloseBracket,
    CloseKey,
    CloseStringData,
}

impl OpeningToken {
    pub open spec fn closing_spec(self) -> ClosingToken {
        match self {
            OpeningToken::OpenBrace => ClosingToken::CloseBrace,
            OpeningToken::OpenBracket => ClosingToken::CloseBracket,
            OpeningToken::OpenKey => ClosingToken::CloseKey,
            OpeningToken::OpenStringData => ClosingToken::CloseStringData,
        }
    }

    /// The marker that closes what this token opens.
    pub fn get_closing_token(&self) -> (r: ClosingToken)
        ensures
            r == self.closing_spec(),
    {
        match self {
            OpeningToken::OpenBrace => ClosingToken::CloseBrace,
            OpeningToken::OpenBracket => ClosingToken::CloseBracket,
            OpeningToken::OpenKey => ClosingToken::CloseKey,
            OpeningToken::OpenStringData => ClosingToken::CloseStringData,
        }
    }

    /// The opening tokens among the structural ones.
    pub fn from_structural(token: &StructuralToken) -> (r: Result<OpeningToken, TokenProcessingError>)
        ensures
            r == opening_of(*token),
    {
        match token {
            StructuralToken::OpenBrace => Ok(OpeningToken::OpenBrace),
            StructuralToken::OpenBracket => Ok(OpeningToken::OpenBracket),
            StructuralToken::OpenKey => Ok(OpeningToken::OpenKey),
            StructuralToken::OpenStringData => Ok(OpeningToken::OpenStringData),
            _ => Err(TokenProcessingError::NotAnOpeningToken),
        }
    }
}

impl ClosingToken {
    pub open spec fn char_spec(self) -> char {
        match self {
            ClosingToken::CloseBrace => '}',
            ClosingToken::CloseBracket => ']',
            ClosingToken::CloseKey => '"',
            ClosingToken::CloseStringData => '"',
        }
    }

    /// The character that closes this context.
    pub fn get_char(&self) -> (r: char)
        ensures
            r == self.char_spec(),
    {
        match self {
            ClosingToken::CloseBrace => '}',
            ClosingToken::CloseBracket => ']',
            ClosingToken::CloseKey => '"',
            ClosingToken::CloseStringData => '"',
        }
    }

    /// The closing tokens among the structural ones.
    pub fn from_structural(token: &StructuralToken) -> (r: Result<ClosingToken, TokenProcessingError>)
        ensures
            r == closing_of(*token),
    {
        match token {
            StructuralToken::CloseBrace => Ok(ClosingToken::CloseBrace),
            StructuralToken::CloseBracket => Ok(ClosingToken::CloseBracket),
            StructuralToken::CloseKey => Ok(ClosingToken::CloseKey),
            StructuralToken::CloseStringData => Ok(ClosingToken::CloseStringData),
            _ => Err(TokenProcessingError::NotAClosingToken),
        }
    }
}

pub open spec fn structural_of(token: Token) -> Result<StructuralToken, TokenProcessingError> {
    match token {
        Token::OpenBrace => Ok(StructuralToken::OpenBrace),
        Token::CloseBrace => Ok(StructuralToken::CloseBrace),
        Token::OpenBracket => Ok(StructuralToken::OpenBracket),
        Token::CloseBracket => Ok(StructuralToken::CloseBracket),
        Token::OpenKey => Ok(StructuralToken::OpenKey),
        Token::CloseKey => Ok(StructuralToken::CloseKey),
        Token::OpenStringData => Ok(StructuralToken::OpenStringData),
        Token::CloseStringData => Ok(StructuralToken::CloseStringData),
        _ => Err(TokenProcessingError::NotAStructuralToken),
    }
}

pub open spec fn opening_of(token: StructuralToken) -> Result<OpeningToken, TokenProcessingError> {
    match token {
        StructuralToken::OpenBrace => Ok(OpeningToken::OpenBrace),
        StructuralToken::OpenBracket => Ok(OpeningToken::OpenBracket),
        StructuralToken::OpenKey => Ok(OpeningToken::OpenKey),
        StructuralToken::OpenStringData => Ok(OpeningToken::OpenStringData),
        _ => Err(TokenProcessingError::NotAnOpeningToken),
    }
}

pub open spec fn closing_of(token: StructuralToken) -> Result<ClosingToken, TokenProcessingError> {
    match token {
        StructuralToken::CloseBrace => Ok(ClosingToken::CloseBrace),
        StructuralToken::CloseBracket => Ok(ClosingToken::CloseBracket),
        StructuralToken::CloseKey => Ok(ClosingToken::CloseKey),
        StructuralToken::CloseStringData => Ok(ClosingToken::CloseStringData),
        _ => Err(TokenProcessingError::NotAClosingToken),
    }
}

impl StructuralToken {
    /// The structural tokens among all tokens.
    pub fn from_token(token: &Token) -> (r: Result<StructuralToken, TokenProcessingError>)
        ensures
            r == structural_of(*token),
    {
        match token {
            Token::OpenBrace => Ok(StructuralToken::OpenBrace),
            Token::CloseBrace => Ok(StructuralToken::CloseBrace),
            Token::OpenBracket => Ok(StructuralToken::OpenBracket),
            Token::CloseBracket => Ok(StructuralToken::CloseBracket),
            Token::OpenKey => Ok(StructuralToken::OpenKey),
            Token::CloseKey => Ok(StructuralToken::CloseKey),
            Token::OpenStringData => Ok(StructuralToken::OpenStringData),
            Token::CloseStringData => Ok(StructuralToken::CloseStringData),
            _ => Err(TokenProcessingError::NotAStructuralToken),
        }
    }
}

/// The marker that `token` pushes, if it opens a context.
pub open spec fn pushed_marker(token: Token) -> Option<ClosingToken> {
    match token {
        Token::OpenBrace => Some(ClosingToken::CloseBrace),
        Token::OpenBracket => Some(ClosingToken::CloseBracket),
        Token::OpenKey => Some(ClosingToken::CloseKey),
        Token::OpenStringData => Some(ClosingToken::CloseStringData),
        _ => None,
    }
}

/// The marker that `token` must find on top, if it closes a context.
pub open spec fn popped_marker(token: Token) -> Option<ClosingToken> {
    match token {
        Token::CloseBrace => Some(ClosingToken::CloseBrace),
        Token::CloseBracket => Some(ClosingToken::CloseBracket),
        Token::CloseKey => Some(ClosingToken::CloseKey),
        Token::CloseStringData => Some(ClosingToken::CloseStringData),
        _ => None,
    }
}

/// Effect of a token on the stack: push on open, pop a matching marker on
/// close, leave it alone otherwise.
pub open spec fn stack_step(stack: Seq<ClosingToken>, token: Token) -> (
    Result<(), TokenProcessingError>,
    Seq<ClosingToken>,
) {
    match pushed_marker(token) {
        Some(m) => (Ok(()), stack.push(m)),
        None => match popped_marker(token) {
            Some(m) => if stack.len() == 0 {
                (Err(TokenProcessingError::CorruptedStackEmptyOnClose), stack)
            } else if stack.last() == m {
                (Ok(()), stack.drop_last())
            } else {
                (Err(TokenProcessingError::CorruptedStackMismatchedTokens), stack)
            },
            None => (Err(TokenProcessingError::NotAStructuralToken), stack),
        },
    }
}

/// Pushes or pops the container stack as `token` requires.
pub fn modify_stack(stack: &mut Vec<ClosingToken>, token: &Token) -> (r: Result<
    (),
    TokenProcessingError,
>)
    ensures
        (r, final(stack)@) == stack_step(old(stack)@, *token),
{
    let structural_token = match StructuralToken::from_token(token) {
        Ok(t) => t,
        Err(e) => {
            return Err(e);
        },
    };
    if let Ok(opening_token) = OpeningToken::from_structural(&structural_token) {
        stack.push(opening_token.get_closing_token());
        return Ok(());
    }
    if let Ok(closing_token) = ClosingToken::from_structural(&structural_token) {
        if let Some(current_level_token) = stack.pop() {
            if closing_token == current_level_token {
                return Ok(());
            } else {
                stack.push(current_level_token);
                return Err(TokenProcessingError::CorruptedStackMismatchedTokens);
            }
        } else {
            return Err(TokenProcessingError::CorruptedStackEmptyOnClose);
        }
    }
    Err(TokenProcessingError::NotAnOpeningOrClosingToken)
}

/// The closing characters of a stack, innermost (last) first.
pub open spec fn closing_text(stack: Seq<ClosingToken>) -> Seq<char>
    decreases stack.len(),
{
    if stack.len() == 0 {
        Seq::empty()
    } else {
        closing_text(stack.drop_first()).push(stack[0].char_spec())
    }
}

/// The characters that finish the document, or why there are none.
pub fn get_balancing_chars(closing_stack: &[ClosingToken], state: &JSONState) -> (r: Result<
    String,
    BalancingError,
>)
    ensures
        state@.is_closable() ==> r is Ok && r->Ok_0@ == closing_text(closing_stack@),
        !state@.is_closable() ==> r == Err::<String, _>(BalancingError::NotClosable),
{
    if !state.is_cleanly_closable() {
        return Err(BalancingError::NotClosable);
    }
    let mut closing = String::new();
    let mut i: usize = closing_stack.len();
    assert(closing_stack@.skip(i as int) =~= Seq::<ClosingToken>::empty());
    while i > 0
        invariant
            i <= closing_stack@.len(),
            closing@ == closing_text(closing_stack@.skip(i as int)),
        decreases i,
    {
        i = i - 1;
        let c = closing_stack[i].get_char();
        push_char(&mut closing, c);
        assert(closing_stack@.skip(i as int).drop_first() =~= closing_stack@.skip(i + 1));
    }
    assert(closing_stack@.skip(0) =~= closing_stack@);
    Ok(closing)
}

} // verus!
