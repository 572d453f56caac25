use vstd::prelude::*;

use crate::lexer::{is_whitespace, lex, parse_char};
use crate::state::{
    ArrayView, BraceState, BracketState, JSONState, ObjectView, PrimValue, StateView, StringState,
    ValueView,
};
use crate::structure::{
    closing_text, get_balancing_chars, modify_stack, stack_step, BalancingError, ClosingToken,
    TokenProcessingError,
};
use crate::tokens::{JSONParseError, Token};

verus! {

broadcast use vstd::string::axiom_spec_iter;

/// The lexical error behind a rejected character.
#[derive(Debug, PartialEq, Eq, Clone, Copy, Structural)]
pub struct CharError(pub JSONParseError);

/// What a caller is told when no completion can be given.
#[derive(Debug, PartialEq, Eq, Clone, Copy, Structural)]
pub enum Error {
    Char(CharError),
    /// The input so far is a valid prefix, but more is needed before it can be closed.
    NotClosable,
    /// The input so far is no prefix of any JSON document; this never changes.
    Corrupted,
}

/// How a lexical error is reported: a pending `\u` escape is soft, all
/// else corrupts the stream.
pub open spec fn error_of(e: JSONParseError) -> Error {
    if e == JSONParseError::NotClosableInsideUnicode {
        Error::NotClosable
    } else {
        Error::Corrupted
    }
}

impl From<JSONParseError> for Error {
    fn from(e: JSONParseError) -> Error {
        if e == JSONParseError::NotClosableInsideUnicode {
            Error::NotClosable
        } else {
            Error::Corrupted
        }
    }
}

impl vstd::std_specs::convert::FromSpecImpl<JSONParseError> for Error {
    open spec fn obeys_from_spec() -> bool {
        true
    }

    open spec fn from_spec(e: JSONParseError) -> Error {
        error_of(e)
    }
}

/// Mathematical view of the engine: the stack of closing markers, the
/// lexical state, the corruption flag, and whether the top-level document
/// has closed (after which only whitespace may follow).
pub struct Machine {
    pub stack: Seq<ClosingToken>,
    pub state: StateView,
    pub corrupted: bool,
    pub finished: bool,
}

impl Machine {
    pub open spec fn initial() -> Machine {
        Machine {
            stack: Seq::empty(),
            state: StateView::Pending,
            corrupted: false,
            finished: false,
        }
    }
}

/// The state after a container closed, read off the marker now on top.
pub open spec fn pop_transition(token: Token, stack: Seq<ClosingToken>, s: StateView) -> StateView {
    if token == Token::CloseBrace || token == Token::CloseBracket {
        if stack.len() == 0 {
            StateView::Pending
        } else if stack.last() == ClosingToken::CloseBrace {
            StateView::Object(ObjectView::InValue(ValueView::Nested))
        } else if stack.last() == ClosingToken::CloseBracket {
            StateView::Array(ArrayView::InValue(ValueView::Nested))
        } else {
            s
        }
    } else {
        s
    }
}

/// Whether `token` closes a container.
pub open spec fn closes_container(token: Token) -> bool {
    token == Token::CloseBrace || token == Token::CloseBracket
}

/// The engine after one more character. Once the top-level document has
/// closed, anything but whitespace corrupts the stream.
pub open spec fn step(m: Machine, c: char) -> Machine {
    if m.corrupted {
        m
    } else if m.finished && !is_whitespace(c) {
        Machine { corrupted: true, ..m }
    } else {
        let (r, s) = lex(c, m.state);
        match r {
            Err(e) => Machine {
                stack: m.stack,
                state: s,
                corrupted: e != JSONParseError::NotClosableInsideUnicode,
                finished: m.finished,
            },
            Ok(token) => {
                let (sr, stack) = stack_step(m.stack, token);
                match sr {
                    Ok(_) => Machine {
                        stack,
                        state: pop_transition(token, stack, s),
                        corrupted: false,
                        finished: m.finished || (closes_container(token) && stack.len() == 0),
                    },
                    Err(e) => Machine {
                        stack,
                        state: s,
                        corrupted: !(e == TokenProcessingError::NotAStructuralToken || e
                            == TokenProcessingError::NotAnOpeningOrClosingToken),
                        finished: m.finished,
                    },
                }
            },
        }
    }
}

/// The engine after the characters of `s`, one by one.
pub open spec fn feed(m: Machine, s: Seq<char>) -> Machine
    decreases s.len(),
{
    if s.len() == 0 {
        m
    } else {
        step(feed(m, s.drop_last()), s.last())
    }
}

/// The last character of `s` began a `\u` escape that is still pending.
pub open spec fn ends_inside_unicode(m: Machine, s: Seq<char>) -> bool {
    &&& s.len() > 0
    &&& !feed(m, s.drop_last()).corrupted
    &&& lex(s.last(), feed(m, s.drop_last()).state).0 == Err::<Token, JSONParseError>(
        JSONParseError::NotClosableInsideUnicode,
    )
}

/// What taking in the fragment `s` reports.
pub open spec fn advance_outcome(m: Machine, s: Seq<char>) -> Result<(), Error> {
    if feed(m, s).corrupted {
        Err(Error::Corrupted)
    } else if ends_inside_unicode(m, s) {
        Err(Error::NotClosable)
    } else {
        Ok(())
    }
}

/// The suffix that completes the document, or why there is none.
pub open spec fn completion_of(m: Machine) -> Result<Seq<char>, Error> {
    if m.corrupted {
        Err(Error::Corrupted)
    } else if m.state.is_closable() {
        Ok(closing_text(m.stack))
    } else {
        Err(Error::NotClosable)
    }
}

pub open spec fn text_result(r: Result<String, Error>) -> Result<Seq<char>, Error> {
    match r {
        Ok(s) => Ok(s@),
        Err(e) => Err(e),
    }
}

pub proof fn lemma_feed_corrupted(m: Machine, s: Seq<char>)
    requires
        m.corrupted,
    ensures
        feed(m, s) == m,
    decreases s.len(),
{
    if s.len() > 0 {
        lemma_feed_corrupted(m, s.drop_last());
    }
}

pub proof fn lemma_feed_append(m: Machine, a: Seq<char>, b: Seq<char>)
    ensures
        feed(m, a + b) == feed(feed(m, a), b),
    decreases b.len(),
{
    if b.len() == 0 {
        assert(a + b =~= a);
    } else {
        assert((a + b).drop_last() =~= a + b.drop_last());
        lemma_feed_append(m, a, b.drop_last());
    }
}

pub open spec fn is_container_marker(t: ClosingToken) -> bool {
    t == ClosingToken::CloseBrace || t == ClosingToken::CloseBracket
}

/// The markers the stack must show for the current state: the container's
/// marker on top, or a string's marker on top of its container's.
pub open spec fn frame_matches(s: StateView, stack: Seq<ClosingToken>) -> bool {
    let n = stack.len();
    match s {
        StateView::Pending => n == 0,
        StateView::Object(ObjectView::InKey(ss)) => if ss == StringState::Closed {
            n > 0 && stack.last() == ClosingToken::CloseBrace
        } else {
            n > 1 && stack.last() == ClosingToken::CloseKey && stack[n - 2]
                == ClosingToken::CloseBrace
        },
        StateView::Object(ObjectView::InValue(ValueView::Str(ss))) => if ss
            == StringState::Closed {
            n > 0 && stack.last() == ClosingToken::CloseBrace
        } else {
            n > 1 && stack.last() == ClosingToken::CloseStringData && stack[n - 2]
                == ClosingToken::CloseBrace
        },
        StateView::Object(_) => n > 0 && stack.last() == ClosingToken::CloseBrace,
        StateView::Array(ArrayView::InValue(ValueView::Str(ss))) => if ss
            == StringState::Closed {
            n > 0 && stack.last() == ClosingToken::CloseBracket
        } else {
            n > 1 && stack.last() == ClosingToken::CloseStringData && stack[n - 2]
                == ClosingToken::CloseBracket
        },
        StateView::Array(_) => n > 0 && stack.last() == ClosingToken::CloseBracket,
    }
}

/// The engine's invariant: unless corrupted, the state is `Pending` exactly
/// when the stack is empty, every marker below the top belongs to a
/// container, and the top markers match the current state.
pub open spec fn consistent(m: Machine) -> bool {
    m.corrupted || {
        &&& (m.state == StateView::Pending) == (m.stack.len() == 0)
        &&& forall|i: int| 0 <= i < m.stack.len() - 1 ==> is_container_marker(#[trigger] m.stack[i])
        &&& frame_matches(m.state, m.stack)
    }
}

pub proof fn lemma_step_consistent(m: Machine, c: char)
    requires
        consistent(m),
    ensures
        consistent(step(m, c)),
{
    let r = step(m, c);
    if !m.corrupted && !r.corrupted {
        let n = m.stack.len();
        assert(m.state.is_escaped() ==> m.state.in_open_string());
        if r.stack.len() == n + 1 {
            assert(r.stack.drop_last() =~= m.stack);
            assert forall|i: int| 0 <= i < r.stack.len() - 1 implies is_container_marker(
                #[trigger] r.stack[i],
            ) by {
                assert(r.stack[i] == m.stack[i]);
                if i == n - 1 {
                    assert(m.stack[i] == m.stack.last());
                }
            }
        } else if r.stack.len() + 1 == n {
            assert(r.stack =~= m.stack.drop_last());
            assert forall|i: int| 0 <= i < r.stack.len() - 1 implies is_container_marker(
                #[trigger] r.stack[i],
            ) by {
                assert(r.stack[i] == m.stack[i]);
            }
            if r.stack.len() > 0 {
                assert(r.stack.last() == m.stack[n - 2]);
                assert(is_container_marker(m.stack[n - 2]));
            }
        }
    }
}

pub proof fn lemma_feed_consistent(m: Machine, s: Seq<char>)
    requires
        consistent(m),
    ensures
        consistent(feed(m, s)),
    decreases s.len(),
{
    if s.len() > 0 {
        lemma_feed_consistent(m, s.drop_last());
        lemma_step_consistent(feed(m, s.drop_last()), s.last());
    }
}

/// Streaming completion engine: takes a JSON document fragment by fragment
/// and tells after each one which characters would close it.
pub struct JSONBalancer {
    pub closing_stack: Vec<ClosingToken>,
    pub state: JSONState,
    is_corrupted: bool,
    document_closed: bool,
}

impl Default for JSONBalancer {
    fn default() -> (r: Self)
        ensures
            r@ == Machine::initial(),
            consistent(r@),
    {
        JSONBalancer {
            closing_stack: Vec::new(),
            state: JSONState::Pending,
            is_corrupted: false,
            document_closed: false,
        }
    }
}

impl View for JSONBalancer {
    type V = Machine;

    closed spec fn view(&self) -> Machine {
        Machine {
            stack: self.closing_stack@,
            state: self.state@,
            corrupted: self.is_corrupted,
            finished: self.document_closed,
        }
    }
}

impl JSONBalancer {
    /// An engine that has seen nothing yet.
    pub fn new() -> (r: Self)
        ensures
            r@ == Machine::initial(),
            consistent(r@),
    {
        Self::default()
    }

    /// Takes in `delta` and reports the completion of everything seen so far.
    pub fn process_delta(&mut self, delta: &str) -> (r: Result<String, Error>)
        ensures
            final(self)@ == feed(old(self)@, delta@),
            text_result(r) == completion_of(final(self)@),
            consistent(old(self)@) ==> consistent(final(self)@),
    {
        proof {
            if consistent(self@) {
                lemma_feed_consistent(self@, delta@);
            }
        }
        match self.add_delta(delta) {
            Ok(()) => {},
            Err(e) => {
                return Err(e);
            },
        }
        self.get_completion()
    }

    /// Takes in the characters of `delta`; stops at the first one that
    /// corrupts the stream.
    pub fn add_delta(&mut self, delta: &str) -> (r: Result<(), Error>)
        ensures
            final(self)@ == feed(old(self)@, delta@),
            r == advance_outcome(old(self)@, delta@),
            r == Err::<(), Error>(Error::NotClosable) ==> final(self)@.state.is_escaped(),
            consistent(old(self)@) ==> consistent(final(self)@),
    {
        proof {
            if consistent(self@) {
                lemma_feed_consistent(self@, delta@);
            }
        }
        let ghost m0 = self@;
        if self.is_corrupted {
            proof {
                lemma_feed_corrupted(m0, delta@);
            }
            return Err(Error::Corrupted);
        }
        let mut inside_unicode = false;
        assert(delta@.take(0) =~= Seq::<char>::empty());
        for c in it: delta.chars()
            invariant
                it.seq() == delta@,
                m0 == old(self)@,
                !m0.corrupted,
                self@ == feed(m0, delta@.take(it.index() as int)),
                !self.is_corrupted,
                inside_unicode == ends_inside_unicode(m0, delta@.take(it.index() as int)),
                inside_unicode ==> self@.state.is_escaped(),
        {
            let ghost i = it.index() as int;
            proof {
                assert(delta@.take(i + 1).drop_last() =~= delta@.take(i));
                assert(delta@.take(i + 1).last() == c);
            }
            if self.document_closed && !(c == ' ' || c == '\t' || c == '\n' || c == '\r') {
                self.is_corrupted = true;
                proof {
                    lemma_feed_corrupted(self@, delta@.skip(i + 1));
                    lemma_feed_append(m0, delta@.take(i + 1), delta@.skip(i + 1));
                    assert(delta@.take(i + 1) + delta@.skip(i + 1) =~= delta@);
                }
                return Err(Error::Corrupted);
            }
            match parse_char(c, &mut self.state) {
                Ok(token) => {
                    match modify_stack(&mut self.closing_stack, &token) {
                        Ok(()) => {
                            self.handle_pop_state_transition(token);
                            if (token == Token::CloseBrace || token == Token::CloseBracket)
                                && self.closing_stack.len() == 0 {
                                self.document_closed = true;
                            }
                        },
                        Err(TokenProcessingError::NotAStructuralToken) => {},
                        Err(TokenProcessingError::NotAnOpeningOrClosingToken) => {},
                        Err(_) => {
                            self.is_corrupted = true;
                            proof {
                                lemma_feed_corrupted(self@, delta@.skip(i + 1));
                                lemma_feed_append(m0, delta@.take(i + 1), delta@.skip(i + 1));
                                assert(delta@.take(i + 1) + delta@.skip(i + 1) =~= delta@);
                            }
                            return Err(Error::Corrupted);
                        },
                    }
                    inside_unicode = false;
                },
                Err(e) => {
                    if e == JSONParseError::NotClosableInsideUnicode {
                        inside_unicode = true;
                    } else {
                        self.is_corrupted = true;
                        proof {
                            lemma_feed_corrupted(self@, delta@.skip(i + 1));
                            lemma_feed_append(m0, delta@.take(i + 1), delta@.skip(i + 1));
                            assert(delta@.take(i + 1) + delta@.skip(i + 1) =~= delta@);
                        }
                        return Err(Error::from(e));
                    }
                },
            }
        }
        assert(delta@.take(delta@.len() as int) =~= delta@);
        if inside_unicode {
            Err(Error::NotClosable)
        } else {
            Ok(())
        }
    }

    /// After a container closed, makes the state reflect the enclosing one:
    /// a finished child inside it, or nothing open at all.
    pub fn handle_pop_state_transition(&mut self, token: Token)
        ensures
            final(self)@ == (Machine {
                state: pop_transition(token, old(self)@.stack, old(self)@.state),
                ..old(self)@
            }),
    {
        if token == Token::CloseBrace || token == Token::CloseBracket {
            let n: usize = self.closing_stack.len();
            if n == 0 {
                self.state = JSONState::Pending;
            } else if self.closing_stack[n - 1] == ClosingToken::CloseBrace {
                self.state = JSONState::Brace(BraceState::InValue(PrimValue::NestedValueCompleted));
            } else if self.closing_stack[n - 1] == ClosingToken::CloseBracket {
                self.state = JSONState::Bracket(
                    BracketState::InValue(PrimValue::NestedValueCompleted),
                );
            }
        }
    }

    /// The characters that would complete everything seen so far, or why
    /// there are none.
    pub fn get_completion(&self) -> (r: Result<String, Error>)
        ensures
            text_result(r) == completion_of(self@),
            r is Ok || r == Err::<String, Error>(Error::NotClosable) || r == Err::<String, Error>(
                Error::Corrupted,
            ),
    {
        if self.is_corrupted {
            return Err(Error::Corrupted);
        }
        match get_balancing_chars(self.closing_stack.as_slice(), &self.state) {
            Ok(s) => Ok(s),
            Err(BalancingError::NotClosable) => Err(Error::NotClosable),
            Err(BalancingError::Corrupted) => Err(Error::Corrupted),
        }
    }
}

} // verus!
