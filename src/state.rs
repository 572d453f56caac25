use vstd::prelude::*;

verus! {

/// Where the cursor stands relative to a string's quotes.
#[derive(Debug, PartialEq, Eq, Clone, Copy, Structural)]
pub enum StringState {
    Open,
    Closed,
    Escaped,
}

/// A number or keyword literal being read, with the text seen so far.
#[derive(Debug, PartialEq, Clone)]
pub enum NonStringState {
    Completable(String),
    NonCompletable(String),
}

/// The value currently being read (or just finished) inside a container.
#[derive(Debug, PartialEq, Clone)]
pub enum PrimValue {
    String(StringState),
    NonString(NonStringState),
    /// A finished child that only a separator, a closing bracket or
    /// whitespace may follow: a container that just closed, or a number or
    /// keyword ended by whitespace.
    NestedValueCompleted,
}

/// Position inside an open object.
#[derive(Debug, PartialEq, Clone)]
pub enum BraceState {
    Empty,
    ExpectingKey,
    InKey(StringState),
    ExpectingValue,
    InValue(PrimValue),
}

/// Position inside an open array.
#[derive(Debug, PartialEq, Clone)]
pub enum BracketState {
    Empty,
    InValue(PrimValue),
    ExpectingValue,
}

/// The lexical position of the reader.
#[derive(Debug, PartialEq, Clone)]
pub enum JSONState {
    Brace(BraceState),
    Bracket(BracketState),
    Pending,
}

/// Mathematical view of a value position: scalar buffers become character sequences.
pub enum ValueView {
    Str(StringState),
    Scalar { complete: bool, text: Seq<char> },
    Nested,
}

pub enum ObjectView {
    Empty,
    ExpectingKey,
    InKey(StringState),
    ExpectingValue,
    InValue(ValueView),
}

pub enum ArrayView {
    Empty,
    ExpectingValue,
    InValue(ValueView),
}

pub enum StateView {
    Pending,
    Object(ObjectView),
    Array(ArrayView),
}

impl View for NonStringState {
    type V = ValueView;

    open spec fn view(&self) -> ValueView {
        match self {
            NonStringState::Completable(s) => ValueView::Scalar { complete: true, text: s@ },
            NonStringState::NonCompletable(s) => ValueView::Scalar { complete: false, text: s@ },
        }
    }
}

impl View for PrimValue {
    type V = ValueView;

    open spec fn view(&self) -> ValueView {
        match self {
            PrimValue::String(s) => ValueView::Str(*s),
            PrimValue::NonString(n) => n@,
            PrimValue::NestedValueCompleted => ValueView::Nested,
        }
    }
}

impl View for BraceState {
    type V = ObjectView;

    open spec fn view(&self) -> ObjectView {
        match self {
            BraceState::Empty => ObjectView::Empty,
            BraceState::ExpectingKey => ObjectView::ExpectingKey,
            BraceState::InKey(s) => ObjectView::InKey(*s),
            BraceState::ExpectingValue => ObjectView::ExpectingValue,
            BraceState::InValue(v) => ObjectView::InValue(v@),
        }
    }
}

impl View for BracketState {
    type V = ArrayView;

    open spec fn view(&self) -> ArrayView {
        match self {
            BracketState::Empty => ArrayView::Empty,
            BracketState::ExpectingValue => ArrayView::ExpectingValue,
            BracketState::InValue(v) => ArrayView::InValue(v@),
        }
    }
}

impl View for JSONState {
    type V = StateView;

    open spec fn view(&self) -> StateView {
        match self {
            JSONState::Brace(b) => StateView::Object(b@),
            JSONState::Bracket(b) => StateView::Array(b@),
            JSONState::Pending => StateView::Pending,
        }
    }
}

impl ValueView {
    /// The value is finished: a closed string, a complete literal, or a closed container.
    pub open spec fn is_complete(self) -> bool {
        match self {
            ValueView::Str(s) => s == StringState::Closed,
            ValueView::Scalar { complete, .. } => complete,
            ValueView::Nested => true,
        }
    }
}

impl StateView {
    /// Appending the closing markers of the stack would finish the document.
    pub open spec fn is_closable(self) -> bool {
        match self {
            StateView::Pending => true,
            StateView::Object(ObjectView::Empty) => true,
            StateView::Array(ArrayView::Empty) => true,
            StateView::Object(ObjectView::InValue(v)) => v.is_complete() || v == ValueView::Str(
                StringState::Open,
            ),
            StateView::Array(ArrayView::InValue(v)) => v.is_complete() || v == ValueView::Str(
                StringState::Open,
            ),
            _ => false,
        }
    }

    /// Inside a key or string value whose closing quote has not come yet.
    pub open spec fn in_open_string(self) -> bool {
        match self {
            StateView::Object(ObjectView::InKey(s)) => s != StringState::Closed,
            StateView::Object(ObjectView::InValue(ValueView::Str(s))) => s != StringState::Closed,
            StateView::Array(ArrayView::InValue(ValueView::Str(s))) => s != StringState::Closed,
            _ => false,
        }
    }

    /// Right after a backslash inside a string.
    pub open spec fn is_escaped(self) -> bool {
        match self {
            StateView::Object(ObjectView::InKey(s)) => s == StringState::Escaped,
            StateView::Object(ObjectView::InValue(ValueView::Str(s))) => s == StringState::Escaped,
            StateView::Array(ArrayView::InValue(ValueView::Str(s))) => s == StringState::Escaped,
            _ => false,
        }
    }

    /// The current child of the innermost container is finished.
    pub open spec fn holds_complete_value(self) -> bool {
        match self {
            StateView::Object(ObjectView::InValue(v)) => v.is_complete(),
            StateView::Array(ArrayView::InValue(v)) => v.is_complete(),
            _ => false,
        }
    }

    /// A value may start here.
    pub open spec fn expects_value(self) -> bool {
        match self {
            StateView::Object(ObjectView::ExpectingValue) => true,
            StateView::Array(ArrayView::Empty) => true,
            StateView::Array(ArrayView::ExpectingValue) => true,
            _ => false,
        }
    }

    /// Inside a number or keyword literal.
    pub open spec fn in_scalar(self) -> bool {
        match self {
            StateView::Object(ObjectView::InValue(ValueView::Scalar { .. })) => true,
            StateView::Array(ArrayView::InValue(ValueView::Scalar { .. })) => true,
            _ => false,
        }
    }

    /// The same position with the string sub-state replaced.
    pub open spec fn with_string_state(self, s: StringState) -> StateView {
        match self {
            StateView::Object(ObjectView::InKey(_)) => StateView::Object(ObjectView::InKey(s)),
            StateView::Object(ObjectView::InValue(ValueView::Str(_))) => StateView::Object(
                ObjectView::InValue(ValueView::Str(s)),
            ),
            StateView::Array(ArrayView::InValue(ValueView::Str(_))) => StateView::Array(
                ArrayView::InValue(ValueView::Str(s)),
            ),
            _ => self,
        }
    }
}

impl JSONState {
    /// Whether the document seen so far can be finished by appending the
    /// closing markers of the open containers and strings.
    pub fn is_cleanly_closable(&self) -> (r: bool)
        ensures
            r == self@.is_closable(),
    {
        match self {
            JSONState::Pending => true,
            JSONState::Brace(BraceState::Empty) => true,
            JSONState::Bracket(BracketState::Empty) => true,
            JSONState::Brace(BraceState::InValue(v)) | JSONState::Bracket(BracketState::InValue(v)) => {
                match v {
                    PrimValue::String(StringState::Closed) => true,
                    PrimValue::String(StringState::Open) => true,
                    PrimValue::String(StringState::Escaped) => false,
                    PrimValue::NonString(NonStringState::Completable(_)) => true,
                    PrimValue::NonString(NonStringState::NonCompletable(_)) => false,
                    PrimValue::NestedValueCompleted => true,
                }
            },
            _ => false,
        }
    }
}

} // verus!
