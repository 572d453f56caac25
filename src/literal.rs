use vstd::prelude::*;

use crate::text::chars_of;
use crate::tokens::{CompletionCheckValues, JSONParseError};

verus! {

pub open spec fn is_digit(c: char) -> bool {
    '0' <= c && c <= '9'
}

pub open spec fn is_sign(c: char) -> bool {
    c == '+' || c == '-'
}

pub open spec fn is_exp_mark(c: char) -> bool {
    c == 'e' || c == 'E'
}

pub open spec fn all_digits(s: Seq<char>) -> bool {
    forall|i: int| 0 <= i < s.len() ==> is_digit(#[trigger] s[i])
}

/// Where a reader of JSON's number grammar
/// `-?(0|[1-9][0-9]*)(\.[0-9]+)?([eE][+-]?[0-9]+)?` stands after some text:
/// each state names the part last read, and `Rejected` means the text is no
/// prefix of any JSON number.
#[derive(Debug, PartialEq, Eq, Clone, Copy, Structural)]
pub enum NumberScan {
    Start,
    Minus,
    Zero,
    Int,
    Dot,
    Frac,
    Exp,
    ExpSign,
    ExpDigits,
    Rejected,
}

/// The grammar's transitions on one character.
pub open spec fn number_step(st: NumberScan, c: char) -> NumberScan {
    match st {
        NumberScan::Start => if c == '-' {
            NumberScan::Minus
        } else if c == '0' {
            NumberScan::Zero
        } else if is_digit(c) {
            NumberScan::Int
        } else {
            NumberScan::Rejected
        },
        NumberScan::Minus => if c == '0' {
            NumberScan::Zero
        } else if is_digit(c) {
            NumberScan::Int
        } else {
            NumberScan::Rejected
        },
        NumberScan::Zero => if c == '.' {
            NumberScan::Dot
        } else if is_exp_mark(c) {
            NumberScan::Exp
        } else {
            NumberScan::Rejected
        },
        NumberScan::Int => if is_digit(c) {
            NumberScan::Int
        } else if c == '.' {
            NumberScan::Dot
        } else if is_exp_mark(c) {
            NumberScan::Exp
        } else {
            NumberScan::Rejected
        },
        NumberScan::Dot => if is_digit(c) {
            NumberScan::Frac
        } else {
            NumberScan::Rejected
        },
        NumberScan::Frac => if is_digit(c) {
            NumberScan::Frac
        } else if is_exp_mark(c) {
            NumberScan::Exp
        } else {
            NumberScan::Rejected
        },
        NumberScan::Exp => if is_sign(c) {
            NumberScan::ExpSign
        } else if is_digit(c) {
            NumberScan::ExpDigits
        } else {
            NumberScan::Rejected
        },
        NumberScan::ExpSign => if is_digit(c) {
            NumberScan::ExpDigits
        } else {
            NumberScan::Rejected
        },
        NumberScan::ExpDigits => if is_digit(c) {
            NumberScan::ExpDigits
        } else {
            NumberScan::Rejected
        },
        NumberScan::Rejected => NumberScan::Rejected,
    }
}

/// The state after reading all of `s`.
pub open spec fn number_scan(s: Seq<char>) -> NumberScan
    decreases s.len(),
{
    if s.len() == 0 {
        NumberScan::Start
    } else {
        number_step(number_scan(s.drop_last()), s.last())
    }
}

/// A whole JSON number has been read.
pub open spec fn is_number_end(st: NumberScan) -> bool {
    st == NumberScan::Zero || st == NumberScan::Int || st == NumberScan::Frac || st
        == NumberScan::ExpDigits
}

pub open spec fn true_word() -> Seq<char> {
    seq!['t', 'r', 'u', 'e']
}

pub open spec fn false_word() -> Seq<char> {
    seq!['f', 'a', 'l', 's', 'e']
}

pub open spec fn null_word() -> Seq<char> {
    seq!['n', 'u', 'l', 'l']
}

pub open spec fn is_keyword(s: Seq<char>) -> bool {
    s == true_word() || s == false_word() || s == null_word()
}

pub open spec fn is_keyword_prefix(s: Seq<char>) -> bool {
    s.is_prefix_of(true_word()) || s.is_prefix_of(false_word()) || s.is_prefix_of(null_word())
}

/// Verdict on a non-empty literal text `s`.
pub open spec fn literal_verdict(s: Seq<char>) -> Result<CompletionCheckValues, JSONParseError> {
    let first = s[0];
    if first == 't' || first == 'f' || first == 'n' {
        if is_keyword(s) {
            Ok(CompletionCheckValues::Complete)
        } else if is_keyword_prefix(s) {
            Ok(CompletionCheckValues::Incomplete)
        } else {
            Err(JSONParseError::InvalidCharInLiteral)
        }
    } else if is_digit(first) || first == '-' {
        if number_scan(s) == NumberScan::Rejected {
            Err(JSONParseError::InvalidCharInNumber)
        } else if is_number_end(number_scan(s)) {
            Ok(CompletionCheckValues::Complete)
        } else {
            Ok(CompletionCheckValues::Incomplete)
        }
    } else {
        Err(JSONParseError::InvalidNonStringDataFirstChar)
    }
}

fn is_digit_char(c: char) -> (r: bool)
    ensures
        r == is_digit(c),
{
    '0' <= c && c <= '9'
}

fn next_number_state(st: NumberScan, c: char) -> (r: NumberScan)
    ensures
        r == number_step(st, c),
{
    let digit = is_digit_char(c);
    let mark = c == 'e' || c == 'E';
    match st {
        NumberScan::Start => if c == '-' {
            NumberScan::Minus
        } else if c == '0' {
            NumberScan::Zero
        } else if digit {
            NumberScan::Int
        } else {
            NumberScan::Rejected
        },
        NumberScan::Minus => if c == '0' {
            NumberScan::Zero
        } else if digit {
            NumberScan::Int
        } else {
            NumberScan::Rejected
        },
        NumberScan::Zero => if c == '.' {
            NumberScan::Dot
        } else if mark {
            NumberScan::Exp
        } else {
            NumberScan::Rejected
        },
        NumberScan::Int => if digit {
            NumberScan::Int
        } else if c == '.' {
            NumberScan::Dot
        } else if mark {
            NumberScan::Exp
        } else {
            NumberScan::Rejected
        },
        NumberScan::Dot => if digit {
            NumberScan::Frac
        } else {
            NumberScan::Rejected
        },
        NumberScan::Frac => if digit {
            NumberScan::Frac
        } else if mark {
            NumberScan::Exp
        } else {
            NumberScan::Rejected
        },
        NumberScan::Exp => if c == '+' || c == '-' {
            NumberScan::ExpSign
        } else if digit {
            NumberScan::ExpDigits
        } else {
            NumberScan::Rejected
        },
        NumberScan::ExpSign => if digit {
            NumberScan::ExpDigits
        } else {
            NumberScan::Rejected
        },
        NumberScan::ExpDigits => if digit {
            NumberScan::ExpDigits
        } else {
            NumberScan::Rejected
        },
        NumberScan::Rejected => NumberScan::Rejected,
    }
}

/// Runs the number grammar over all of `s`.
fn scan_number(s: &Vec<char>) -> (r: NumberScan)
    ensures
        r == number_scan(s@),
{
    let mut st = NumberScan::Start;
    let mut i: usize = 0;
    assert(s@.take(0) =~= Seq::<char>::empty());
    while i < s.len()
        invariant
            i <= s.len(),
            st == number_scan(s@.take(i as int)),
        decreases s.len() - i,
    {
        assert(s@.take(i + 1).drop_last() =~= s@.take(i as int));
        st = next_number_state(st, s[i]);
        i = i + 1;
    }
    assert(s@.take(s.len() as int) =~= s@);
    st
}

fn is_prefix_of_word(s: &Vec<char>, w: &Vec<char>) -> (r: bool)
    ensures
        r == s@.is_prefix_of(w@),
{
    if s.len() > w.len() {
        return false;
    }
    let mut i: usize = 0;
    while i < s.len()
        invariant
            s.len() <= w.len(),
            i <= s.len(),
            forall|j: int| 0 <= j < i ==> s@[j] == w@[j],
        decreases s.len() - i,
    {
        if s[i] != w[i] {
            assert(w@.subrange(0, s@.len() as int)[i as int] == w@[i as int]);
            return false;
        }
        i = i + 1;
    }
    assert(s@ =~= w@.subrange(0, s@.len() as int));
    true
}

fn same_text(s: &Vec<char>, w: &Vec<char>) -> (r: bool)
    ensures
        r == (s@ == w@),
{
    let p = is_prefix_of_word(s, w);
    proof {
        if p && s.len() == w.len() {
            assert(s@ =~= w@);
        }
    }
    p && s.len() == w.len()
}

/// Judges the literal text `non_string_data_buffer` followed by `c`: a
/// complete number or keyword, a valid start of one, or neither.
pub fn is_non_valid_non_string_data(c: char, non_string_data_buffer: &str) -> (r: Result<
    CompletionCheckValues,
    JSONParseError,
>)
    ensures
        r == literal_verdict(non_string_data_buffer@.push(c)),
{
    let mut s = chars_of(non_string_data_buffer);
    s.push(c);
    let first = s[0];
    if first == 't' || first == 'f' || first == 'n' {
        let t = vec!['t', 'r', 'u', 'e'];
        let f = vec!['f', 'a', 'l', 's', 'e'];
        let nl = vec!['n', 'u', 'l', 'l'];
        assert(t@ =~= true_word());
        assert(f@ =~= false_word());
        assert(nl@ =~= null_word());
        if same_text(&s, &t) || same_text(&s, &f) || same_text(&s, &nl) {
            return Ok(CompletionCheckValues::Complete);
        }
        if is_prefix_of_word(&s, &t) || is_prefix_of_word(&s, &f) || is_prefix_of_word(&s, &nl) {
            return Ok(CompletionCheckValues::Incomplete);
        }
        return Err(JSONParseError::InvalidCharInLiteral);
    }
    if !(is_digit_char(first) || first == '-') {
        return Err(JSONParseError::InvalidNonStringDataFirstChar);
    }
    let st = scan_number(&s);
    if st == NumberScan::Rejected {
        Err(JSONParseError::InvalidCharInNumber)
    } else if st == NumberScan::Zero || st == NumberScan::Int || st == NumberScan::Frac || st
        == NumberScan::ExpDigits {
        Ok(CompletionCheckValues::Complete)
    } else {
        Ok(CompletionCheckValues::Incomplete)
    }
}

} // verus!
