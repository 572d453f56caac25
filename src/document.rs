use vstd::prelude::*;

use crate::balancer::{completion_of, feed, lemma_feed_append, step, Error, Machine};
use crate::lexer::{is_simple_escape, is_whitespace, lex};
use crate::literal::{
    all_digits, is_digit, is_exp_mark, is_keyword, is_number_end, is_sign, literal_verdict,
    number_scan, NumberScan,
};
use crate::state::{ArrayView, ObjectView, StateView, StringState, ValueView};
use crate::structure::{closing_text, ClosingToken};
use crate::tokens::{CompletionCheckValues, JSONParseError};

verus! {

/// Only JSON whitespace.
pub open spec fn blank(s: Seq<char>) -> bool {
    forall|i: int| 0 <= i < s.len() ==> is_whitespace(#[trigger] s[i])
}

/// The text between the quotes of a JSON string whose escapes are all
/// single-character ones (`\"`, `\\`, `\/`, `\b`, `\f`, `\n`, `\r`, `\t`).
pub open spec fn string_body(b: Seq<char>) -> bool
    decreases b.len(),
{
    if b.len() == 0 {
        true
    } else if b[0] == '\\' {
        b.len() >= 2 && is_simple_escape(b[1]) && string_body(b.skip(2))
    } else {
        b[0] != '"' && b[0] >= ' ' && string_body(b.skip(1))
    }
}

/// The state in which nothing but more of a string's content is expected.
pub open spec fn in_plain_string(m: Machine) -> bool {
    !m.corrupted && !m.finished && m.state.in_open_string() && !m.state.is_escaped()
}

/// The state between tokens, where whitespace is skipped.
pub open spec fn between_tokens(m: Machine) -> bool {
    !m.corrupted && !m.state.in_open_string() && !m.state.in_scalar()
}

pub proof fn lemma_whitespace_is_skipped(m: Machine, ws: Seq<char>)
    requires
        between_tokens(m),
        blank(ws),
    ensures
        feed(m, ws) == m,
    decreases ws.len(),
{
    if ws.len() > 0 {
        let p = ws.drop_last();
        assert(blank(p)) by {
            assert forall|i: int| 0 <= i < p.len() implies is_whitespace(#[trigger] p[i]) by {
                assert(p[i] == ws[i]);
            }
        }
        lemma_whitespace_is_skipped(m, p);
        let c = ws.last();
        assert(is_whitespace(ws[ws.len() - 1]));
        assert(m.state.is_escaped() ==> m.state.in_open_string());
        assert(lex(c, m.state) == (Ok::<_, JSONParseError>(crate::tokens::Token::Whitespace), m.state));
    }
}

pub proof fn lemma_feed_one(m: Machine, s: Seq<char>)
    requires
        s.len() == 1,
    ensures
        feed(m, s) == step(m, s[0]),
{
    assert(s.drop_last() =~= Seq::<char>::empty());
    assert(feed(m, s.drop_last()) == m);
}

pub proof fn lemma_feed_two(m: Machine, s: Seq<char>)
    requires
        s.len() == 2,
    ensures
        feed(m, s) == step(step(m, s[0]), s[1]),
{
    lemma_feed_one(m, s.drop_last());
}

pub proof fn lemma_string_body_is_content(m: Machine, b: Seq<char>)
    requires
        in_plain_string(m),
        string_body(b),
    ensures
        feed(m, b) == m,
    decreases b.len(),
{
    if b.len() > 0 {
        if b[0] == '\\' {
            let head = b.take(2);
            lemma_feed_two(m, head);
            let m1 = step(m, b[0]);
            assert(m1.state == m.state.with_string_state(StringState::Escaped));
            assert(step(m1, b[1]) == m);
            assert(feed(m, head) == m);
            lemma_string_body_is_content(m, b.skip(2));
            lemma_feed_append(m, head, b.skip(2));
            assert(head + b.skip(2) =~= b);
        } else {
            let head = b.take(1);
            lemma_feed_one(m, head);
            assert(step(m, b[0]) == m);
            assert(feed(m, head) == m);
            lemma_string_body_is_content(m, b.skip(1));
            lemma_feed_append(m, head, b.skip(1));
            assert(head + b.skip(1) =~= b);
        }
    }
}

/// A character that a number or keyword never holds and that the reader
/// would not hand to it.
pub open spec fn scalar_char(c: char) -> bool {
    c != '\\' && c != '"' && c != ',' && c != '}' && c != ']' && !is_whitespace(c)
}

pub proof fn lemma_scalar_run(m: Machine, rest: Seq<char>)
    requires
        !m.corrupted,
        !m.finished,
        m.state.in_scalar(),
        forall|k: int| 0 <= k < rest.len() ==> scalar_char(#[trigger] rest[k]),
        forall|k: int|
            0 < k <= rest.len() ==> #[trigger] literal_verdict(m.state.scalar_text() + rest.take(k))
                is Ok,
    ensures
        rest.len() > 0 ==> feed(m, rest) == (Machine {
            state: m.state.with_value(
                ValueView::Scalar {
                    complete: literal_verdict(m.state.scalar_text() + rest) == Ok::<
                        _,
                        JSONParseError,
                    >(CompletionCheckValues::Complete),
                    text: m.state.scalar_text() + rest,
                },
            ),
            ..m
        }),
        rest.len() > 0 ==> feed(m, rest).state.in_scalar() && feed(m, rest).state.scalar_text()
            == m.state.scalar_text() + rest,
    decreases rest.len(),
{
    if rest.len() > 0 {
        let p = rest.drop_last();
        let t = m.state.scalar_text();
        assert forall|k: int| 0 <= k < p.len() implies scalar_char(#[trigger] p[k]) by {
            assert(p[k] == rest[k]);
        }
        assert forall|k: int| 0 < k <= p.len() implies #[trigger] literal_verdict(t + p.take(k))
            is Ok by {
            assert(p.take(k) =~= rest.take(k));
        }
        lemma_scalar_run(m, p);
        let m1 = feed(m, p);
        assert(rest.take(rest.len() as int) =~= rest);
        assert(literal_verdict(t + rest.take(rest.len() as int)) is Ok);
        let c = rest.last();
        assert(scalar_char(rest[rest.len() - 1]));
        if p.len() == 0 {
            assert(t + p =~= t);
            assert(m1 == m);
        }
        assert(m1.state.scalar_text() =~= t + p);
        assert((t + p).push(c) =~= t + rest);
        assert(m1.state.in_scalar());
        assert(m1.state.is_escaped() ==> m1.state.in_open_string());
    }
}

/// A JSON number: `-? digits (. digits)? ((e|E) (+|-)? digits)?`, held in its parts.
pub struct NumberText {
    pub minus: bool,
    pub int_digits: Seq<char>,
    pub frac_digits: Seq<char>,
    pub exp_mark: Seq<char>,
    pub exp_sign: Seq<char>,
    pub exp_digits: Seq<char>,
}

impl NumberText {
    pub open spec fn valid(self) -> bool {
        &&& self.int_digits.len() > 0
        &&& all_digits(self.int_digits)
        &&& (self.int_digits.len() > 1 ==> self.int_digits[0] != '0')
        &&& all_digits(self.frac_digits)
        &&& {
            ||| (self.exp_mark.len() == 0 && self.exp_sign.len() == 0 && self.exp_digits.len() == 0)
            ||| (self.exp_mark.len() == 1 && is_exp_mark(self.exp_mark[0]) && self.exp_sign.len()
                <= 1 && (self.exp_sign.len() == 1 ==> is_sign(self.exp_sign[0]))
                && self.exp_digits.len() > 0 && all_digits(self.exp_digits))
        }
    }

    pub open spec fn sign_text(self) -> Seq<char> {
        if self.minus {
            seq!['-']
        } else {
            Seq::empty()
        }
    }

    pub open spec fn fraction_text(self) -> Seq<char> {
        if self.frac_digits.len() > 0 {
            seq!['.'] + self.frac_digits
        } else {
            Seq::empty()
        }
    }

    pub open spec fn exponent(self) -> Seq<char> {
        self.exp_mark + self.exp_sign + self.exp_digits
    }

    /// Sign, integer part and fraction.
    pub open spec fn mantissa(self) -> Seq<char> {
        self.sign_text() + self.int_digits + self.fraction_text()
    }

    pub open spec fn text(self) -> Seq<char> {
        self.mantissa() + self.exponent()
    }
}

/// Where the number grammar stands after the first `j` characters of `n`.
pub open spec fn expected_scan(n: NumberText, j: int) -> NumberScan {
    let a = n.sign_text().len() as int;
    let b = a + n.int_digits.len();
    let c = n.mantissa().len() as int;
    let d = c + n.exp_mark.len();
    let e = d + n.exp_sign.len();
    if j == 0 {
        NumberScan::Start
    } else if j <= a {
        NumberScan::Minus
    } else if j <= b {
        if n.int_digits[0] == '0' {
            NumberScan::Zero
        } else {
            NumberScan::Int
        }
    } else if j <= c {
        if j == b + 1 {
            NumberScan::Dot
        } else {
            NumberScan::Frac
        }
    } else if j <= d {
        NumberScan::Exp
    } else if j <= e {
        NumberScan::ExpSign
    } else {
        NumberScan::ExpDigits
    }
}

proof fn lemma_number_scan_prefix(n: NumberText, j: int)
    requires
        n.valid(),
        0 <= j <= n.text().len(),
    ensures
        number_scan(n.text().take(j)) == expected_scan(n, j),
    decreases j,
{
    let t = n.text();
    if j == 0 {
        assert(t.take(0) =~= Seq::<char>::empty());
    } else {
        let i = j - 1;
        lemma_number_scan_prefix(n, i);
        assert(t.take(j).drop_last() =~= t.take(i));
        assert(t.take(j).last() == t[i]);
        let a = n.sign_text().len() as int;
        let b = a + n.int_digits.len();
        let c = n.mantissa().len() as int;
        let d = c + n.exp_mark.len();
        let e = d + n.exp_sign.len();
        assert(t.len() == e + n.exp_digits.len());
        if i < a {
            assert(t[i] == '-');
        } else if i < b {
            assert(t[i] == n.int_digits[i - a]);
            assert(is_digit(n.int_digits[i - a]));
            if i > a {
                assert(n.int_digits.len() > 1);
            }
        } else if i < c {
            if i == b {
                assert(t[i] == '.');
            } else {
                assert(t[i] == n.frac_digits[i - b - 1]);
                assert(is_digit(n.frac_digits[i - b - 1]));
            }
        } else if i < d {
            assert(t[i] == n.exp_mark[0]);
        } else if i < e {
            assert(t[i] == n.exp_sign[0]);
        } else {
            assert(t[i] == n.exp_digits[i - e]);
            assert(is_digit(n.exp_digits[i - e]));
        }
    }
}

/// Every prefix of two or more characters of a JSON number is judged a
/// valid start of a number.
pub proof fn lemma_number_prefix_verdict(n: NumberText, j: int)
    requires
        n.valid(),
        2 <= j <= n.text().len(),
    ensures
        literal_verdict(n.text().take(j)) is Ok,
{
    let t = n.text();
    lemma_number_scan_prefix(n, j);
    assert(t.take(j)[0] == t[0]);
    if n.minus {
        assert(t[0] == '-');
    } else {
        assert(t[0] == n.int_digits[0]);
        assert(is_digit(n.int_digits[0]));
    }
}

/// A whole JSON number longer than one character is judged complete.
pub proof fn lemma_number_verdict_complete(n: NumberText)
    requires
        n.valid(),
        n.text().len() >= 2,
    ensures
        literal_verdict(n.text()) == Ok::<_, JSONParseError>(CompletionCheckValues::Complete),
{
    let t = n.text();
    lemma_number_scan_prefix(n, t.len() as int);
    assert(t.take(t.len() as int) =~= t);
    if n.minus {
        assert(t[0] == '-');
    } else {
        assert(t[0] == n.int_digits[0]);
        assert(is_digit(n.int_digits[0]));
    }
}

/// The parts of a number text as the grammar reads them, one character at
/// a time.
pub open spec fn number_parts(s: Seq<char>) -> NumberText
    decreases s.len(),
{
    if s.len() == 0 {
        NumberText {
            minus: false,
            int_digits: Seq::empty(),
            frac_digits: Seq::empty(),
            exp_mark: Seq::empty(),
            exp_sign: Seq::empty(),
            exp_digits: Seq::empty(),
        }
    } else {
        let n = number_parts(s.drop_last());
        let c = s.last();
        match number_scan(s) {
            NumberScan::Minus => NumberText { minus: true, ..n },
            NumberScan::Zero => NumberText { int_digits: n.int_digits.push(c), ..n },
            NumberScan::Int => NumberText { int_digits: n.int_digits.push(c), ..n },
            NumberScan::Frac => NumberText { frac_digits: n.frac_digits.push(c), ..n },
            NumberScan::Exp => NumberText { exp_mark: seq![c], ..n },
            NumberScan::ExpSign => NumberText { exp_sign: seq![c], ..n },
            NumberScan::ExpDigits => NumberText { exp_digits: n.exp_digits.push(c), ..n },
            _ => n,
        }
    }
}

/// What the parts read so far look like in each state of the grammar.
pub open spec fn parts_shape(st: NumberScan, n: NumberText) -> bool {
    let no_frac = n.frac_digits.len() == 0;
    let no_exp = n.exp_mark.len() == 0 && n.exp_sign.len() == 0 && n.exp_digits.len() == 0;
    &&& all_digits(n.int_digits)
    &&& all_digits(n.frac_digits)
    &&& all_digits(n.exp_digits)
    &&& (n.int_digits.len() > 1 ==> n.int_digits[0] != '0')
    &&& (n.exp_mark.len() <= 1 && (n.exp_mark.len() == 1 ==> is_exp_mark(n.exp_mark[0])))
    &&& (n.exp_sign.len() <= 1 && (n.exp_sign.len() == 1 ==> is_sign(n.exp_sign[0])))
    &&& match st {
        NumberScan::Start => !n.minus && n.int_digits.len() == 0 && no_frac && no_exp,
        NumberScan::Minus => n.minus && n.int_digits.len() == 0 && no_frac && no_exp,
        NumberScan::Zero => n.int_digits == seq!['0'] && no_frac && no_exp,
        NumberScan::Int => n.int_digits.len() > 0 && n.int_digits[0] != '0' && no_frac && no_exp,
        NumberScan::Dot => n.int_digits.len() > 0 && no_frac && no_exp,
        NumberScan::Frac => n.int_digits.len() > 0 && !no_frac && no_exp,
        NumberScan::Exp => n.int_digits.len() > 0 && n.exp_mark.len() == 1 && n.exp_sign.len()
            == 0 && n.exp_digits.len() == 0,
        NumberScan::ExpSign => n.int_digits.len() > 0 && n.exp_mark.len() == 1
            && n.exp_sign.len() == 1 && n.exp_digits.len() == 0,
        NumberScan::ExpDigits => n.int_digits.len() > 0 && n.exp_mark.len() == 1
            && n.exp_digits.len() > 0,
        NumberScan::Rejected => true,
    }
}

proof fn lemma_number_parts(s: Seq<char>)
    requires
        number_scan(s) != NumberScan::Rejected,
    ensures
        parts_shape(number_scan(s), number_parts(s)),
        s == number_parts(s).text() + if number_scan(s) == NumberScan::Dot {
            seq!['.']
        } else {
            Seq::<char>::empty()
        },
    decreases s.len(),
{
    let n1 = number_parts(s);
    if s.len() == 0 {
        assert(n1.text() =~= Seq::<char>::empty());
        assert(s =~= n1.text() + Seq::<char>::empty());
    } else {
        let p = s.drop_last();
        let c = s.last();
        let st0 = number_scan(p);
        assert(st0 != NumberScan::Rejected);
        lemma_number_parts(p);
        let n0 = number_parts(p);
        let st = number_scan(s);
        assert(s =~= p.push(c));
        assert forall|i: int| 0 <= i < n1.int_digits.len() implies is_digit(
            #[trigger] n1.int_digits[i],
        ) by {
            if i < n0.int_digits.len() {
                assert(n0.int_digits.push(c)[i] == n0.int_digits[i]);
            }
        }
        assert forall|i: int| 0 <= i < n1.frac_digits.len() implies is_digit(
            #[trigger] n1.frac_digits[i],
        ) by {
            if i < n0.frac_digits.len() {
                assert(n0.frac_digits.push(c)[i] == n0.frac_digits[i]);
            }
        }
        assert forall|i: int| 0 <= i < n1.exp_digits.len() implies is_digit(
            #[trigger] n1.exp_digits[i],
        ) by {
            if i < n0.exp_digits.len() {
                assert(n0.exp_digits.push(c)[i] == n0.exp_digits[i]);
            }
        }
        if n1.int_digits.len() > 0 {
            if n0.int_digits.len() > 0 {
                assert(n1.int_digits[0] == n0.int_digits[0]);
            }
        }
        match st {
            NumberScan::Minus => {
                assert(n1.text() =~= seq!['-']);
            },
            NumberScan::Zero | NumberScan::Int => {
                assert(n1.text() =~= n0.text().push(c));
                assert(n1.int_digits =~= n0.int_digits.push(c));
                if st == NumberScan::Zero {
                    assert(n1.int_digits =~= seq!['0']);
                }
            },
            NumberScan::Dot => {
                assert(n1 == n0);
            },
            NumberScan::Frac => {
                if st0 == NumberScan::Dot {
                    assert(n1.fraction_text() =~= seq!['.', c]);
                    assert(n1.text() =~= n0.text() + seq!['.', c]);
                } else {
                    assert(n1.fraction_text() =~= n0.fraction_text().push(c));
                    assert(n1.text() =~= n0.text().push(c));
                }
            },
            NumberScan::Exp => {
                assert(n1.text() =~= n0.text().push(c));
            },
            NumberScan::ExpSign => {
                assert(n1.text() =~= n0.text().push(c));
            },
            NumberScan::ExpDigits => {
                assert(n1.text() =~= n0.text().push(c));
            },
            _ => {},
        }
    }
}

/// The number reader follows JSON's number grammar exactly: what it calls
/// complete is a JSON number (and every JSON number is called complete), and
/// what it does not reject becomes complete after at most one more digit.
pub proof fn lemma_number_grammar(s: Seq<char>, n: NumberText)
    ensures
        is_number_end(number_scan(s)) ==> number_parts(s).valid() && number_parts(s).text() == s,
        n.valid() ==> is_number_end(number_scan(n.text())),
        number_scan(s) != NumberScan::Rejected ==> is_number_end(number_scan(s)) || is_number_end(
            number_scan(s.push('0')),
        ),
{
    if number_scan(s) != NumberScan::Rejected {
        lemma_number_parts(s);
        assert(s.push('0').drop_last() =~= s);
        if is_number_end(number_scan(s)) {
            assert(number_parts(s).text() + Seq::<char>::empty() =~= number_parts(s).text());
        }
    }
    if n.valid() {
        lemma_number_scan_prefix(n, n.text().len() as int);
        assert(n.text().take(n.text().len() as int) =~= n.text());
    }
}

/// A JSON value as text, with the whitespace around its tokens. Strings
/// hold their raw body.
pub enum JsonValue {
    Keyword(Seq<char>),
    Number(NumberText),
    Text(Seq<char>),
    EmptyArray(Seq<char>),
    Array(Box<Items>),
    EmptyObject(Seq<char>),
    Object(Box<Entries>),
}

/// An array element with the whitespace before and after it.
pub struct Element {
    pub before: Seq<char>,
    pub value: Box<JsonValue>,
    pub after: Seq<char>,
}

pub enum Items {
    Last(Element),
    More(Element, Box<Items>),
}

/// An object member with the whitespace around its key and value.
pub struct Entry {
    pub before_key: Seq<char>,
    pub key: Seq<char>,
    pub after_key: Seq<char>,
    pub before_value: Seq<char>,
    pub value: Box<JsonValue>,
    pub after_value: Seq<char>,
}

pub enum Entries {
    Last(Entry),
    More(Entry, Box<Entries>),
}

pub open spec fn quoted(b: Seq<char>) -> Seq<char> {
    seq!['"'] + b + seq!['"']
}

pub open spec fn render(v: JsonValue) -> Seq<char>
    decreases v,
{
    match v {
        JsonValue::Keyword(w) => w,
        JsonValue::Number(n) => n.text(),
        JsonValue::Text(b) => quoted(b),
        JsonValue::EmptyArray(ws) => seq!['['] + ws + seq![']'],
        JsonValue::Array(items) => seq!['['] + render_items(*items) + seq![']'],
        JsonValue::EmptyObject(ws) => seq!['{'] + ws + seq!['}'],
        JsonValue::Object(entries) => seq!['{'] + render_entries(*entries) + seq!['}'],
    }
}

pub open spec fn render_element(e: Element) -> Seq<char>
    decreases e,
{
    e.before + render(*e.value) + e.after
}

pub open spec fn render_items(items: Items) -> Seq<char>
    decreases items,
{
    match items {
        Items::Last(e) => render_element(e),
        Items::More(e, rest) => render_element(e) + seq![','] + render_items(*rest),
    }
}

pub open spec fn render_entry(e: Entry) -> Seq<char>
    decreases e,
{
    e.before_key + quoted(e.key) + e.after_key + seq![':'] + e.before_value + render(*e.value)
        + e.after_value
}

pub open spec fn render_entries(entries: Entries) -> Seq<char>
    decreases entries,
{
    match entries {
        Entries::Last(e) => render_entry(e),
        Entries::More(e, rest) => render_entry(e) + seq![','] + render_entries(*rest),
    }
}

pub open spec fn is_scalar(v: JsonValue) -> bool {
    v is Keyword || v is Number
}

pub open spec fn is_container(v: JsonValue) -> bool {
    v is EmptyArray || v is Array || v is EmptyObject || v is Object
}

pub open spec fn valid_value(v: JsonValue) -> bool
    decreases v,
{
    match v {
        JsonValue::Keyword(w) => is_keyword(w),
        JsonValue::Number(n) => n.valid(),
        JsonValue::Text(b) => string_body(b),
        JsonValue::EmptyArray(ws) => blank(ws),
        JsonValue::Array(items) => valid_items(*items),
        JsonValue::EmptyObject(ws) => blank(ws),
        JsonValue::Object(entries) => valid_entries(*entries),
    }
}

pub open spec fn valid_element(e: Element) -> bool
    decreases e,
{
    &&& blank(e.before)
    &&& valid_value(*e.value)
    &&& blank(e.after)
}

pub open spec fn valid_items(items: Items) -> bool
    decreases items,
{
    match items {
        Items::Last(e) => valid_element(e),
        Items::More(e, rest) => valid_element(e) && valid_items(*rest),
    }
}

pub open spec fn valid_entry(e: Entry) -> bool
    decreases e,
{
    &&& blank(e.before_key)
    &&& string_body(e.key)
    &&& blank(e.after_key)
    &&& blank(e.before_value)
    &&& valid_value(*e.value)
    &&& blank(e.after_value)
}

pub open spec fn valid_entries(entries: Entries) -> bool
    decreases entries,
{
    match entries {
        Entries::Last(e) => valid_entry(e),
        Entries::More(e, rest) => valid_entry(e) && valid_entries(*rest),
    }
}

/// The position of the enclosing container once value `v` is read.
pub open spec fn finished(v: JsonValue) -> ValueView {
    match v {
        JsonValue::Keyword(_) => ValueView::Scalar { complete: true, text: render(v) },
        JsonValue::Number(_) => ValueView::Scalar { complete: true, text: render(v) },
        JsonValue::Text(_) => ValueView::Str(StringState::Closed),
        _ => ValueView::Nested,
    }
}

/// A value may start here, and the stack's top marker matches the
/// enclosing container.
pub open spec fn value_slot(m: Machine) -> bool {
    &&& !m.corrupted
    &&& !m.finished
    &&& m.state.expects_value()
    &&& m.stack.len() > 0
    &&& (m.state is Object ==> m.stack.last() == ClosingToken::CloseBrace)
    &&& (m.state is Array ==> m.stack.last() == ClosingToken::CloseBracket)
}

pub proof fn lemma_feed_cons(m: Machine, c: char, s: Seq<char>)
    ensures
        feed(m, seq![c] + s) == feed(step(m, c), s),
{
    lemma_feed_append(m, seq![c], s);
    lemma_feed_one(m, seq![c]);
}

pub proof fn lemma_feed_snoc(m: Machine, s: Seq<char>, c: char)
    ensures
        feed(m, s + seq![c]) == step(feed(m, s), c),
{
    assert((s + seq![c]).drop_last() =~= s);
}

proof fn lemma_keyword_verdicts(w: Seq<char>, j: int)
    requires
        is_keyword(w),
        1 <= j <= w.len(),
    ensures
        literal_verdict(w.take(j)) is Ok,
        j == w.len() ==> literal_verdict(w.take(j)) == Ok::<_, JSONParseError>(
            CompletionCheckValues::Complete,
        ),
{
    let p = w.take(j);
    assert(p[0] == w[0]);
    assert(p.is_prefix_of(w)) by {
        assert(p =~= w.subrange(0, j));
    }
    if j == w.len() {
        assert(p =~= w);
    }
}

proof fn lemma_number_chars(n: NumberText)
    requires
        n.valid(),
    ensures
        forall|k: int| 0 <= k < n.text().len() ==> scalar_char(#[trigger] n.text()[k]),
{
    let t = n.text();
    let a = n.sign_text().len() as int;
    let b = a + n.int_digits.len();
    let c = n.mantissa().len() as int;
    let d = c + n.exp_mark.len() + n.exp_sign.len();
    assert forall|k: int| 0 <= k < t.len() implies scalar_char(#[trigger] t[k]) by {
        if k < a {
            assert(t[k] == '-');
        } else if k < b {
            assert(t[k] == n.int_digits[k - a]);
            assert(is_digit(n.int_digits[k - a]));
        } else if k < c {
            if k == b {
                assert(t[k] == '.');
            } else {
                assert(t[k] == n.frac_digits[k - b - 1]);
                assert(is_digit(n.frac_digits[k - b - 1]));
            }
        } else if k < c + n.exp_mark.len() {
            assert(t[k] == n.exp_mark[0]);
        } else if k < d {
            assert(t[k] == n.exp_sign[0]);
        } else {
            assert(t[k] == n.exp_digits[k - d]);
            assert(is_digit(n.exp_digits[k - d]));
        }
    }
}

/// Reading a number or keyword where a value may start.
#[verifier::rlimit(50)]
proof fn lemma_scalar_value(m: Machine, v: JsonValue)
    requires
        value_slot(m),
        valid_value(v),
        is_scalar(v),
    ensures
        feed(m, render(v)) == (Machine { state: m.state.with_value(finished(v)), ..m }),
{
    let t = render(v);
    let c = t[0];
    if v is Keyword {
        assert(t.len() >= 4 && (c == 't' || c == 'f' || c == 'n'));
        assert(forall|k: int| 0 <= k < t.len() ==> scalar_char(#[trigger] t[k]));
    } else {
        let n = v->Number_0;
        lemma_number_chars(n);
        if n.minus {
            assert(t[0] == '-');
            assert(t.len() >= 2);
        } else {
            assert(t[0] == n.int_digits[0]);
            assert(is_digit(n.int_digits[0]));
        }
    }
    let m1 = step(m, c);
    assert(m1 == Machine {
        state: m.state.with_value(ValueView::Scalar { complete: is_digit(c), text: seq![c] }),
        ..m
    });
    let rest = t.skip(1);
    assert(seq![c] + rest =~= t);
    lemma_feed_cons(m, c, rest);
    assert(m1.state.scalar_text() == seq![c]);
    assert forall|k: int| 0 <= k < rest.len() implies scalar_char(#[trigger] rest[k]) by {
        assert(rest[k] == t[k + 1]);
    }
    assert forall|k: int| 0 < k <= rest.len() implies #[trigger] literal_verdict(
        m1.state.scalar_text() + rest.take(k),
    ) is Ok by {
        assert(seq![c] + rest.take(k) =~= t.take(k + 1));
        if v is Keyword {
            lemma_keyword_verdicts(t, k + 1);
        } else {
            lemma_number_prefix_verdict(v->Number_0, k + 1);
        }
    }
    lemma_scalar_run(m1, rest);
    if rest.len() == 0 {
        assert(t =~= seq![c]);
        assert(is_digit(c));
    } else {
        assert(t.take(t.len() as int) =~= t);
        if v is Keyword {
            lemma_keyword_verdicts(t, t.len() as int);
        } else {
            lemma_number_verdict_complete(v->Number_0);
        }
    }
}

/// Reading a string value where a value may start.
proof fn lemma_text_value(m: Machine, b: Seq<char>)
    requires
        value_slot(m),
        string_body(b),
    ensures
        feed(m, quoted(b)) == (Machine {
            state: m.state.with_value(ValueView::Str(StringState::Closed)),
            ..m
        }),
{
    let m1 = step(m, '"');
    assert(m1 == Machine {
        stack: m.stack.push(ClosingToken::CloseStringData),
        state: m.state.with_value(ValueView::Str(StringState::Open)),
        ..m
    });
    lemma_string_body_is_content(m1, b);
    lemma_feed_cons(m, '"', b);
    lemma_feed_snoc(m, seq!['"'] + b, '"');
    assert(m1.stack.drop_last() =~= m.stack);
}

/// Reading a key where one may start.
proof fn lemma_key(m: Machine, b: Seq<char>)
    requires
        !m.corrupted,
        !m.finished,
        m.state == StateView::Object(ObjectView::Empty) || m.state == StateView::Object(
            ObjectView::ExpectingKey,
        ),
        string_body(b),
    ensures
        feed(m, quoted(b)) == (Machine {
            state: StateView::Object(ObjectView::InKey(StringState::Closed)),
            ..m
        }),
{
    let m1 = step(m, '"');
    assert(m1 == Machine {
        stack: m.stack.push(ClosingToken::CloseKey),
        state: StateView::Object(ObjectView::InKey(StringState::Open)),
        ..m
    });
    lemma_string_body_is_content(m1, b);
    lemma_feed_cons(m, '"', b);
    lemma_feed_snoc(m, seq!['"'] + b, '"');
    assert(m1.stack.drop_last() =~= m.stack);
}

proof fn lemma_wrapped(m: Machine, open: char, inner: Seq<char>, close: char)
    ensures
        feed(m, seq![open] + inner + seq![close]) == step(feed(step(m, open), inner), close),
{
    lemma_feed_snoc(m, seq![open] + inner, close);
    lemma_feed_cons(m, open, inner);
}

/// What the container holds after value `v` and the whitespace `after` it:
/// whitespace ends a number or keyword.
pub open spec fn spaced_finish(v: JsonValue, after: Seq<char>) -> ValueView {
    if is_scalar(v) && after.len() > 0 {
        ValueView::Nested
    } else {
        finished(v)
    }
}

/// Whitespace, a value, whitespace, from a place where a value may start.
proof fn lemma_spaced(m: Machine, before: Seq<char>, v: JsonValue, after: Seq<char>)
    requires
        value_slot(m),
        blank(before),
        blank(after),
        feed(m, render(v)) == (Machine { state: m.state.with_value(finished(v)), ..m }),
    ensures
        feed(m, before + render(v) + after) == (Machine {
            state: m.state.with_value(spaced_finish(v, after)),
            ..m
        }),
{
    lemma_whitespace_is_skipped(m, before);
    lemma_feed_append(m, before, render(v));
    let r = feed(m, render(v));
    if after.len() == 0 {
        assert(before + render(v) + after =~= before + render(v));
    } else if is_scalar(v) {
        let c = after[0];
        assert(is_whitespace(after[0]));
        let r1 = step(r, c);
        assert(r1 == Machine { state: m.state.with_value(ValueView::Nested), ..m });
        assert(blank(after.skip(1))) by {
            assert forall|i: int| 0 <= i < after.skip(1).len() implies is_whitespace(
                #[trigger] after.skip(1)[i],
            ) by {
                assert(after.skip(1)[i] == after[i + 1]);
            }
        }
        lemma_whitespace_is_skipped(r1, after.skip(1));
        lemma_feed_cons(r, c, after.skip(1));
        assert(seq![c] + after.skip(1) =~= after);
    } else {
        lemma_whitespace_is_skipped(r, after);
    }
    lemma_feed_append(m, before + render(v), after);
}

pub open spec fn opening_char(v: JsonValue) -> char {
    if v is EmptyArray || v is Array {
        '['
    } else {
        '{'
    }
}

pub open spec fn closing_char(v: JsonValue) -> char {
    if v is EmptyArray || v is Array {
        ']'
    } else {
        '}'
    }
}

/// The text between a container's brackets.
pub open spec fn inner_text(v: JsonValue) -> Seq<char> {
    match v {
        JsonValue::EmptyArray(ws) => ws,
        JsonValue::Array(items) => render_items(*items),
        JsonValue::EmptyObject(ws) => ws,
        JsonValue::Object(entries) => render_entries(*entries),
        _ => Seq::empty(),
    }
}

/// The container's contents were read: the stack is back to the container's
/// own marker, and the container is empty or holds a finished value.
pub open spec fn inner_read(m: Machine, v: JsonValue) -> bool {
    let opened = step(m, opening_char(v));
    let r = feed(opened, inner_text(v));
    &&& !r.corrupted
    &&& !r.finished
    &&& r.stack == opened.stack
    &&& if v is EmptyArray || v is Array {
        r.state == StateView::Array(ArrayView::Empty) || (r.state is Array
            && r.state.holds_complete_value())
    } else {
        r.state == StateView::Object(ObjectView::Empty) || (r.state is Object
            && r.state.holds_complete_value())
    }
}

/// Opening a container, reading its contents and closing it.
proof fn lemma_container(m: Machine, v: JsonValue)
    requires
        is_container(v),
        value_slot(m) || (!m.corrupted && !m.finished && m.state == StateView::Pending
            && m.stack.len() == 0),
        inner_read(m, v),
    ensures
        feed(m, render(v)) == (Machine {
            state: if m.state == StateView::Pending {
                StateView::Pending
            } else {
                m.state.with_value(ValueView::Nested)
            },
            finished: m.state == StateView::Pending,
            ..m
        }),
{
    assert(render(v) == seq![opening_char(v)] + inner_text(v) + seq![closing_char(v)]);
    lemma_wrapped(m, opening_char(v), inner_text(v), closing_char(v));
    let opened = step(m, opening_char(v));
    if v is EmptyArray || v is Array {
        assert(opened.stack == m.stack.push(ClosingToken::CloseBracket));
    } else {
        assert(opened.stack == m.stack.push(ClosingToken::CloseBrace));
    }
    assert(opened.stack.drop_last() =~= m.stack);
}

/// Reading any value where a value may start: the enclosing container then
/// holds the finished value, and the stack is as before.
pub proof fn lemma_value(m: Machine, v: JsonValue)
    requires
        value_slot(m),
        valid_value(v),
    ensures
        feed(m, render(v)) == (Machine { state: m.state.with_value(finished(v)), ..m }),
    decreases v,
{
    match v {
        JsonValue::Keyword(_) => lemma_scalar_value(m, v),
        JsonValue::Number(_) => lemma_scalar_value(m, v),
        JsonValue::Text(b) => lemma_text_value(m, b),
        JsonValue::Array(items) => {
            assert(valid_items(*items));
            lemma_items(step(m, '['), *items);
            lemma_container(m, v);
        },
        JsonValue::Object(entries) => {
            assert(valid_entries(*entries));
            lemma_entries(step(m, '{'), *entries);
            lemma_container(m, v);
        },
        _ => {
            lemma_whitespace_is_skipped(step(m, opening_char(v)), inner_text(v));
            lemma_container(m, v);
        },
    }
}

proof fn lemma_finished_is_complete(v: JsonValue)
    ensures
        finished(v).is_complete(),
        !(finished(v) is Scalar) ==> finished(v) == ValueView::Str(StringState::Closed) || finished(
            v,
        ) == ValueView::Nested,
        (finished(v) is Scalar) <==> is_scalar(v),
        forall|after: Seq<char>| #[trigger] spaced_finish(v, after).is_complete(),
{
}

/// Reading one element of an array after `[` or after a separating comma.
proof fn lemma_element(m: Machine, e: Element)
    requires
        !m.corrupted,
        !m.finished,
        m.state == StateView::Array(ArrayView::Empty) || m.state == StateView::Array(
            ArrayView::ExpectingValue,
        ),
        m.stack.len() > 0,
        m.stack.last() == ClosingToken::CloseBracket,
        valid_element(e),
        feed(m, render(*e.value)) == (Machine { state: m.state.with_value(finished(*e.value)), ..m }),
    ensures
        feed(m, render_element(e)) == (Machine {
            state: StateView::Array(ArrayView::InValue(spaced_finish(*e.value, e.after))),
            ..m
        }),
        spaced_finish(*e.value, e.after).is_complete(),
{
    lemma_finished_is_complete(*e.value);
    lemma_spaced(m, e.before, *e.value, e.after);
}

/// Reading the elements of an array after `[` or after a separating comma.
pub proof fn lemma_items(m: Machine, items: Items)
    requires
        !m.corrupted,
        !m.finished,
        m.state == StateView::Array(ArrayView::Empty) || m.state == StateView::Array(
            ArrayView::ExpectingValue,
        ),
        m.stack.len() > 0,
        m.stack.last() == ClosingToken::CloseBracket,
        valid_items(items),
    ensures
        !feed(m, render_items(items)).corrupted,
        !feed(m, render_items(items)).finished,
        feed(m, render_items(items)).stack == m.stack,
        feed(m, render_items(items)).state is Array,
        feed(m, render_items(items)).state.holds_complete_value(),
    decreases items,
{
    match items {
        Items::Last(e) => {
            assert(valid_element(e));
            lemma_value(m, *e.value);
            lemma_element(m, e);
            assert(render_items(items) == render_element(e));
        },
        Items::More(e, rest) => {
            assert(valid_element(e) && valid_items(*rest));
            lemma_value(m, *e.value);
            lemma_element(m, e);
            let r = feed(m, render_element(e));
            lemma_feed_snoc(m, render_element(e), ',');
            let r2 = step(r, ',');
            assert(r2 == Machine { state: StateView::Array(ArrayView::ExpectingValue), ..m });
            lemma_items(r2, *rest);
            lemma_feed_append(m, render_element(e) + seq![','], render_items(*rest));
            assert(render_items(items) == render_element(e) + seq![','] + render_items(*rest));
        },
    }
}

/// Reading one member of an object after `{` or after a separating comma.
proof fn lemma_entry(m: Machine, e: Entry)
    requires
        !m.corrupted,
        !m.finished,
        m.state == StateView::Object(ObjectView::Empty) || m.state == StateView::Object(
            ObjectView::ExpectingKey,
        ),
        m.stack.len() > 0,
        m.stack.last() == ClosingToken::CloseBrace,
        valid_entry(e),
        feed(
            Machine { state: StateView::Object(ObjectView::ExpectingValue), ..m },
            render(*e.value),
        ) == (Machine {
            state: StateView::Object(ObjectView::InValue(finished(*e.value))),
            ..m
        }),
    ensures
        feed(m, render_entry(e)) == (Machine {
            state: StateView::Object(ObjectView::InValue(spaced_finish(*e.value, e.after_value))),
            ..m
        }),
{
    lemma_whitespace_is_skipped(m, e.before_key);
    lemma_key(m, e.key);
    let k = Machine { state: StateView::Object(ObjectView::InKey(StringState::Closed)), ..m };
    lemma_whitespace_is_skipped(k, e.after_key);
    let c = step(k, ':');
    assert(c == Machine { state: StateView::Object(ObjectView::ExpectingValue), ..m });
    assert(c.state.with_value(spaced_finish(*e.value, e.after_value)) == StateView::Object(
        ObjectView::InValue(spaced_finish(*e.value, e.after_value)),
    ));
    lemma_spaced(c, e.before_value, *e.value, e.after_value);
    let head = e.before_key + quoted(e.key) + e.after_key;
    lemma_feed_append(m, e.before_key, quoted(e.key));
    lemma_feed_append(m, e.before_key + quoted(e.key), e.after_key);
    lemma_feed_snoc(m, head, ':');
    let tail = e.before_value + render(*e.value) + e.after_value;
    lemma_feed_append(m, head + seq![':'], tail);
    assert(render_entry(e) =~= head + seq![':'] + tail);
}

/// Reading the members of an object after `{` or after a separating comma.
pub proof fn lemma_entries(m: Machine, entries: Entries)
    requires
        !m.corrupted,
        !m.finished,
        m.state == StateView::Object(ObjectView::Empty) || m.state == StateView::Object(
            ObjectView::ExpectingKey,
        ),
        m.stack.len() > 0,
        m.stack.last() == ClosingToken::CloseBrace,
        valid_entries(entries),
    ensures
        !feed(m, render_entries(entries)).corrupted,
        !feed(m, render_entries(entries)).finished,
        feed(m, render_entries(entries)).stack == m.stack,
        feed(m, render_entries(entries)).state is Object,
        feed(m, render_entries(entries)).state.holds_complete_value(),
    decreases entries,
{
    match entries {
        Entries::Last(e) => {
            assert(valid_entry(e));
            let c = Machine { state: StateView::Object(ObjectView::ExpectingValue), ..m };
            lemma_value(c, *e.value);
            lemma_entry(m, e);
            lemma_finished_is_complete(*e.value);
            assert(render_entries(entries) == render_entry(e));
        },
        Entries::More(e, rest) => {
            assert(valid_entry(e) && valid_entries(*rest));
            let c = Machine { state: StateView::Object(ObjectView::ExpectingValue), ..m };
            lemma_value(c, *e.value);
            lemma_entry(m, e);
            lemma_finished_is_complete(*e.value);
            let r = feed(m, render_entry(e));
            lemma_feed_snoc(m, render_entry(e), ',');
            let r2 = step(r, ',');
            assert(r2 == Machine { state: StateView::Object(ObjectView::ExpectingKey), ..m });
            lemma_entries(r2, *rest);
            lemma_feed_append(m, render_entry(e) + seq![','], render_entries(*rest));
            assert(render_entries(entries) == render_entry(e) + seq![','] + render_entries(*rest));
        },
    }
}

/// A complete JSON document: an object or an array, with whitespace around it.
pub open spec fn valid_document(lead: Seq<char>, v: JsonValue, trail: Seq<char>) -> bool {
    blank(lead) && is_container(v) && valid_value(v) && blank(trail)
}

pub open spec fn document_text(lead: Seq<char>, v: JsonValue, trail: Seq<char>) -> Seq<char> {
    lead + render(v) + trail
}

/// The engine after a whole document: nothing open, and the document marked
/// finished.
pub open spec fn after_document() -> Machine {
    Machine { finished: true, ..Machine::initial() }
}

/// A whole document read from the start closes everything it opened.
proof fn lemma_document_returns_to_start(lead: Seq<char>, v: JsonValue, trail: Seq<char>)
    requires
        valid_document(lead, v, trail),
    ensures
        feed(Machine::initial(), document_text(lead, v, trail)) == after_document(),
{
    let m = Machine::initial();
    lemma_whitespace_is_skipped(m, lead);
    match v {
        JsonValue::Array(items) => {
            assert(valid_items(*items));
            lemma_items(step(m, '['), *items);
        },
        JsonValue::Object(entries) => {
            assert(valid_entries(*entries));
            lemma_entries(step(m, '{'), *entries);
        },
        _ => {
            lemma_whitespace_is_skipped(step(m, opening_char(v)), inner_text(v));
        },
    }
    lemma_container(m, v);
    assert(feed(m, render(v)) == after_document());
    lemma_whitespace_is_skipped(after_document(), trail);
    lemma_feed_append(m, lead, render(v));
    lemma_feed_append(m, lead + render(v), trail);
}

/// A complete JSON document (an object or array, with whitespace anywhere
/// between tokens and no `\u` escapes) needs no suffix.
pub proof fn lemma_complete_document_needs_no_suffix(
    lead: Seq<char>,
    v: JsonValue,
    trail: Seq<char>,
)
    requires
        valid_document(lead, v, trail),
    ensures
        completion_of(feed(Machine::initial(), document_text(lead, v, trail))) == Ok::<
            _,
            Error,
        >(Seq::<char>::empty()),
{
    lemma_document_returns_to_start(lead, v, trail);
    assert(closing_text(Seq::empty()) == Seq::<char>::empty());
}

/// Whitespace after a complete document still needs no suffix.
pub proof fn lemma_document_then_whitespace(
    lead: Seq<char>,
    v: JsonValue,
    trail: Seq<char>,
    ws: Seq<char>,
)
    requires
        valid_document(lead, v, trail),
        blank(ws),
    ensures
        completion_of(feed(Machine::initial(), document_text(lead, v, trail) + ws)) == Ok::<
            _,
            Error,
        >(Seq::<char>::empty()),
{
    lemma_document_returns_to_start(lead, v, trail);
    lemma_feed_append(Machine::initial(), document_text(lead, v, trail), ws);
    lemma_whitespace_is_skipped(after_document(), ws);
    assert(closing_text(Seq::empty()) == Seq::<char>::empty());
}

/// Any other character after a complete document corrupts the stream.
pub proof fn lemma_document_then_other_char(
    lead: Seq<char>,
    v: JsonValue,
    trail: Seq<char>,
    c: char,
)
    requires
        valid_document(lead, v, trail),
        !is_whitespace(c),
    ensures
        completion_of(feed(Machine::initial(), document_text(lead, v, trail) + seq![c])) == Err::<
            Seq<char>,
            _,
        >(Error::Corrupted),
{
    lemma_document_returns_to_start(lead, v, trail);
    lemma_feed_snoc(Machine::initial(), document_text(lead, v, trail), c);
}

} // verus!
