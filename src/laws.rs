use vstd::prelude::*;

use crate::balancer::{
    completion_of, consistent, feed, lemma_feed_append, lemma_feed_consistent, lemma_feed_corrupted,
    step, Error, Machine,
};
use crate::structure::ClosingToken;
use crate::literal::{false_word, literal_verdict, null_word, number_scan, true_word, NumberScan};

verus! {

/// A character that opens or closes a container or a string, or starts an escape.
pub open spec fn is_delimiter(c: char) -> bool {
    c == '{' || c == '}' || c == '[' || c == ']' || c == '"' || c == '\\'
}

/// Lexical summary of a prefix: the closing brackets of the containers left
/// open outside strings, outermost first, and whether a string (and an
/// escape in it) is open. An escape stays open while `u` follows the
/// backslash.
pub struct Scan {
    pub closers: Seq<char>,
    pub in_string: bool,
    pub escaped: bool,
}

pub open spec fn scan_char(sc: Scan, c: char) -> Scan {
    if sc.in_string {
        if sc.escaped {
            Scan { escaped: c == 'u', ..sc }
        } else if c == '\\' {
            Scan { escaped: true, ..sc }
        } else if c == '"' {
            Scan { in_string: false, ..sc }
        } else {
            sc
        }
    } else if c == '"' {
        Scan { in_string: true, escaped: false, ..sc }
    } else if c == '{' {
        Scan { closers: sc.closers.push('}'), ..sc }
    } else if c == '[' {
        Scan { closers: sc.closers.push(']'), ..sc }
    } else if c == '}' || c == ']' {
        Scan { closers: sc.closers.drop_last(), ..sc }
    } else {
        sc
    }
}

pub open spec fn scan(s: Seq<char>) -> Scan
    decreases s.len(),
{
    if s.len() == 0 {
        Scan { closers: Seq::empty(), in_string: false, escaped: false }
    } else {
        scan_char(scan(s.drop_last()), s.last())
    }
}

/// The number of containers and strings left open by the prefix `s`.
pub open spec fn open_count(s: Seq<char>) -> int {
    scan(s).closers.len() + if scan(s).in_string {
        1int
    } else {
        0int
    }
}

/// Whatever the engine has seen, the completion is a suffix, `NotClosable`
/// or `Corrupted`: exactly one of the three outcomes.
pub proof fn lemma_one_of_three_outcomes(m: Machine)
    ensures
        completion_of(m) is Ok || completion_of(m) == Err::<Seq<char>, Error>(Error::NotClosable)
            || completion_of(m) == Err::<Seq<char>, Error>(Error::Corrupted),
{
}

/// Where a fragment boundary falls does not matter: reading `a` and then
/// `b` leaves the engine as reading `a + b` at once does.
pub proof fn lemma_fragment_boundaries_do_not_matter(a: Seq<char>, b: Seq<char>)
    ensures
        feed(feed(Machine::initial(), a), b) == feed(Machine::initial(), a + b),
        completion_of(feed(feed(Machine::initial(), a), b)) == completion_of(
            feed(Machine::initial(), a + b),
        ),
{
    lemma_feed_append(Machine::initial(), a, b);
}

/// Once a prefix corrupts the stream, no further input changes that: every
/// later completion reports `Corrupted`.
pub proof fn lemma_corruption_is_sticky(a: Seq<char>, b: Seq<char>)
    requires
        feed(Machine::initial(), a).corrupted,
    ensures
        feed(Machine::initial(), a + b).corrupted,
        completion_of(feed(Machine::initial(), a + b)) == Err::<Seq<char>, Error>(Error::Corrupted),
{
    lemma_feed_append(Machine::initial(), a, b);
    lemma_feed_corrupted(feed(Machine::initial(), a), b);
}

/// A literal never takes in a delimiter.
proof fn lemma_verdict_rejects_delimiter(s: Seq<char>)
    requires
        s.len() > 0,
        is_delimiter(s.last()),
    ensures
        literal_verdict(s) is Err,
{
    assert(number_scan(s) == NumberScan::Rejected);
    let w = s;
    if w.len() <= 5 && w.is_prefix_of(true_word()) {
        assert(true_word()[w.len() - 1] == w.last());
    }
    if w.len() <= 5 && w.is_prefix_of(false_word()) {
        assert(false_word()[w.len() - 1] == w.last());
    }
    if w.len() <= 5 && w.is_prefix_of(null_word()) {
        assert(null_word()[w.len() - 1] == w.last());
    }
}

/// The closing characters of the stack's markers, bottom first.
pub open spec fn marker_chars(stack: Seq<ClosingToken>) -> Seq<char> {
    stack.map_values(|t: ClosingToken| t.char_spec())
}

/// The closing characters that a prefix leaves owed, outermost first: its
/// open containers' brackets, then a quote if it ends inside a string.
pub open spec fn owed_closers(sc: Scan) -> Seq<char> {
    if sc.in_string {
        sc.closers.push('"')
    } else {
        sc.closers
    }
}

proof fn lemma_marker_chars_last(stack: Seq<ClosingToken>)
    requires
        stack.len() > 0,
    ensures
        marker_chars(stack) == marker_chars(stack.drop_last()).push(stack.last().char_spec()),
{
    assert(marker_chars(stack) =~= marker_chars(stack.drop_last()).push(stack.last().char_spec()));
}

/// The engine's state agrees with the scan of the same prefix.
pub open spec fn agrees(m: Machine, sc: Scan) -> bool {
    &&& marker_chars(m.stack) == owed_closers(sc)
    &&& sc.in_string == m.state.in_open_string()
    &&& sc.escaped == m.state.is_escaped()
}

proof fn lemma_step_agrees(m: Machine, sc: Scan, c: char)
    requires
        !m.corrupted,
        agrees(m, sc),
        !step(m, c).corrupted,
    ensures
        agrees(step(m, c), scan_char(sc, c)),
{
    let s = m.state;
    let r = step(m, c);
    let n = m.stack.len();
    if r.stack.len() == n + 1 {
        assert(r.stack.drop_last() =~= m.stack);
        lemma_marker_chars_last(r.stack);
    } else if r.stack.len() + 1 == n {
        assert(r.stack =~= m.stack.drop_last());
        lemma_marker_chars_last(m.stack);
        assert(marker_chars(r.stack) =~= marker_chars(m.stack).drop_last());
    }
    assert(sc.closers.push('"').drop_last() =~= sc.closers);
    if s.in_scalar() {
        let text = s.scalar_text().push(c);
        if is_delimiter(c) {
            lemma_verdict_rejects_delimiter(text);
        }
    }
    assert(s.is_escaped() ==> s.in_open_string());
}

/// The container stack holds one marker for each container or string that
/// the observed prefix leaves open, outermost first, each closing its own
/// context; so its depth is the number of open contexts.
pub proof fn lemma_stack_depth_matches_prefix(s: Seq<char>)
    requires
        !feed(Machine::initial(), s).corrupted,
    ensures
        feed(Machine::initial(), s).stack.len() == open_count(s),
        marker_chars(feed(Machine::initial(), s).stack) == owed_closers(scan(s)),
        agrees(feed(Machine::initial(), s), scan(s)),
    decreases s.len(),
{
    if s.len() == 0 {
        assert(marker_chars(Seq::<ClosingToken>::empty()) =~= Seq::<char>::empty());
    } else {
        let p = s.drop_last();
        let m = feed(Machine::initial(), p);
        if m.corrupted {
            lemma_feed_corrupted(m, seq![s.last()]);
            lemma_feed_append(Machine::initial(), p, seq![s.last()]);
            assert(p + seq![s.last()] =~= s);
        }
        lemma_stack_depth_matches_prefix(p);
        lemma_step_agrees(m, scan(p), s.last());
    }
    let ms = feed(Machine::initial(), s).stack;
    assert(marker_chars(ms).len() == ms.len());
}

/// Every state the engine reaches from the start satisfies its invariant.
pub proof fn lemma_reachable_states_are_consistent(s: Seq<char>)
    ensures
        consistent(feed(Machine::initial(), s)),
{
    lemma_feed_consistent(Machine::initial(), s);
}

} // verus!
