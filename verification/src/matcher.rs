//! The matcher algebra: primitives and combinators as one tagged union,
//! with its mathematical matching semantics.
//!
//! A matcher, applied to a byte sequence, either consumes a prefix of some
//! byte length or fails; failure is an ordinary outcome, never an error.
//! The function [`spec_match`] is the semantics every executable matching
//! routine is proved against.  Greedy repetition and read-until are
//! defined here step by step; the laws module states the same outcomes
//! declaratively — by the first failing repetition and by the first
//! reached position where the terminator matches — and proves the two
//! views equal.

use crate::utf8::spec_decode;
use vstd::prelude::*;

verus! {

/// Upper bound of a bounded repetition: no bound, an inclusive count, or
/// an exclusive count.
#[derive(Clone, Copy, Debug)]
pub enum Upper {
    Unbounded,
    Incl(u32),
    Excl(u32),
}

/// A character class, tested against one decoded scalar value.
#[derive(Debug)]
pub enum CharClass {
    /// ASCII whitespace: space, tab, line feed, vertical tab, form feed,
    /// carriage return.
    Whitespace,
    /// ASCII letters.
    Alphabetic,
    /// ASCII digits.
    Digit,
    /// Exactly the listed characters.
    OneOf(Vec<char>),
    /// Every character but the listed ones.
    NoneOf(Vec<char>),
}

/// A pattern matcher: the atomic testers and the combinators over them,
/// as one tagged union.
#[derive(Debug)]
#[allow(inconsistent_fields)]
pub enum Matcher {
    /// Succeeds iff the input starts with these bytes; consumes their length.
    Literal { bytes: Vec<u8> },
    /// Succeeds iff the first character belongs to the class; consumes that
    /// character's encoded length.
    Class { class: CharClass },
    /// Succeeds iff the first character's scalar value lies in the range;
    /// `inclusive` selects a closed or half-open upper end.
    CharRange { lo: char, hi: char, inclusive: bool },
    /// Succeeds iff the input starts with any well-formed character;
    /// consumes exactly that character.
    Any,
    /// Sequence: `first`, then `second` immediately after it.
    And { first: Box<Matcher>, second: Box<Matcher> },
    /// Priority-ordered choice: `first`, and only on its failure `second`,
    /// both at the same position.
    Or { first: Box<Matcher>, second: Box<Matcher> },
    /// Exactly `count` consecutive matches of `inner`.
    Many { inner: Box<Matcher>, count: u32 },
    /// Greedy repetition of `inner`, stopped by `upper`, accepted when the
    /// repetition count ends within `lo..` and `upper`.
    Rep { inner: Box<Matcher>, lo: u32, upper: Upper },
    /// Repeats `inner` until `terminator` matches; the terminator's match
    /// is included in the consumed length.
    Until { inner: Box<Matcher>, terminator: Box<Matcher> },
    /// Matches as `inner` does and records the matched span.
    Cap { inner: Box<Matcher> },
}

/// Nesting depth of a matcher, the measure its recursive semantics
/// decreases on.
pub open spec fn height(m: Matcher) -> nat
    decreases m,
{
    match m {
        Matcher::Literal { .. } => 0,
        Matcher::Class { .. } => 0,
        Matcher::CharRange { .. } => 0,
        Matcher::Any => 0,
        Matcher::And { first, second } => 1 + if height(*first) >= height(*second) {
            height(*first)
        } else {
            height(*second)
        },
        Matcher::Or { first, second } => 1 + if height(*first) >= height(*second) {
            height(*first)
        } else {
            height(*second)
        },
        Matcher::Many { inner, .. } => 1 + height(*inner),
        Matcher::Rep { inner, .. } => 1 + height(*inner),
        Matcher::Until { inner, terminator } => 1 + if height(*inner) >= height(*terminator) {
            height(*inner)
        } else {
            height(*terminator)
        },
        Matcher::Cap { inner } => 1 + height(*inner),
    }
}

/// Whether the scalar value `sc` belongs to the class.
pub open spec fn class_has(c: CharClass, sc: u32) -> bool {
    match c {
        CharClass::Whitespace => sc == 0x20 || sc == 0x09 || sc == 0x0A || sc == 0x0B || sc == 0x0C
            || sc == 0x0D,
        CharClass::Alphabetic => (0x41 <= sc && sc <= 0x5A) || (0x61 <= sc && sc <= 0x7A),
        CharClass::Digit => 0x30 <= sc && sc <= 0x39,
        CharClass::OneOf(cs) => exists|i: int| 0 <= i < cs@.len() && cs@[i] as u32 == sc,
        CharClass::NoneOf(cs) => forall|i: int| 0 <= i < cs@.len() ==> cs@[i] as u32 != sc,
    }
}

/// Whether reaching the repetition count `c` triggers the upper bound's
/// stop check.  The count is examined after each successful repetition.
pub open spec fn upper_hit(u: Upper, c: nat) -> bool {
    match u {
        Upper::Unbounded => false,
        Upper::Incl(b) => c == b,
        Upper::Excl(b) => c + 1 == b,
    }
}

/// The repetition count at which a greedy repetition stops because of its
/// upper bound, if a run of successes can ever reach one.  Only counts of
/// one or more are ever examined, so a bound whose stop check asks for
/// count zero never stops the repetition.
pub open spec fn stop_count(u: Upper) -> Option<nat> {
    match u {
        Upper::Unbounded => None,
        Upper::Incl(b) => if b >= 1 {
            Some(b as nat)
        } else {
            None
        },
        Upper::Excl(b) => if b >= 2 {
            Some((b - 1) as nat)
        } else {
            None
        },
    }
}

/// How many further successful repetitions a greedy repetition can make
/// before its upper bound stops it.
pub open spec fn rep_slack(u: Upper, c: nat) -> nat {
    match stop_count(u) {
        Some(s) => if c <= s {
            (s - c) as nat
        } else {
            0
        },
        None => 0,
    }
}

/// Whether a final repetition count is acceptable: at least `lo` and
/// within the upper bound.
pub open spec fn in_bounds(lo: u32, u: Upper, count: nat) -> bool {
    lo <= count && match u {
        Upper::Unbounded => true,
        Upper::Incl(b) => count <= b,
        Upper::Excl(b) => count < b,
    }
}

/// How much of `t` the matcher `m` consumes, or `None` when it does not
/// match.  This is the semantics of the whole algebra.
pub open spec fn spec_match(m: Matcher, t: Seq<u8>) -> Option<nat>
    decreases height(m), 1nat, 0nat, 0nat,
{
    match m {
        Matcher::Literal { bytes } => {
            if bytes@.len() <= t.len() && t.take(bytes@.len() as int) == bytes@ {
                Some(bytes@.len())
            } else {
                None
            }
        },
        Matcher::Class { class } => {
            match spec_decode(t) {
                Some((sc, len)) => if class_has(class, sc) {
                    Some(len)
                } else {
                    None
                },
                None => None,
            }
        },
        Matcher::CharRange { lo, hi, inclusive } => {
            match spec_decode(t) {
                Some((sc, len)) => {
                    if lo as u32 <= sc && (if inclusive {
                        sc <= hi as u32
                    } else {
                        sc < hi as u32
                    }) {
                        Some(len)
                    } else {
                        None
                    }
                },
                None => None,
            }
        },
        Matcher::Any => {
            match spec_decode(t) {
                Some((sc, len)) => Some(len),
                None => None,
            }
        },
        Matcher::And { first, second } => {
            match spec_match(*first, t) {
                Some(la) => {
                    match spec_match(*second, t.skip(la as int)) {
                        Some(lb) => Some(la + lb),
                        None => None,
                    }
                },
                None => None,
            }
        },
        Matcher::Or { first, second } => {
            match spec_match(*first, t) {
                None => spec_match(*second, t),
                r => r,
            }
        },
        Matcher::Many { inner, count } => runs(*inner, t, count as nat),
        Matcher::Rep { inner, lo, upper } => rep_go(*inner, t, lo, upper, 0, 0),
        Matcher::Until { inner, terminator } => until_go(*inner, *terminator, t, 0),
        Matcher::Cap { inner } => spec_match(*inner, t),
    }
}

/// Total length consumed by exactly `k` consecutive matches of `inner`
/// from the start of `t`, or `None` when one of the `k` repetitions
/// fails.  This is also the position reached after `k` repetition steps.
pub open spec fn runs(inner: Matcher, t: Seq<u8>, k: nat) -> Option<nat>
    decreases height(inner), 2nat, k, 0nat,
{
    if k == 0 {
        Some(0)
    } else {
        match runs(inner, t, (k - 1) as nat) {
            Some(l) => {
                match spec_match(inner, t.skip(l as int)) {
                    Some(step) => Some(l + step),
                    None => None,
                }
            },
            None => None,
        }
    }
}

/// One greedy repetition state: `l` bytes consumed by `c` successful
/// repetitions so far, none of which has triggered the stop check.  At
/// each state the inner matcher runs once more: on failure the repetition
/// ends, acceptably or not; on success the count is checked against the
/// upper bound.  A successful repetition that consumes nothing while no
/// stop check can ever trigger would repeat in place forever; that state
/// yields no match.  A repetition never consumes past the input, so the
/// guard on `l + step` only keeps this function total.
pub open spec fn rep_go(inner: Matcher, t: Seq<u8>, lo: u32, upper: Upper, l: nat, c: nat) -> Option<
    nat,
>
    decreases height(inner), 2nat, (if l <= t.len() {
        (t.len() - l) as nat
    } else {
        0nat
    }), rep_slack(upper, c),
{
    match spec_match(inner, t.skip(l as int)) {
        None => if in_bounds(lo, upper, c) {
            Some(l)
        } else {
            None
        },
        Some(step) => {
            if upper_hit(upper, c + 1) {
                Some(l + step)
            } else if step == 0 {
                match stop_count(upper) {
                    Some(s) => if c + 1 <= s {
                        rep_go(inner, t, lo, upper, l, c + 1)
                    } else {
                        None
                    },
                    None => None,
                }
            } else if l + step > t.len() {
                None
            } else {
                rep_go(inner, t, lo, upper, (l + step) as nat, c + 1)
            }
        },
    }
}

/// One read-until state: `l` bytes consumed by the repetitions so far.
/// The terminator is tried first; when it matches, the whole match ends
/// with it.  Otherwise one repetition of the inner matcher runs: its
/// failure fails the whole match, and a repetition that consumes nothing
/// would retry the same position forever, so that state yields no match.
/// A repetition never consumes past the input; the guard on `l + step`
/// only keeps this function total.
pub open spec fn until_go(inner: Matcher, term: Matcher, t: Seq<u8>, l: nat) -> Option<nat>
    decreases (if height(inner) >= height(term) {
        height(inner)
    } else {
        height(term)
    }), 2nat, (if l <= t.len() {
        (t.len() - l) as nat
    } else {
        0nat
    }), 0nat,
{
    match spec_match(term, t.skip(l as int)) {
        Some(lu) => Some(l + lu),
        None => {
            match spec_match(inner, t.skip(l as int)) {
                None => None,
                Some(step) => {
                    if step == 0 {
                        None
                    } else if l + step > t.len() {
                        None
                    } else {
                        until_go(inner, term, t, (l + step) as nat)
                    }
                },
            }
        },
    }
}

/// Whether `m` matches the empty input.
pub open spec fn nullable(m: Matcher) -> bool {
    spec_match(m, Seq::empty()) is Some
}

/// Construction invariant of a matcher: no greedy repetition in it pairs
/// an inner matcher that accepts the empty input with an unbounded upper
/// bound.  Such a repetition is a malformed pattern definition, rejected
/// as a fatal misuse, never a runtime no-match.
pub open spec fn loop_safe(m: Matcher) -> bool
    decreases m,
{
    match m {
        Matcher::And { first, second } => loop_safe(*first) && loop_safe(*second),
        Matcher::Or { first, second } => loop_safe(*first) && loop_safe(*second),
        Matcher::Many { inner, .. } => loop_safe(*inner),
        Matcher::Rep { inner, lo, upper } => loop_safe(*inner) && (upper is Unbounded
            ==> !nullable(*inner)),
        Matcher::Until { inner, terminator } => loop_safe(*inner) && loop_safe(*terminator),
        Matcher::Cap { inner } => loop_safe(*inner),
        _ => true,
    }
}

/// The capture spans recorded while matching `m` against `t`, where `t`
/// begins at absolute offset `base` of the original input: pairs of
/// absolute start offset and byte length, in left-to-right composition
/// order.  A failed sequence keeps the spans its left part had already
/// recorded; a failed alternation discards the failed branch's spans;
/// repetition and read-until do not record spans of their inner matchers.
pub open spec fn spec_caps(m: Matcher, t: Seq<u8>, base: int) -> Seq<(int, int)>
    decreases height(m),
{
    match m {
        Matcher::And { first, second } => {
            match spec_match(*first, t) {
                Some(la) => spec_caps(*first, t, base) + spec_caps(
                    *second,
                    t.skip(la as int),
                    base + la,
                ),
                None => spec_caps(*first, t, base),
            }
        },
        Matcher::Or { first, second } => {
            if spec_match(*first, t) is Some {
                spec_caps(*first, t, base)
            } else if spec_match(*second, t) is Some {
                spec_caps(*second, t, base)
            } else {
                Seq::empty()
            }
        },
        Matcher::Cap { inner } => {
            match spec_match(*inner, t) {
                Some(l) => seq![(base, l as int)],
                None => Seq::empty(),
            }
        },
        _ => Seq::empty(),
    }
}

} // verus!
