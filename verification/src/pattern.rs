//! The immutable pattern value and its combinator methods.
//!
//! A pattern owns one matcher.  Combinator methods consume their operands
//! and return new pattern values; none mutates its receiver, and a cloned
//! pattern can be reused inside many larger expressions.

use crate::matcher::loop_safe;
use crate::matcher::spec_caps;
use crate::matcher::spec_match;
use crate::matcher::CharClass;
use crate::matcher::Matcher;
use crate::matcher::Upper;
use crate::read_pattern::ReadPattern;
use crate::read_pattern::Span;
use crate::utf8::encode_char;
use crate::utf8::spec_encode;
use vstd::prelude::*;

verus! {

/// An immutable, composable pattern: a value wrapping one matcher and
/// exposing the combinator operations as value-producing methods.
#[derive(Debug)]
pub struct Pattern {
    pub matcher: Matcher,
}

/// Wrap a matcher as a pattern.
pub fn pat(matcher: Matcher) -> (r: Pattern)
    ensures
        r.matcher == matcher,
{
    Pattern { matcher }
}

/// A pattern that matches as `p` does and records the matched span.
pub fn cap(p: Pattern) -> (r: Pattern)
    ensures
        r.matcher matches Matcher::Cap { inner } && *inner == p.matcher,
{
    Pattern { matcher: Matcher::Cap { inner: Box::new(p.matcher) } }
}

impl Matcher {
    /// A matcher for this literal byte text.
    pub fn lit(bytes: Vec<u8>) -> (r: Matcher)
        ensures
            r matches Matcher::Literal { bytes: b } && b@ == bytes@,
    {
        Matcher::Literal { bytes }
    }

    /// A matcher for this one literal character, encoded as UTF-8.
    pub fn lit_char(c: char) -> (r: Matcher)
        ensures
            r matches Matcher::Literal { bytes: b } && b@ == spec_encode(c as u32),
    {
        Matcher::Literal { bytes: encode_char(c) }
    }

    /// A matcher for one character of the class.
    pub fn class(class: CharClass) -> (r: Matcher)
        ensures
            r == (Matcher::Class { class }),
    {
        Matcher::Class { class }
    }

    /// A matcher for any one character.
    pub fn any() -> (r: Matcher)
        ensures
            r == Matcher::Any,
    {
        Matcher::Any
    }

    /// A matcher for one character in the half-open scalar range
    /// `lo..hi`.
    pub fn char_range(lo: char, hi: char) -> (r: Matcher)
        ensures
            r == (Matcher::CharRange { lo, hi, inclusive: false }),
    {
        Matcher::CharRange { lo, hi, inclusive: false }
    }

    /// A matcher for one character in the closed scalar range `lo..=hi`.
    pub fn char_range_incl(lo: char, hi: char) -> (r: Matcher)
        ensures
            r == (Matcher::CharRange { lo, hi, inclusive: true }),
    {
        Matcher::CharRange { lo, hi, inclusive: true }
    }
}

impl Pattern {
    /// Priority-ordered alternation: this pattern, or else `other`.
    pub fn or(self, other: Pattern) -> (r: Pattern)
        ensures
            r.matcher matches Matcher::Or { first, second } && *first == self.matcher && *second
                == other.matcher,
    {
        Pattern {
            matcher: Matcher::Or {
                first: Box::new(self.matcher),
                second: Box::new(other.matcher),
            },
        }
    }

    /// Sequence: this pattern, then `other` immediately after it.
    pub fn then(self, other: Pattern) -> (r: Pattern)
        ensures
            r.matcher matches Matcher::And { first, second } && *first == self.matcher && *second
                == other.matcher,
    {
        Pattern {
            matcher: Matcher::And {
                first: Box::new(self.matcher),
                second: Box::new(other.matcher),
            },
        }
    }

    /// Exact repetition: this pattern exactly `count` times.
    pub fn repeat(self, count: u32) -> (r: Pattern)
        ensures
            r.matcher matches Matcher::Many { inner, count: c } && *inner == self.matcher && c
                == count,
    {
        Pattern { matcher: Matcher::Many { inner: Box::new(self.matcher), count } }
    }

    /// Bounded greedy repetition: this pattern at least `lo` times, with
    /// the given upper bound.
    pub fn repeat_range(self, lo: u32, upper: Upper) -> (r: Pattern)
        ensures
            r.matcher matches Matcher::Rep { inner, lo: l, upper: u } && *inner == self.matcher
                && l == lo && u == upper,
    {
        Pattern { matcher: Matcher::Rep { inner: Box::new(self.matcher), lo, upper } }
    }

    /// Unbounded greedy repetition: this pattern any number of times.
    pub fn repeat_unbounded(self) -> (r: Pattern)
        ensures
            r.matcher matches Matcher::Rep { inner, lo, upper } && *inner == self.matcher && lo
                == 0 && upper == Upper::Unbounded,
    {
        Pattern {
            matcher: Matcher::Rep {
                inner: Box::new(self.matcher),
                lo: 0,
                upper: Upper::Unbounded,
            },
        }
    }

    /// Read-until: repeat this pattern until `terminator` matches; the
    /// terminator's match is included.
    pub fn until(self, terminator: Pattern) -> (r: Pattern)
        ensures
            r.matcher matches Matcher::Until { inner, terminator: term } && *inner == self.matcher
                && *term == terminator.matcher,
    {
        Pattern {
            matcher: Matcher::Until {
                inner: Box::new(self.matcher),
                terminator: Box::new(terminator.matcher),
            },
        }
    }

    /// Whether the pattern satisfies the construction invariant: no
    /// greedy repetition in it pairs an inner matcher that accepts the
    /// empty input with an unbounded upper bound.  A pattern that fails
    /// this check is a malformed definition and must not be matched with.
    pub fn check_wf(&self) -> (r: bool)
        ensures
            r == self.wf(),
    {
        self.matcher.check_loop_safe()
    }

    /// A pattern that matches as this one does and records the matched
    /// span.
    pub fn capture(self) -> (r: Pattern)
        ensures
            r.matcher matches Matcher::Cap { inner } && *inner == self.matcher,
    {
        Pattern { matcher: Matcher::Cap { inner: Box::new(self.matcher) } }
    }
}

impl ReadPattern for Pattern {
    open spec fn spec_read(&self, t: Seq<u8>) -> Option<nat> {
        spec_match(self.matcher, t)
    }

    open spec fn spec_captures(&self, t: Seq<u8>, base: int) -> Seq<(int, int)> {
        spec_caps(self.matcher, t, base)
    }

    open spec fn wf(&self) -> bool {
        loop_safe(self.matcher)
    }

    fn read_pattern(&self, text: &[u8]) -> (r: Option<usize>) {
        self.matcher.read_pattern(text)
    }

    fn test_pattern(&self, text: &[u8]) -> (r: bool) {
        self.matcher.test_pattern(text)
    }

    fn read_captures(&self, text: &[u8], buf: &mut Vec<Span>) -> (r: Option<usize>) {
        self.matcher.read_captures(text, buf)
    }
}

} // verus!
