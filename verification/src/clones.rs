//! Deep copies of matchers and patterns, with the guarantee that a copy
//! behaves as the original: it matches every text with the same outcome,
//! records the same capture spans, and satisfies the construction
//! invariant exactly when the original does.  That is what lets one
//! pattern value be reused inside many larger expressions.

use crate::matcher::height;
use crate::matcher::loop_safe;
use crate::matcher::rep_go;
use crate::matcher::rep_slack;
use crate::matcher::runs;
use crate::matcher::spec_caps;
use crate::matcher::spec_match;
use crate::matcher::stop_count;
use crate::matcher::until_go;
use crate::matcher::upper_hit;
use crate::matcher::CharClass;
use crate::matcher::Matcher;
use crate::matcher::Upper;
use crate::pattern::Pattern;
use vstd::prelude::*;

verus! {

/// Whether two character classes are the same class over the same
/// characters.
pub open spec fn class_mirrors(a: CharClass, b: CharClass) -> bool {
    match (a, b) {
        (CharClass::Whitespace, CharClass::Whitespace) => true,
        (CharClass::Alphabetic, CharClass::Alphabetic) => true,
        (CharClass::Digit, CharClass::Digit) => true,
        (CharClass::OneOf(x), CharClass::OneOf(y)) => x@ == y@,
        (CharClass::NoneOf(x), CharClass::NoneOf(y)) => x@ == y@,
        _ => false,
    }
}

/// Whether two matchers are copies of one another: the same shape, with
/// the same bytes, characters and bounds at every leaf.
pub open spec fn mirrors(a: Matcher, b: Matcher) -> bool
    decreases a,
{
    match (a, b) {
        (Matcher::Literal { bytes: x }, Matcher::Literal { bytes: y }) => x@ == y@,
        (Matcher::Class { class: x }, Matcher::Class { class: y }) => class_mirrors(x, y),
        (
            Matcher::CharRange { lo: l1, hi: h1, inclusive: v1 },
            Matcher::CharRange { lo: l2, hi: h2, inclusive: v2 },
        ) => l1 == l2 && h1 == h2 && v1 == v2,
        (Matcher::Any, Matcher::Any) => true,
        (
            Matcher::And { first: f1, second: s1 },
            Matcher::And { first: f2, second: s2 },
        ) => mirrors(*f1, *f2) && mirrors(*s1, *s2),
        (
            Matcher::Or { first: f1, second: s1 },
            Matcher::Or { first: f2, second: s2 },
        ) => mirrors(*f1, *f2) && mirrors(*s1, *s2),
        (
            Matcher::Many { inner: i1, count: c1 },
            Matcher::Many { inner: i2, count: c2 },
        ) => mirrors(*i1, *i2) && c1 == c2,
        (
            Matcher::Rep { inner: i1, lo: l1, upper: u1 },
            Matcher::Rep { inner: i2, lo: l2, upper: u2 },
        ) => mirrors(*i1, *i2) && l1 == l2 && u1 == u2,
        (
            Matcher::Until { inner: i1, terminator: t1 },
            Matcher::Until { inner: i2, terminator: t2 },
        ) => mirrors(*i1, *i2) && mirrors(*t1, *t2),
        (Matcher::Cap { inner: i1 }, Matcher::Cap { inner: i2 }) => mirrors(*i1, *i2),
        _ => false,
    }
}

/// What a clone of a primitive byte promises.
proof fn lemma_u8_cloned(x: u8, y: u8)
    requires
        vstd::pervasive::cloned::<u8>(x, y),
    ensures
        x == y,
{
}

/// What a clone of a character promises.
proof fn lemma_char_cloned(x: char, y: char)
    requires
        vstd::pervasive::cloned::<char>(x, y),
    ensures
        x == y,
{
}

/// Copies of one matcher match every text with the same outcome.
pub proof fn lemma_mirrors_match(a: Matcher, b: Matcher, t: Seq<u8>)
    requires
        mirrors(a, b),
    ensures
        spec_match(a, t) == spec_match(b, t),
    decreases height(a), 1nat, 0nat, 0nat,
{
    match a {
        Matcher::And { first, second } => {
            match b {
                Matcher::And { first: bf, second: bs } => {
                    lemma_mirrors_match(*first, *bf, t);
                    match spec_match(*first, t) {
                        Some(la) => {
                            lemma_mirrors_match(*second, *bs, t.skip(la as int));
                        },
                        None => {},
                    }
                },
                _ => {},
            }
        },
        Matcher::Or { first, second } => {
            match b {
                Matcher::Or { first: bf, second: bs } => {
                    lemma_mirrors_match(*first, *bf, t);
                    lemma_mirrors_match(*second, *bs, t);
                },
                _ => {},
            }
        },
        Matcher::Many { inner, count } => {
            match b {
                Matcher::Many { inner: bi, count: bc } => {
                    lemma_mirrors_runs(*inner, *bi, t, count as nat);
                },
                _ => {},
            }
        },
        Matcher::Rep { inner, lo, upper } => {
            match b {
                Matcher::Rep { inner: bi, lo: bl, upper: bu } => {
                    lemma_mirrors_rep_go(*inner, *bi, t, lo, upper, 0, 0);
                },
                _ => {},
            }
        },
        Matcher::Until { inner, terminator } => {
            match b {
                Matcher::Until { inner: bi, terminator: bt } => {
                    lemma_mirrors_until_go(*inner, *bi, *terminator, *bt, t, 0);
                },
                _ => {},
            }
        },
        Matcher::Cap { inner } => {
            match b {
                Matcher::Cap { inner: bi } => {
                    lemma_mirrors_match(*inner, *bi, t);
                },
                _ => {},
            }
        },
        _ => {},
    }
}

/// Copies of one matcher repeat alike.
proof fn lemma_mirrors_runs(a: Matcher, b: Matcher, t: Seq<u8>, k: nat)
    requires
        mirrors(a, b),
    ensures
        runs(a, t, k) == runs(b, t, k),
    decreases height(a), 2nat, k, 0nat,
{
    if k > 0 {
        lemma_mirrors_runs(a, b, t, (k - 1) as nat);
        match runs(a, t, (k - 1) as nat) {
            Some(l) => {
                lemma_mirrors_match(a, b, t.skip(l as int));
            },
            None => {},
        }
    }
}

/// Copies of one matcher repeat greedily alike from any state.
proof fn lemma_mirrors_rep_go(
    a: Matcher,
    b: Matcher,
    t: Seq<u8>,
    lo: u32,
    upper: Upper,
    l: nat,
    c: nat,
)
    requires
        mirrors(a, b),
    ensures
        rep_go(a, t, lo, upper, l, c) == rep_go(b, t, lo, upper, l, c),
    decreases height(a), 2nat, (if l <= t.len() {
        (t.len() - l) as nat
    } else {
        0nat
    }), rep_slack(upper, c),
{
    lemma_mirrors_match(a, b, t.skip(l as int));
    match spec_match(a, t.skip(l as int)) {
        None => {},
        Some(step) => {
            if upper_hit(upper, c + 1) {
            } else if step == 0 {
                match stop_count(upper) {
                    Some(s) => {
                        if c + 1 <= s {
                            lemma_mirrors_rep_go(a, b, t, lo, upper, l, c + 1);
                        }
                    },
                    None => {},
                }
            } else if l + step > t.len() {
            } else {
                lemma_mirrors_rep_go(a, b, t, lo, upper, (l + step) as nat, c + 1);
            }
        },
    }
}

/// Copies of one matcher read until copies of one terminator alike from
/// any state.
proof fn lemma_mirrors_until_go(
    i1: Matcher,
    i2: Matcher,
    tm1: Matcher,
    tm2: Matcher,
    t: Seq<u8>,
    l: nat,
)
    requires
        mirrors(i1, i2),
        mirrors(tm1, tm2),
    ensures
        until_go(i1, tm1, t, l) == until_go(i2, tm2, t, l),
    decreases (if height(i1) >= height(tm1) {
        height(i1)
    } else {
        height(tm1)
    }), 2nat, (if l <= t.len() {
        (t.len() - l) as nat
    } else {
        0nat
    }), 0nat,
{
    lemma_mirrors_match(tm1, tm2, t.skip(l as int));
    lemma_mirrors_match(i1, i2, t.skip(l as int));
    match spec_match(tm1, t.skip(l as int)) {
        Some(lu) => {},
        None => {
            match spec_match(i1, t.skip(l as int)) {
                None => {},
                Some(step) => {
                    if step > 0 && l + step <= t.len() {
                        lemma_mirrors_until_go(i1, i2, tm1, tm2, t, (l + step) as nat);
                    }
                },
            }
        },
    }
}

/// Copies of one matcher record the same capture spans over every text.
pub proof fn lemma_mirrors_caps(a: Matcher, b: Matcher, t: Seq<u8>, base: int)
    requires
        mirrors(a, b),
    ensures
        spec_caps(a, t, base) == spec_caps(b, t, base),
    decreases height(a),
{
    match a {
        Matcher::And { first, second } => {
            match b {
                Matcher::And { first: bf, second: bs } => {
                    lemma_mirrors_match(*first, *bf, t);
                    lemma_mirrors_caps(*first, *bf, t, base);
                    match spec_match(*first, t) {
                        Some(la) => {
                            lemma_mirrors_caps(*second, *bs, t.skip(la as int), base + la);
                        },
                        None => {},
                    }
                },
                _ => {},
            }
        },
        Matcher::Or { first, second } => {
            match b {
                Matcher::Or { first: bf, second: bs } => {
                    lemma_mirrors_match(*first, *bf, t);
                    lemma_mirrors_match(*second, *bs, t);
                    lemma_mirrors_caps(*first, *bf, t, base);
                    lemma_mirrors_caps(*second, *bs, t, base);
                },
                _ => {},
            }
        },
        Matcher::Cap { inner } => {
            match b {
                Matcher::Cap { inner: bi } => {
                    lemma_mirrors_match(*inner, *bi, t);
                },
                _ => {},
            }
        },
        _ => {},
    }
}

/// Copies of one matcher satisfy the construction invariant alike.
pub proof fn lemma_mirrors_loop_safe(a: Matcher, b: Matcher)
    requires
        mirrors(a, b),
    ensures
        loop_safe(a) == loop_safe(b),
    decreases a,
{
    match a {
        Matcher::And { first, second } => {
            match b {
                Matcher::And { first: bf, second: bs } => {
                    lemma_mirrors_loop_safe(*first, *bf);
                    lemma_mirrors_loop_safe(*second, *bs);
                },
                _ => {},
            }
        },
        Matcher::Or { first, second } => {
            match b {
                Matcher::Or { first: bf, second: bs } => {
                    lemma_mirrors_loop_safe(*first, *bf);
                    lemma_mirrors_loop_safe(*second, *bs);
                },
                _ => {},
            }
        },
        Matcher::Many { inner, .. } => {
            match b {
                Matcher::Many { inner: bi, .. } => {
                    lemma_mirrors_loop_safe(*inner, *bi);
                },
                _ => {},
            }
        },
        Matcher::Rep { inner, lo, upper } => {
            match b {
                Matcher::Rep { inner: bi, .. } => {
                    lemma_mirrors_loop_safe(*inner, *bi);
                    lemma_mirrors_match(*inner, *bi, Seq::empty());
                },
                _ => {},
            }
        },
        Matcher::Until { inner, terminator } => {
            match b {
                Matcher::Until { inner: bi, terminator: bt } => {
                    lemma_mirrors_loop_safe(*inner, *bi);
                    lemma_mirrors_loop_safe(*terminator, *bt);
                },
                _ => {},
            }
        },
        Matcher::Cap { inner } => {
            match b {
                Matcher::Cap { inner: bi } => {
                    lemma_mirrors_loop_safe(*inner, *bi);
                },
                _ => {},
            }
        },
        _ => {},
    }
}

impl Clone for CharClass {
    /// A copy is the same class over the same characters.
    fn clone(&self) -> (r: Self)
        ensures
            class_mirrors(*self, r),
    {
        match self {
            CharClass::Whitespace => CharClass::Whitespace,
            CharClass::Alphabetic => CharClass::Alphabetic,
            CharClass::Digit => CharClass::Digit,
            CharClass::OneOf(cs) => {
                let copy = cs.clone();
                proof {
                    assert forall|i: int| 0 <= i < cs@.len() implies copy@[i] == cs@[i] by {
                        lemma_char_cloned(cs@[i], copy@[i]);
                    }
                    assert(copy@ =~= cs@);
                }
                CharClass::OneOf(copy)
            },
            CharClass::NoneOf(cs) => {
                let copy = cs.clone();
                proof {
                    assert forall|i: int| 0 <= i < cs@.len() implies copy@[i] == cs@[i] by {
                        lemma_char_cloned(cs@[i], copy@[i]);
                    }
                    assert(copy@ =~= cs@);
                }
                CharClass::NoneOf(copy)
            },
        }
    }
}

impl Clone for Matcher {
    /// A deep copy of the matcher tree, behaving as the original.
    fn clone(&self) -> (r: Self)
        ensures
            mirrors(*self, r),
        decreases *self,
    {
        match self {
            Matcher::Literal { bytes } => {
                let copy = bytes.clone();
                proof {
                    assert forall|i: int| 0 <= i < bytes@.len() implies copy@[i] == bytes@[i] by {
                        lemma_u8_cloned(bytes@[i], copy@[i]);
                    }
                    assert(copy@ =~= bytes@);
                }
                Matcher::Literal { bytes: copy }
            },
            Matcher::Class { class } => Matcher::Class { class: class.clone() },
            Matcher::CharRange { lo, hi, inclusive } => Matcher::CharRange {
                lo: *lo,
                hi: *hi,
                inclusive: *inclusive,
            },
            Matcher::Any => Matcher::Any,
            Matcher::And { first, second } => Matcher::And {
                first: Box::new((&**first).clone()),
                second: Box::new((&**second).clone()),
            },
            Matcher::Or { first, second } => Matcher::Or {
                first: Box::new((&**first).clone()),
                second: Box::new((&**second).clone()),
            },
            Matcher::Many { inner, count } => Matcher::Many {
                inner: Box::new((&**inner).clone()),
                count: *count,
            },
            Matcher::Rep { inner, lo, upper } => Matcher::Rep {
                inner: Box::new((&**inner).clone()),
                lo: *lo,
                upper: *upper,
            },
            Matcher::Until { inner, terminator } => Matcher::Until {
                inner: Box::new((&**inner).clone()),
                terminator: Box::new((&**terminator).clone()),
            },
            Matcher::Cap { inner } => Matcher::Cap { inner: Box::new((&**inner).clone()) },
        }
    }
}

impl Clone for Pattern {
    /// A deep copy of the pattern, behaving as the original, so that one
    /// pattern value can be reused inside many larger expressions.
    fn clone(&self) -> (r: Self)
        ensures
            mirrors(self.matcher, r.matcher),
    {
        Pattern { matcher: self.matcher.clone() }
    }
}

} // verus!
