//! What holds of the matching semantics.
//!
//! The bound that no matcher consumes past its input; the declarative
//! readings of greedy repetition and read-until, proved equal to the
//! step-by-step definitions; and the laws of the combinator algebra:
//! literal matching, sequencing, ordered alternation, the agreement of
//! exact and bounded repetition, and the first-terminator property of
//! read-until.

use crate::matcher::class_has;
use crate::matcher::height;
use crate::matcher::in_bounds;
use crate::matcher::rep_go;
use crate::matcher::rep_slack;
use crate::matcher::runs;
use crate::matcher::spec_match;
use crate::matcher::stop_count;
use crate::matcher::until_go;
use crate::matcher::upper_hit;
use crate::matcher::Matcher;
use crate::matcher::Upper;
use vstd::prelude::*;

verus! {

broadcast use vstd::seq_lib::lemma_seq_skip_len;

/// Every consumed length a matcher reports is at most the length of the
/// remaining input, so advancing by it never leaves the input.
pub proof fn lemma_match_len(m: Matcher, t: Seq<u8>)
    ensures
        spec_match(m, t) matches Some(l) ==> l <= t.len(),
    decreases height(m), 1nat, 0nat, 0nat,
{
    match m {
        Matcher::And { first, second } => {
            lemma_match_len(*first, t);
            match spec_match(*first, t) {
                Some(la) => {
                    lemma_match_len(*second, t.skip(la as int));
                },
                None => {},
            }
        },
        Matcher::Or { first, second } => {
            lemma_match_len(*first, t);
            lemma_match_len(*second, t);
        },
        Matcher::Many { inner, count } => {
            lemma_runs_len(*inner, t, count as nat);
        },
        Matcher::Rep { inner, lo, upper } => {
            lemma_rep_go_len(*inner, t, lo, upper, 0, 0);
        },
        Matcher::Until { inner, terminator } => {
            lemma_until_go_len(*inner, *terminator, t, 0);
        },
        Matcher::Cap { inner } => {
            lemma_match_len(*inner, t);
        },
        _ => {},
    }
}

/// The total length of a run of repetitions is at most the length of the
/// remaining input.
pub proof fn lemma_runs_len(inner: Matcher, t: Seq<u8>, k: nat)
    ensures
        runs(inner, t, k) matches Some(l) ==> l <= t.len(),
    decreases height(inner), 2nat, k, 0nat,
{
    if k > 0 {
        lemma_runs_len(inner, t, (k - 1) as nat);
        match runs(inner, t, (k - 1) as nat) {
            Some(l) => {
                lemma_match_len(inner, t.skip(l as int));
            },
            None => {},
        }
    }
}

/// From a state within the input, a greedy repetition never reports a
/// length past the input.
pub proof fn lemma_rep_go_len(inner: Matcher, t: Seq<u8>, lo: u32, upper: Upper, l: nat, c: nat)
    requires
        l <= t.len(),
    ensures
        rep_go(inner, t, lo, upper, l, c) matches Some(r) ==> r <= t.len(),
    decreases height(inner), 2nat, (t.len() - l) as nat, rep_slack(upper, c),
{
    match spec_match(inner, t.skip(l as int)) {
        None => {},
        Some(step) => {
            lemma_match_len(inner, t.skip(l as int));
            if upper_hit(upper, c + 1) {
            } else if step == 0 {
                match stop_count(upper) {
                    Some(s) => {
                        if c + 1 <= s {
                            lemma_rep_go_len(inner, t, lo, upper, l, c + 1);
                        }
                    },
                    None => {},
                }
            } else if l + step > t.len() {
            } else {
                lemma_rep_go_len(inner, t, lo, upper, (l + step) as nat, c + 1);
            }
        },
    }
}

/// From a state within the input, a read-until never reports a length
/// past the input.
pub proof fn lemma_until_go_len(inner: Matcher, term: Matcher, t: Seq<u8>, l: nat)
    requires
        l <= t.len(),
    ensures
        until_go(inner, term, t, l) matches Some(r) ==> r <= t.len(),
    decreases (if height(inner) >= height(term) {
        height(inner)
    } else {
        height(term)
    }), 2nat, (t.len() - l) as nat, 0nat,
{
    match spec_match(term, t.skip(l as int)) {
        Some(lu) => {
            lemma_match_len(term, t.skip(l as int));
        },
        None => {
            match spec_match(inner, t.skip(l as int)) {
                None => {},
                Some(step) => {
                    lemma_match_len(inner, t.skip(l as int));
                    if step > 0 && l + step <= t.len() {
                        lemma_until_go_len(inner, term, t, (l + step) as nat);
                    }
                },
            }
        },
    }
}

/// Once a run of repetitions fails, every longer run fails.
pub proof fn lemma_runs_none_mono(inner: Matcher, t: Seq<u8>, k1: nat, k2: nat)
    requires
        runs(inner, t, k1) is None,
        k1 <= k2,
    ensures
        runs(inner, t, k2) is None,
    decreases k2,
{
    if k2 > k1 {
        lemma_runs_none_mono(inner, t, k1, (k2 - 1) as nat);
    }
}

/// Every run shorter than a successful one succeeds.
pub proof fn lemma_runs_some_down(inner: Matcher, t: Seq<u8>, k1: nat, k2: nat)
    requires
        runs(inner, t, k2) is Some,
        k1 <= k2,
    ensures
        runs(inner, t, k1) is Some,
{
    if runs(inner, t, k1) is None {
        lemma_runs_none_mono(inner, t, k1, k2);
    }
}

/// When a repetition step stops consuming input, every later run stands
/// at the same position.
pub proof fn lemma_runs_stuck(inner: Matcher, t: Seq<u8>, k0: nat, l: nat, k: nat)
    requires
        runs(inner, t, k0) == Some(l),
        spec_match(inner, t.skip(l as int)) == Some(0nat),
        k0 <= k,
    ensures
        runs(inner, t, k) == Some(l),
    decreases k,
{
    if k > k0 {
        lemma_runs_stuck(inner, t, k0, l, (k - 1) as nat);
    }
}

/// Whether a greedy repetition of `inner` over `t` first fails after
/// exactly `k` successful repetitions.
pub open spec fn runs_fail_at(inner: Matcher, t: Seq<u8>, k: nat) -> bool {
    runs(inner, t, k) is Some && runs(inner, t, k + 1) is None
}

/// A greedy repetition first fails after one count only.
pub proof fn lemma_runs_fail_unique(inner: Matcher, t: Seq<u8>, k: nat, j: nat)
    requires
        runs_fail_at(inner, t, k),
        runs_fail_at(inner, t, j),
    ensures
        k == j,
{
    if k < j {
        lemma_runs_none_mono(inner, t, k + 1, j);
    }
    if j < k {
        lemma_runs_none_mono(inner, t, j + 1, k);
    }
}

/// A failing run has a first failure.
pub proof fn lemma_first_fail_exists(inner: Matcher, t: Seq<u8>, n: nat)
    requires
        runs(inner, t, n) is None,
    ensures
        exists|k: nat| runs_fail_at(inner, t, k) && k < n,
    decreases n,
{
    if runs(inner, t, (n - 1) as nat) is Some {
        assert(runs_fail_at(inner, t, (n - 1) as nat));
    } else {
        lemma_first_fail_exists(inner, t, (n - 1) as nat);
    }
}

/// The repetition count after which a greedy repetition of `inner` over
/// `t` first fails, or `None` when no repetition ever fails.
pub open spec fn greedy_fail_count(inner: Matcher, t: Seq<u8>) -> Option<nat> {
    if exists|k: nat| runs_fail_at(inner, t, k) {
        Some(choose|k: nat| runs_fail_at(inner, t, k))
    } else {
        None
    }
}

/// What the first-failure count of a greedy repetition stands for: when
/// it is some `k`, the first `k` repetitions succeed and the next fails;
/// when it is none, no repetition ever fails.
pub proof fn lemma_greedy_fail_count(inner: Matcher, t: Seq<u8>)
    ensures
        match greedy_fail_count(inner, t) {
            Some(k) => runs_fail_at(inner, t, k),
            None => forall|k: nat| !runs_fail_at(inner, t, k),
        },
{
    if exists|k: nat| runs_fail_at(inner, t, k) {
        let k0 = choose|k: nat| runs_fail_at(inner, t, k);
        assert(runs_fail_at(inner, t, k0));
    }
}

/// Whether, matching `Until(inner, term)` over `t`, the terminator first
/// matches at the position reached after exactly `i` repetitions of
/// `inner`: reaching that position, the terminator matching there, and
/// the terminator failing at every earlier reached position.
pub open spec fn until_hits(inner: Matcher, term: Matcher, t: Seq<u8>, i: nat) -> bool {
    &&& runs(inner, t, i) is Some
    &&& spec_match(term, t.skip(runs(inner, t, i)->0 as int)) is Some
    &&& forall|j: nat|
        j < i ==> #[trigger] runs(inner, t, j) is Some && spec_match(
            term,
            t.skip(runs(inner, t, j)->0 as int),
        ) is None
}

/// The terminator of a read-until first matches at one reached position
/// only.
pub proof fn lemma_hits_unique(inner: Matcher, term: Matcher, t: Seq<u8>, i: nat, j: nat)
    requires
        until_hits(inner, term, t, i),
        until_hits(inner, term, t, j),
    ensures
        i == j,
{
}

/// The number of repetition steps after which the terminator of a
/// read-until first matches, or `None` when it never does.
pub open spec fn until_hit_index(inner: Matcher, term: Matcher, t: Seq<u8>) -> Option<nat> {
    if exists|i: nat| until_hits(inner, term, t, i) {
        Some(choose|i: nat| until_hits(inner, term, t, i))
    } else {
        None
    }
}

/// What the hit index of a read-until stands for: when it is some `i`,
/// the terminator first matches after exactly `i` repetitions; when it is
/// none, the terminator never matches at a reached position.
pub proof fn lemma_until_hit_index(inner: Matcher, term: Matcher, t: Seq<u8>)
    ensures
        match until_hit_index(inner, term, t) {
            Some(i) => until_hits(inner, term, t, i),
            None => forall|i: nat| !until_hits(inner, term, t, i),
        },
{
    if exists|i: nat| until_hits(inner, term, t, i) {
        let i0 = choose|i: nat| until_hits(inner, term, t, i);
        assert(until_hits(inner, term, t, i0));
    }
}

/// The declarative reading of a greedy repetition: when a run of
/// successes can reach the stop count, the repetition consumes that run;
/// otherwise it runs to the first failure and is accepted exactly when
/// the count it reached lies within the bounds.
pub open spec fn rep_spec(inner: Matcher, t: Seq<u8>, lo: u32, upper: Upper) -> Option<nat> {
    match stop_count(upper) {
        Some(s) => if runs(inner, t, s) is Some {
            runs(inner, t, s)
        } else {
            rep_fallback(inner, t, lo, upper)
        },
        None => rep_fallback(inner, t, lo, upper),
    }
}

/// The outcome of a greedy repetition that never reaches its stop count:
/// accepted at its first failure when the count lies within the bounds.
/// When no repetition ever fails, the repetition never ends and there is
/// no match.
pub open spec fn rep_fallback(inner: Matcher, t: Seq<u8>, lo: u32, upper: Upper) -> Option<nat> {
    match greedy_fail_count(inner, t) {
        Some(k) => if in_bounds(lo, upper, k) {
            runs(inner, t, k)
        } else {
            None
        },
        None => None,
    }
}

/// From any state the greedy repetition actually reaches, running it step
/// by step ends in the declarative outcome.
pub proof fn lemma_rep_go_spec(inner: Matcher, t: Seq<u8>, lo: u32, upper: Upper, l: nat, c: nat)
    requires
        runs(inner, t, c) == Some(l),
        match stop_count(upper) {
            Some(s) => c < s,
            None => true,
        },
    ensures
        rep_go(inner, t, lo, upper, l, c) == rep_spec(inner, t, lo, upper),
    decreases (if l <= t.len() {
        (t.len() - l) as nat
    } else {
        0nat
    }), rep_slack(upper, c),
{
    lemma_runs_len(inner, t, c);
    match spec_match(inner, t.skip(l as int)) {
        None => {
            assert(runs(inner, t, c + 1) is None);
            assert(runs_fail_at(inner, t, c));
            lemma_greedy_fail_count(inner, t);
            let k0 = greedy_fail_count(inner, t)->0;
            lemma_runs_fail_unique(inner, t, k0, c);
            match stop_count(upper) {
                Some(s) => {
                    lemma_runs_none_mono(inner, t, c + 1, s);
                },
                None => {},
            }
        },
        Some(step) => {
            lemma_match_len(inner, t.skip(l as int));
            assert(runs(inner, t, c + 1) == Some((l + step) as nat));
            if upper_hit(upper, c + 1) {
                assert(stop_count(upper) == Some((c + 1) as nat));
            } else if step == 0 {
                match stop_count(upper) {
                    Some(s) => {
                        assert(c + 1 <= s);
                        lemma_rep_go_spec(inner, t, lo, upper, l, c + 1);
                    },
                    None => {
                        assert forall|k: nat| !runs_fail_at(inner, t, k) by {
                            if k < c {
                                lemma_runs_some_down(inner, t, k + 1, c);
                                lemma_runs_some_down(inner, t, k, c);
                            } else {
                                lemma_runs_stuck(inner, t, c, l, k);
                                lemma_runs_stuck(inner, t, c, l, k + 1);
                            }
                        }
                        assert(greedy_fail_count(inner, t) is None);
                    },
                }
            } else if l + step > t.len() {
                assert(false);
            } else {
                lemma_rep_go_spec(inner, t, lo, upper, (l + step) as nat, c + 1);
            }
        },
    }
}

/// A greedy repetition matches as its declarative reading says.
pub proof fn lemma_rep_match(m: Matcher, t: Seq<u8>)
    requires
        m is Rep,
    ensures
        m matches Matcher::Rep { inner, lo, upper } ==> spec_match(m, t) == rep_spec(
            *inner,
            t,
            lo,
            upper,
        ),
{
    match m {
        Matcher::Rep { inner, lo, upper } => {
            assert(runs(*inner, t, 0) == Some(0nat));
            lemma_rep_go_spec(*inner, t, lo, upper, 0, 0);
        },
        _ => {},
    }
}

/// The declarative reading of a read-until: the prefix ending at the
/// first reached position where the terminator matches, the terminator's
/// own consumption included; no match when the terminator never matches
/// at a reached position.
pub open spec fn until_spec(inner: Matcher, term: Matcher, t: Seq<u8>) -> Option<nat> {
    match until_hit_index(inner, term, t) {
        Some(i) => Some(
            runs(inner, t, i)->0 + spec_match(term, t.skip(runs(inner, t, i)->0 as int))->0,
        ),
        None => None,
    }
}

/// From any state the read-until actually reaches, running it step by
/// step ends in the declarative outcome.
pub proof fn lemma_until_go_spec(inner: Matcher, term: Matcher, t: Seq<u8>, l: nat, i: nat)
    requires
        runs(inner, t, i) == Some(l),
        forall|j: nat|
            j < i ==> #[trigger] runs(inner, t, j) is Some && spec_match(
                term,
                t.skip(runs(inner, t, j)->0 as int),
            ) is None,
    ensures
        until_go(inner, term, t, l) == until_spec(inner, term, t),
    decreases (if l <= t.len() {
        (t.len() - l) as nat
    } else {
        0nat
    }),
{
    lemma_runs_len(inner, t, i);
    match spec_match(term, t.skip(l as int)) {
        Some(lu) => {
            assert(until_hits(inner, term, t, i));
            lemma_until_hit_index(inner, term, t);
            let i0 = until_hit_index(inner, term, t)->0;
            lemma_hits_unique(inner, term, t, i0, i);
        },
        None => {
            match spec_match(inner, t.skip(l as int)) {
                None => {
                    assert(runs(inner, t, i + 1) is None);
                    assert forall|ii: nat| !until_hits(inner, term, t, ii) by {
                        if ii < i {
                            assert(runs(inner, t, ii) is Some);
                        } else if ii > i {
                            lemma_runs_none_mono(inner, t, i + 1, ii);
                        }
                    }
                    lemma_until_hit_index(inner, term, t);
                    assert(until_hit_index(inner, term, t) is None);
                },
                Some(step) => {
                    if step == 0 {
                        assert forall|ii: nat| !until_hits(inner, term, t, ii) by {
                            if ii < i {
                                assert(runs(inner, t, ii) is Some);
                            } else {
                                lemma_runs_stuck(inner, t, i, l, ii);
                            }
                        }
                        assert(until_hit_index(inner, term, t) is None);
                    } else if l + step > t.len() {
                        lemma_match_len(inner, t.skip(l as int));
                        assert(false);
                    } else {
                        assert(runs(inner, t, i + 1) == Some((l + step) as nat));
                        assert forall|j: nat|
                            j < i + 1 implies #[trigger] runs(inner, t, j) is Some && spec_match(
                            term,
                            t.skip(runs(inner, t, j)->0 as int),
                        ) is None by {
                            if j < i {
                                assert(runs(inner, t, j) is Some);
                            }
                        }
                        lemma_until_go_spec(inner, term, t, (l + step) as nat, i + 1);
                    }
                },
            }
        },
    }
}

/// A read-until matches as its declarative reading says.
pub proof fn lemma_until_match(m: Matcher, t: Seq<u8>)
    requires
        m is Until,
    ensures
        m matches Matcher::Until { inner, terminator } ==> spec_match(m, t) == until_spec(
            *inner,
            *terminator,
            t,
        ),
{
    match m {
        Matcher::Until { inner, terminator } => {
            assert(runs(*inner, t, 0) == Some(0nat));
            lemma_until_go_spec(*inner, *terminator, t, 0, 0);
        },
        _ => {},
    }
}

/// A literal matches a text exactly when the text starts with it, and
/// then consumes exactly the literal's own length; otherwise it does not
/// match.
pub proof fn lemma_literal_match(m: Matcher, t: Seq<u8>)
    requires
        m is Literal,
    ensures
        m matches Matcher::Literal { bytes } ==> spec_match(m, t) == (if bytes@.len() <= t.len()
            && t.take(bytes@.len() as int) == bytes@ {
            Some(bytes@.len())
        } else {
            None::<nat>
        }),
{
}

/// A sequence matches exactly when its first part matches and its second
/// part matches immediately after, and then consumes the sum of the two
/// lengths; otherwise it does not match.
pub proof fn lemma_and_match(m: Matcher, t: Seq<u8>)
    requires
        m is And,
    ensures
        m matches Matcher::And { first, second } ==> spec_match(m, t) == (match spec_match(
            *first,
            t,
        ) {
            Some(la) => match spec_match(*second, t.skip(la as int)) {
                Some(lb) => Some((la + lb) as nat),
                None => None,
            },
            None => None,
        }),
{
}

/// An ordered alternation matches as its first branch does whenever that
/// branch matches, and only otherwise as its second branch does: the
/// priority law, under which alternation does not commute.
pub proof fn lemma_or_match(m: Matcher, t: Seq<u8>)
    requires
        m is Or,
    ensures
        m matches Matcher::Or { first, second } ==> spec_match(m, t) == (if spec_match(
            *first,
            t,
        ) is Some {
            spec_match(*first, t)
        } else {
            spec_match(*second, t)
        }),
{
}

/// Exact and bounded repetition agree: for a count of one or more,
/// repeating exactly `n` times matches exactly as the bounded repetition
/// whose lower and upper bounds are both `n`.  (For a count of zero the
/// two differ: the exact repetition of zero always succeeds consuming
/// nothing, while the bounded repetition's stop check never asks for
/// count zero, so over a text its inner matcher consumes it runs on and
/// ends outside the empty bounds.)
pub proof fn lemma_exact_is_bounded(m1: Matcher, m2: Matcher, t: Seq<u8>)
    requires
        m1 matches Matcher::Many { inner: inner1, count: n } && n >= 1 && (m2 matches Matcher::Rep {
            inner: inner2,
            lo,
            upper,
        } && inner2 == inner1 && lo == n && upper == Upper::Incl(n)),
    ensures
        spec_match(m1, t) == spec_match(m2, t),
{
    match m1 {
        Matcher::Many { inner, count } => {
            let n = count as nat;
            lemma_rep_match(m2, t);
            assert(stop_count(Upper::Incl(count)) == Some(n));
            if runs(*inner, t, n) is Some {
            } else {
                lemma_first_fail_exists(*inner, t, n);
                lemma_greedy_fail_count(*inner, t);
                match greedy_fail_count(*inner, t) {
                    Some(k) => {
                        if k >= n {
                            lemma_runs_some_down(*inner, t, n, k);
                        }
                        assert(!in_bounds(count, Upper::Incl(count), k));
                    },
                    None => {
                        let kw = choose|k: nat| runs_fail_at(*inner, t, k) && k < n;
                        assert(runs_fail_at(*inner, t, kw));
                    },
                }
            }
        },
        _ => {},
    }
}

/// Read-until returns the prefix ending at the first position where the
/// terminator matches among the positions reached by repetitions of the
/// inner matcher from the start, the terminator's consumption included;
/// it has no match exactly when the terminator matches at no reached
/// position — be it that the inner matcher fails, or that it stops
/// consuming, before the terminator is ever seen.
pub proof fn lemma_until_first_hit(m: Matcher, t: Seq<u8>)
    requires
        m is Until,
    ensures
        m matches Matcher::Until { inner, terminator } ==> (spec_match(m, t) is Some <==> exists|
            i: nat,
        | until_hits(*inner, *terminator, t, i)),
        m matches Matcher::Until { inner, terminator } ==> forall|i: nat|
            until_hits(*inner, *terminator, t, i) ==> spec_match(m, t) == Some(
                (runs(*inner, t, i)->0 + spec_match(
                    *terminator,
                    t.skip(runs(*inner, t, i)->0 as int),
                )->0) as nat,
            ),
{
    match m {
        Matcher::Until { inner, terminator } => {
            lemma_until_match(m, t);
            lemma_until_hit_index(*inner, *terminator, t);
            assert forall|i: nat| until_hits(*inner, *terminator, t, i) implies spec_match(m, t)
                == Some(
                (runs(*inner, t, i)->0 + spec_match(
                    *terminator,
                    t.skip(runs(*inner, t, i)->0 as int),
                )->0) as nat,
            ) by {
                match until_hit_index(*inner, *terminator, t) {
                    Some(i0) => {
                        lemma_hits_unique(*inner, *terminator, t, i0, i);
                    },
                    None => {},
                }
            }
        },
        _ => {},
    }
}

} // verus!
