//! Executable matching: running a matcher over a byte slice, with or
//! without capture recording, proved against the matching semantics.

use crate::laws::lemma_runs_none_mono;
use crate::matcher::class_has;
use crate::matcher::height;
use crate::matcher::loop_safe;
use crate::matcher::rep_go;
use crate::matcher::rep_slack;
use crate::matcher::runs;
use crate::matcher::spec_caps;
use crate::matcher::spec_match;
use crate::matcher::stop_count;
use crate::matcher::until_go;
use crate::matcher::CharClass;
use crate::matcher::Matcher;
use crate::matcher::Upper;
use crate::utf8::decode_scalar;
use vstd::prelude::*;

verus! {

broadcast use
    vstd::seq_lib::lemma_seq_skip_len,
    vstd::seq_lib::lemma_seq_skip_of_skip,
    vstd::seq_lib::lemma_seq_skip_nothing,
;

/// A matched sub-span of the input: a byte offset and a byte length.
/// Tokens and captures that carry text do so as spans, so nothing of the
/// engine borrows from or outlives the input buffer.
#[derive(Clone, Copy, Debug, PartialEq, Eq, Structural)]
pub struct Span {
    pub start: usize,
    pub len: usize,
}

impl View for Span {
    type V = (int, int);

    open spec fn view(&self) -> (int, int) {
        (self.start as int, self.len as int)
    }
}

/// The offset and length pairs a sequence of spans holds.
pub open spec fn spans_of(s: Seq<Span>) -> Seq<(int, int)> {
    s.map(|i: int, sp: Span| sp@)
}

/// Whether the scalar value `sc` belongs to the class `c`.
#[verifier::loop_isolation(false)]
pub fn class_test(c: &CharClass, sc: u32) -> (r: bool)
    ensures
        r == class_has(*c, sc),
{
    match c {
        CharClass::Whitespace => sc == 0x20 || sc == 0x09 || sc == 0x0A || sc == 0x0B || sc == 0x0C
            || sc == 0x0D,
        CharClass::Alphabetic => (0x41 <= sc && sc <= 0x5A) || (0x61 <= sc && sc <= 0x7A),
        CharClass::Digit => 0x30 <= sc && sc <= 0x39,
        CharClass::OneOf(cs) => {
            let mut i: usize = 0;
            while i < cs.len()
                invariant
                    i <= cs@.len(),
                    forall|j: int| 0 <= j < i ==> cs@[j] as u32 != sc,
                decreases cs@.len() - i,
            {
                if cs[i] as u32 == sc {
                    proof {
                        assert(cs@[i as int] as u32 == sc);
                    }
                    return true;
                }
                i += 1;
            }
            false
        },
        CharClass::NoneOf(cs) => {
            let mut i: usize = 0;
            while i < cs.len()
                invariant
                    i <= cs@.len(),
                    forall|j: int| 0 <= j < i ==> cs@[j] as u32 != sc,
                decreases cs@.len() - i,
            {
                if cs[i] as u32 == sc {
                    proof {
                        assert(cs@[i as int] as u32 == sc);
                    }
                    return false;
                }
                i += 1;
            }
            true
        },
    }
}

/// Run the matcher `m` against `text` from byte offset `pos`: the byte
/// length it consumes there, or `None` when it does not match.
#[verifier::loop_isolation(false)]
#[verifier::rlimit(60)]
pub(crate) fn match_at(m: &Matcher, text: &[u8], pos: usize) -> (r: Option<usize>)
    requires
        loop_safe(*m),
        pos <= text@.len(),
    ensures
        (r is Some <==> spec_match(*m, text@.skip(pos as int)) is Some),
        r matches Some(l) ==> spec_match(*m, text@.skip(pos as int)) == Some(l as nat) && pos + l
            <= text@.len(),
    decreases height(*m),
{
    let text_len = text.len();
    let ghost t0 = text@.skip(pos as int);
    match m {
        Matcher::Literal { bytes } => {
            let n = bytes.len();
            if n > text_len - pos {
                return None;
            }
            let mut i: usize = 0;
            while i < n
                invariant
                    i <= n,
                    n == bytes@.len(),
                    pos + n <= text@.len(),
                    t0 == text@.skip(pos as int),
                    forall|j: int| 0 <= j < i ==> t0[j] == bytes@[j],
                decreases n - i,
            {
                if text[pos + i] != bytes[i] {
                    proof {
                        assert(t0[i as int] != bytes@[i as int]);
                        assert(t0.take(n as int) != bytes@);
                    }
                    return None;
                }
                i += 1;
            }
            proof {
                assert(t0.take(n as int) =~= bytes@);
            }
            Some(n)
        },
        Matcher::Class { class } => {
            match decode_scalar(text, pos) {
                Some((sc, len)) => {
                    if class_test(class, sc) {
                        Some(len)
                    } else {
                        None
                    }
                },
                None => None,
            }
        },
        Matcher::CharRange { lo, hi, inclusive } => {
            match decode_scalar(text, pos) {
                Some((sc, len)) => {
                    let hi_ok = if *inclusive {
                        sc <= *hi as u32
                    } else {
                        sc < *hi as u32
                    };
                    if *lo as u32 <= sc && hi_ok {
                        Some(len)
                    } else {
                        None
                    }
                },
                None => None,
            }
        },
        Matcher::Any => {
            match decode_scalar(text, pos) {
                Some((sc, len)) => Some(len),
                None => None,
            }
        },
        Matcher::And { first, second } => {
            match match_at(first, text, pos) {
                Some(la) => {
                    match match_at(second, text, pos + la) {
                        Some(lb) => Some(la + lb),
                        None => None,
                    }
                },
                None => None,
            }
        },
        Matcher::Or { first, second } => {
            match match_at(first, text, pos) {
                Some(l) => Some(l),
                None => match_at(second, text, pos),
            }
        },
        Matcher::Many { inner, count } => {
            let n = *count;
            let mut acc: usize = 0;
            let mut i: u32 = 0;
            while i < n
                invariant
                    i <= n,
                    loop_safe(**inner),
                    pos + acc <= text@.len(),
                    t0 == text@.skip(pos as int),
                    runs(**inner, t0, i as nat) == Some(acc as nat),
                decreases n - i,
            {
                match match_at(inner, text, pos + acc) {
                    Some(l) => {
                        proof {
                            assert(runs(**inner, t0, (i + 1) as nat) == Some((acc + l) as nat));
                        }
                        acc = acc + l;
                        i = i + 1;
                    },
                    None => {
                        proof {
                            assert(runs(**inner, t0, (i + 1) as nat) is None);
                            lemma_runs_none_mono(**inner, t0, (i + 1) as nat, n as nat);
                        }
                        return None;
                    },
                }
            }
            Some(acc)
        },
        Matcher::Rep { inner, lo, upper } => {
            let mut acc: usize = 0;
            let mut count: usize = 0;
            loop
                invariant
                    loop_safe(**inner),
                    pos + acc <= text@.len(),
                    t0 == text@.skip(pos as int),
                    spec_match(*m, t0) == rep_go(**inner, t0, *lo, *upper, acc as nat, count as nat),
                    match stop_count(*upper) {
                        Some(s) => count < s,
                        None => count <= acc,
                    },
                decreases text@.len() - pos - acc, rep_slack(*upper, count as nat),
            {
                match match_at(inner, text, pos + acc) {
                    None => {
                        let fits = *lo as usize <= count && (match upper {
                            Upper::Unbounded => true,
                            Upper::Incl(b) => count <= *b as usize,
                            Upper::Excl(b) => count < *b as usize,
                        });
                        if fits {
                            return Some(acc);
                        } else {
                            return None;
                        }
                    },
                    Some(step) => {
                        let hit = match upper {
                            Upper::Unbounded => false,
                            Upper::Incl(b) => *b >= 1 && count == (*b - 1) as usize,
                            Upper::Excl(b) => *b >= 2 && count == (*b - 2) as usize,
                        };
                        if hit {
                            return Some(acc + step);
                        } else if step == 0 {
                            let can_stop = match upper {
                                Upper::Incl(b) => *b >= 1 && count <= (*b - 1) as usize,
                                Upper::Excl(b) => *b >= 2 && count <= (*b - 2) as usize,
                                Upper::Unbounded => false,
                            };
                            if can_stop {
                                count = count + 1;
                            } else {
                                return None;
                            }
                        } else {
                            acc = acc + step;
                            count = count + 1;
                        }
                    },
                }
            }
        },
        Matcher::Until { inner, terminator } => {
            let mut acc: usize = 0;
            loop
                invariant
                    loop_safe(**inner),
                    loop_safe(**terminator),
                    pos + acc <= text@.len(),
                    t0 == text@.skip(pos as int),
                    spec_match(*m, t0) == until_go(**inner, **terminator, t0, acc as nat),
                decreases text@.len() - pos - acc,
            {
                match match_at(terminator, text, pos + acc) {
                    Some(lu) => {
                        return Some(acc + lu);
                    },
                    None => {
                        match match_at(inner, text, pos + acc) {
                            None => {
                                return None;
                            },
                            Some(step) => {
                                if step == 0 {
                                    return None;
                                }
                                acc = acc + step;
                            },
                        }
                    },
                }
            }
        },
        Matcher::Cap { inner } => match_at(inner, text, pos),
    }
}

impl Matcher {
    /// Whether the matcher satisfies the construction invariant: no
    /// greedy repetition in it pairs an inner matcher that accepts the
    /// empty input with an unbounded upper bound.  A matcher that fails
    /// this check is a malformed pattern definition and must not be
    /// matched with.
    pub fn check_loop_safe(&self) -> (r: bool)
        ensures
            r == loop_safe(*self),
        decreases height(*self),
    {
        match self {
            Matcher::And { first, second } => first.check_loop_safe() && second.check_loop_safe(),
            Matcher::Or { first, second } => first.check_loop_safe() && second.check_loop_safe(),
            Matcher::Many { inner, .. } => inner.check_loop_safe(),
            Matcher::Rep { inner, lo, upper } => {
                if !inner.check_loop_safe() {
                    false
                } else {
                    match upper {
                        Upper::Unbounded => {
                            let empty: Vec<u8> = Vec::new();
                            let nullable_inner = match_at(inner, empty.as_slice(), 0);
                            proof {
                                assert(empty@.skip(0) =~= Seq::<u8>::empty());
                            }
                            nullable_inner.is_none()
                        },
                        _ => true,
                    }
                }
            },
            Matcher::Until { inner, terminator } => inner.check_loop_safe()
                && terminator.check_loop_safe(),
            Matcher::Cap { inner } => inner.check_loop_safe(),
            _ => true,
        }
    }
}

/// Span views distribute over concatenation.
proof fn lemma_spans_of_add(a: Seq<Span>, b: Seq<Span>)
    ensures
        spans_of(a + b) == spans_of(a) + spans_of(b),
{
    assert(spans_of(a + b) =~= spans_of(a) + spans_of(b));
}

/// Run the matcher `m` against `text` from byte offset `pos`, recording
/// into `buf` the spans of every capture that takes part in the match, in
/// left-to-right composition order.  The result is the same as plain
/// matching.
pub(crate) fn captures_at(m: &Matcher, text: &[u8], pos: usize, buf: &mut Vec<Span>) -> (r: Option<
    usize,
>)
    requires
        loop_safe(*m),
        pos <= text@.len(),
    ensures
        (r is Some <==> spec_match(*m, text@.skip(pos as int)) is Some),
        r matches Some(l) ==> spec_match(*m, text@.skip(pos as int)) == Some(l as nat) && pos + l
            <= text@.len(),
        spans_of(final(buf)@) == spans_of(old(buf)@) + spec_caps(
            *m,
            text@.skip(pos as int),
            pos as int,
        ),
    decreases height(*m),
{
    proof {
        vstd::slice::axiom_spec_len(text);
    }
    let ghost t0 = text@.skip(pos as int);
    match m {
        Matcher::And { first, second } => {
            match captures_at(first, text, pos, buf) {
                Some(la) => {
                    let r = captures_at(second, text, pos + la, buf);
                    proof {
                        assert(spans_of(buf@) =~= spans_of(old(buf)@) + spec_caps(
                            *m,
                            t0,
                            pos as int,
                        ));
                    }
                    match r {
                        Some(lb) => Some(la + lb),
                        None => None,
                    }
                },
                None => None,
            }
        },
        Matcher::Or { first, second } => {
            let mut tmp: Vec<Span> = Vec::new();
            match captures_at(first, text, pos, &mut tmp) {
                Some(l) => {
                    let ghost buf0 = buf@;
                    let ghost tmp0 = tmp@;
                    buf.append(&mut tmp);
                    proof {
                        lemma_spans_of_add(buf0, tmp0);
                        assert(spans_of(Seq::<Span>::empty()) =~= Seq::<(int, int)>::empty());
                    }
                    Some(l)
                },
                None => {
                    let mut tmp2: Vec<Span> = Vec::new();
                    match captures_at(second, text, pos, &mut tmp2) {
                        Some(l) => {
                            let ghost buf0 = buf@;
                            let ghost tmp0 = tmp2@;
                            buf.append(&mut tmp2);
                            proof {
                                lemma_spans_of_add(buf0, tmp0);
                                assert(spans_of(Seq::<Span>::empty()) =~= Seq::<
                                    (int, int),
                                >::empty());
                            }
                            Some(l)
                        },
                        None => {
                            proof {
                                assert(spans_of(buf@) =~= spans_of(old(buf)@) + spec_caps(
                                    *m,
                                    t0,
                                    pos as int,
                                ));
                            }
                            None
                        },
                    }
                },
            }
        },
        Matcher::Cap { inner } => {
            match match_at(inner, text, pos) {
                Some(l) => {
                    let ghost buf0 = buf@;
                    buf.push(Span { start: pos, len: l });
                    proof {
                        assert(spans_of(buf@) =~= spans_of(buf0) + spec_caps(*m, t0, pos as int));
                    }
                    Some(l)
                },
                None => {
                    proof {
                        assert(spans_of(buf@) =~= spans_of(old(buf)@) + spec_caps(
                            *m,
                            t0,
                            pos as int,
                        ));
                    }
                    None
                },
            }
        },
        _ => {
            proof {
                assert(spans_of(buf@) =~= spans_of(old(buf)@) + spec_caps(*m, t0, pos as int));
            }
            match_at(m, text, pos)
        },
    }
}

/// What a value with a pattern can do: match a text, report whether it
/// matches, and match while recording capture spans.  Contracts are
/// stated against the value's matcher semantics.
pub trait ReadPattern {
    /// How much of `t` the value's pattern consumes, or `None` when it
    /// does not match.
    spec fn spec_read(&self, t: Seq<u8>) -> Option<nat>;

    /// The capture spans its pattern records over `t`, with `t` standing
    /// at absolute offset `base` of the input.
    spec fn spec_captures(&self, t: Seq<u8>, base: int) -> Seq<(int, int)>;

    /// The construction invariant of its pattern.
    spec fn wf(&self) -> bool;

    /// Match against the start of `text`: the consumed byte length, or
    /// `None` when the pattern does not match.
    fn read_pattern(&self, text: &[u8]) -> (r: Option<usize>)
        requires
            self.wf(),
        ensures
            (r is Some <==> self.spec_read(text@) is Some),
            r matches Some(l) ==> self.spec_read(text@) == Some(l as nat) && l <= text@.len(),
    ;

    /// Whether the pattern matches the whole of `text`: a match that
    /// consumes every byte.
    fn test_pattern(&self, text: &[u8]) -> (r: bool)
        requires
            self.wf(),
        ensures
            r == (self.spec_read(text@) == Some(text@.len())),
    ;

    /// Match against the start of `text`, appending to `buf` the spans of
    /// the captures that take part in the match.
    fn read_captures(&self, text: &[u8], buf: &mut Vec<Span>) -> (r: Option<usize>)
        requires
            self.wf(),
        ensures
            (r is Some <==> self.spec_read(text@) is Some),
            r matches Some(l) ==> self.spec_read(text@) == Some(l as nat) && l <= text@.len(),
            spans_of(final(buf)@) == spans_of(old(buf)@) + self.spec_captures(text@, 0),
    ;
}

impl ReadPattern for Matcher {
    open spec fn spec_read(&self, t: Seq<u8>) -> Option<nat> {
        spec_match(*self, t)
    }

    open spec fn spec_captures(&self, t: Seq<u8>, base: int) -> Seq<(int, int)> {
        spec_caps(*self, t, base)
    }

    open spec fn wf(&self) -> bool {
        loop_safe(*self)
    }

    fn read_pattern(&self, text: &[u8]) -> (r: Option<usize>) {
        match_at(self, text, 0)
    }

    fn test_pattern(&self, text: &[u8]) -> (r: bool) {
        match match_at(self, text, 0) {
            Some(l) => l == text.len(),
            None => false,
        }
    }

    fn read_captures(&self, text: &[u8], buf: &mut Vec<Span>) -> (r: Option<usize>) {
        captures_at(self, text, 0, buf)
    }
}

} // verus!
