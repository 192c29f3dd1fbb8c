//! Tokenization: driving a parser repeatedly over an input text.
//!
//! A parser recognizes one token at a position.  The iterator applies it
//! again and again, yielding each token with the offset where it begins,
//! on demand.  When nothing matches at the end of the input the stream
//! ends cleanly; when nothing matches earlier the stream yields exactly
//! one `Unexpected` item and then nothing more, whatever follows.

use crate::token::Token;
use vstd::prelude::*;

verus! {

/// What a parser can do: recognize one token at a byte offset of the
/// text, reporting the token and the consumed length.
pub trait Parse {
    /// Its construction invariant.
    spec fn wf(&self) -> bool;

    /// The token it recognizes at byte offset `pos` of `t` and the byte
    /// length consumed, or `None` when nothing it knows begins there.
    spec fn spec_parse(&self, t: Seq<u8>, pos: usize) -> Option<(Token, usize)>;

    /// Recognize one token at byte offset `pos` of `text`.
    fn parse(&self, text: &[u8], pos: usize) -> (r: Option<(Token, usize)>)
        requires
            self.wf(),
            pos <= text@.len(),
        ensures
            r == self.spec_parse(text@, pos),
            r matches Some((tok, len)) ==> pos + len <= text@.len(),
    ;
}

/// One parsed item: a token and the byte offset where its text begins, or
/// the offset of the first byte no rule recognizes.
#[derive(Clone, Copy, Debug, PartialEq, Eq, Structural)]
pub enum ParseResult {
    Matched(Token, usize),
    Unexpected(usize),
}

/// One tokenization step of parser `p` over `t` from state `(pos, end)`:
/// the item this step yields — none once the stream has ended — and the
/// state after it.  A match advances by its consumed length and may be
/// empty; no match at the end of the input ends the stream cleanly; no
/// match anywhere else yields one `Unexpected` item and makes the state
/// terminal.
pub open spec fn spec_step<P: Parse>(p: &P, t: Seq<u8>, pos: usize, end: bool) -> (
    Option<ParseResult>,
    usize,
    bool,
) {
    if end {
        (None, pos, end)
    } else {
        match p.spec_parse(t, pos) {
            Some((tok, len)) => (
                Some(ParseResult::Matched(tok, pos)),
                (pos + len) as usize,
                false,
            ),
            None => if pos == t.len() {
                (None, pos, false)
            } else {
                (Some(ParseResult::Unexpected(pos)), pos, true)
            },
        }
    }
}

/// The items that `k` tokenization steps from state `(pos, end)` yield.
/// A step that yields no item ends the stream: no later step yields
/// anything either.
pub open spec fn spec_items<P: Parse>(p: &P, t: Seq<u8>, pos: usize, end: bool, k: nat) -> Seq<
    ParseResult,
>
    decreases k,
{
    if k == 0 {
        Seq::empty()
    } else {
        let (item, pos2, end2) = spec_step(p, t, pos, end);
        match item {
            Some(it) => seq![it] + spec_items(p, t, pos2, end2, (k - 1) as nat),
            None => Seq::empty(),
        }
    }
}

/// The lazy tokenization pass: borrows the parser and the input text,
/// owns the cumulative offset and the terminal flag, and computes one
/// item per call.
pub struct ParseIterator<'a, P> {
    pub parser: &'a P,
    pub text: &'a [u8],
    pub pos: usize,
    pub end: bool,
}

impl<'a, P: Parse> ParseIterator<'a, P> {
    /// The iterator's invariant: a well-formed parser and a position
    /// within the text.
    pub open spec fn wf(&self) -> bool {
        self.parser.wf() && self.pos <= self.text@.len()
    }

    /// Start a tokenization pass over `text`.
    pub fn new(parser: &'a P, text: &'a [u8]) -> (r: Self)
        ensures
            r.parser == parser,
            r.text == text,
            r.pos == 0,
            r.end == false,
    {
        ParseIterator { parser, text, pos: 0, end: false }
    }

    /// Compute the next item: one tokenization step.
    pub fn next(&mut self) -> (r: Option<ParseResult>)
        requires
            old(self).wf(),
        ensures
            final(self).wf(),
            final(self).parser == old(self).parser,
            final(self).text == old(self).text,
            ({
                let (item, pos2, end2) = spec_step(
                    old(self).parser,
                    old(self).text@,
                    old(self).pos,
                    old(self).end,
                );
                r == item && final(self).pos == pos2 && final(self).end == end2
            }),
    {
        proof {
            vstd::slice::axiom_spec_len(self.text);
        }
        if self.end {
            return None;
        }
        match self.parser.parse(self.text, self.pos) {
            Some((tok, len)) => {
                let r = ParseResult::Matched(tok, self.pos);
                self.pos = self.pos + len;
                Some(r)
            },
            None => {
                if self.pos == self.text.len() {
                    None
                } else {
                    self.end = true;
                    Some(ParseResult::Unexpected(self.pos))
                }
            },
        }
    }
}

/// A tokenization pass surfaces at most one `Unexpected` item, and
/// nothing follows it: however many steps run from any state, an
/// `Unexpected` item can stand only last among the items they yield.
pub proof fn lemma_one_terminal_error<P: Parse>(p: &P, t: Seq<u8>, pos: usize, end: bool, k: nat)
    ensures
        forall|idx: int|
            0 <= idx < spec_items(p, t, pos, end, k).len() && spec_items(p, t, pos, end, k)[idx]
                is Unexpected ==> idx == spec_items(p, t, pos, end, k).len() - 1,
    decreases k,
{
    if k > 0 {
        let (item, pos2, end2) = spec_step(p, t, pos, end);
        match item {
            Some(it) => {
                lemma_one_terminal_error(p, t, pos2, end2, (k - 1) as nat);
                if it is Unexpected {
                    assert(end2);
                    assert(spec_items(p, t, pos2, end2, (k - 1) as nat) =~= Seq::<
                        ParseResult,
                    >::empty());
                }
            },
            None => {},
        }
    }
}

/// Tokenizing a text assembled from recognized segments reproduces
/// exactly the segments' tokens, one `Matched` item per segment at the
/// segment's offset and nothing else — no `Unexpected` — and the consumed
/// lengths sum to the whole input; every later step yields nothing more.
/// The segments are given by their cut offsets: segment `i` spans
/// `cuts[i]..cuts[i + 1]`, the parser recognizes it there whole as
/// `toks[i]`, and at the input's end the parser matches nothing.
pub proof fn lemma_tokenize_concat<P: Parse>(
    p: &P,
    t: Seq<u8>,
    cuts: Seq<int>,
    toks: Seq<Token>,
    k: nat,
)
    requires
        t.len() <= usize::MAX,
        cuts.len() == toks.len() + 1,
        cuts[0] == 0,
        cuts[toks.len() as int] == t.len(),
        forall|i: int| 0 <= i < cuts.len() ==> 0 <= #[trigger] cuts[i] <= t.len(),
        forall|i: int| 0 <= i < toks.len() ==> cuts[i] <= #[trigger] cuts[i + 1],
        forall|i: int|
            0 <= i < toks.len() ==> #[trigger] p.spec_parse(t, cuts[i] as usize) == Some(
                (toks[i], (cuts[i + 1] - cuts[i]) as usize),
            ),
        p.spec_parse(t, t.len() as usize) is None,
        k >= toks.len(),
    ensures
        spec_items(p, t, 0, false, k) == Seq::new(
            toks.len(),
            |i: int| ParseResult::Matched(toks[i], cuts[i] as usize),
        ),
{
    lemma_tokenize_concat_aux(p, t, cuts, toks, 0, k);
}

proof fn lemma_tokenize_concat_aux<P: Parse>(
    p: &P,
    t: Seq<u8>,
    cuts: Seq<int>,
    toks: Seq<Token>,
    j: int,
    k: nat,
)
    requires
        t.len() <= usize::MAX,
        cuts.len() == toks.len() + 1,
        cuts[toks.len() as int] == t.len(),
        forall|i: int| 0 <= i < cuts.len() ==> 0 <= #[trigger] cuts[i] <= t.len(),
        forall|i: int| 0 <= i < toks.len() ==> cuts[i] <= #[trigger] cuts[i + 1],
        forall|i: int|
            0 <= i < toks.len() ==> #[trigger] p.spec_parse(t, cuts[i] as usize) == Some(
                (toks[i], (cuts[i + 1] - cuts[i]) as usize),
            ),
        p.spec_parse(t, t.len() as usize) is None,
        0 <= j <= toks.len(),
        k >= toks.len() - j,
    ensures
        spec_items(p, t, cuts[j] as usize, false, k) == Seq::new(
            (toks.len() - j) as nat,
            |i: int| ParseResult::Matched(toks[j + i], cuts[j + i] as usize),
        ),
    decreases toks.len() - j,
{
    let want = Seq::new(
        (toks.len() - j) as nat,
        |i: int| ParseResult::Matched(toks[j + i], cuts[j + i] as usize),
    );
    if j == toks.len() {
        assert(spec_items(p, t, cuts[j] as usize, false, k) =~= want);
    } else {
        let pos = cuts[j] as usize;
        let (item, pos2, end2) = spec_step(p, t, pos, false);
        assert(p.spec_parse(t, pos) == Some((toks[j], (cuts[j + 1] - cuts[j]) as usize)));
        assert(pos2 == cuts[j + 1] as usize);
        lemma_tokenize_concat_aux(p, t, cuts, toks, j + 1, (k - 1) as nat);
        assert(spec_items(p, t, cuts[j] as usize, false, k) =~= want);
    }
}

} // verus!
