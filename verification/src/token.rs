//! Token values and token producers.
//!
//! A token producer is a pure, total function from a matched text span to
//! a semantic token value: a constant one ignores the text, the others
//! derive the token from it — parsing a numeral, telling keywords from
//! general identifiers, or carrying the span itself.  Tokens never borrow
//! from the input: text-carrying tokens hold a span into it.

use crate::read_pattern::Span;
use vstd::prelude::*;

verus! {

broadcast use vstd::seq_lib::lemma_seq_skip_of_skip;

/// What a token carries besides its kind.
#[derive(Clone, Copy, Debug, PartialEq, Eq, Structural)]
pub enum Payload {
    /// The matched text carried no information.
    Empty,
    /// A numeric value parsed from the matched text.
    Number(u64),
    /// The matched text itself, as a span of the input.
    Text(Span),
}

/// A semantic token: a caller-assigned kind code and a payload.
#[derive(Clone, Copy, Debug, PartialEq, Eq, Structural)]
pub struct Token {
    pub kind: u32,
    pub payload: Payload,
}

impl Token {
    /// A token that carries nothing but its kind.
    pub fn plain(kind: u32) -> (r: Token)
        ensures
            r == (Token { kind, payload: Payload::Empty }),
    {
        Token { kind, payload: Payload::Empty }
    }

    /// A token carrying a numeric value.
    pub fn number(kind: u32, value: u64) -> (r: Token)
        ensures
            r == (Token { kind, payload: Payload::Number(value) }),
    {
        Token { kind, payload: Payload::Number(value) }
    }

    /// A token carrying a span of the input text.
    pub fn text(kind: u32, start: usize, len: usize) -> (r: Token)
        ensures
            r == (Token { kind, payload: Payload::Text(Span { start, len }) }),
    {
        Token { kind, payload: Payload::Text(Span { start, len }) }
    }
}

/// An ASCII decimal digit.
pub open spec fn is_digit(b: u8) -> bool {
    0x30 <= b && b <= 0x39
}

/// How many decimal digits stand in `s` from position `i` on.
pub open spec fn digits_from(s: Seq<u8>, i: nat) -> nat
    decreases (if i <= s.len() {
        (s.len() - i) as nat
    } else {
        0nat
    }),
{
    if i >= s.len() || !is_digit(s[i as int]) {
        0
    } else {
        1 + digits_from(s, i + 1)
    }
}

/// The length of the longest prefix of `s` made of decimal digits.
pub open spec fn digit_prefix_len(s: Seq<u8>) -> nat {
    digits_from(s, 0)
}

/// The value of the first `n` bytes of `s` read as decimal digits.
pub open spec fn dec_val(s: Seq<u8>, n: nat) -> nat
    decreases n,
{
    if n == 0 {
        0
    } else {
        (dec_val(s, (n - 1) as nat) * 10 + (s[n - 1] - 0x30)) as nat
    }
}

/// The decimal value of the longest digit prefix of `s`.
pub open spec fn dec_val_prefix(s: Seq<u8>) -> nat {
    dec_val(s, digit_prefix_len(s))
}

/// `v`, saturated at the largest 64-bit value.
pub open spec fn sat64(v: nat) -> u64 {
    if v > u64::MAX {
        u64::MAX
    } else {
        v as u64
    }
}

/// Read the decimal value of the digit prefix of the span `pos..pos+len`
/// of `text`, saturating at the largest 64-bit value.
#[verifier::loop_isolation(false)]
pub fn read_decimal(text: &[u8], pos: usize, len: usize) -> (r: u64)
    requires
        pos + len <= text@.len(),
    ensures
        r == sat64(dec_val_prefix(text@.subrange(pos as int, pos + len))),
{
    proof {
        vstd::slice::axiom_spec_len(text);
    }
    let ghost s = text@.subrange(pos as int, pos + len);
    let mut i: usize = 0;
    let mut v: u64 = 0;
    let mut saturated = false;
    while i < len && 0x30 <= text[pos + i] && text[pos + i] <= 0x39
        invariant
            i <= len,
            digits_from(s, 0) == i + digits_from(s, i as nat),
            !saturated ==> v == dec_val(s, i as nat) && dec_val(s, i as nat) <= u64::MAX,
            saturated ==> v == u64::MAX && dec_val(s, i as nat) > u64::MAX,
        decreases len - i,
    {
        let d = (text[pos + i] - 0x30) as u64;
        proof {
            assert(is_digit(s[i as int]));
            assert(dec_val(s, (i + 1) as nat) == dec_val(s, i as nat) * 10 + d);
        }
        if saturated {
        } else if v > (u64::MAX - d) / 10 {
            proof {
                assert(v * 10 + d > u64::MAX) by (nonlinear_arith)
                    requires
                        v > (u64::MAX - d) / 10,
                        d <= 9,
                ;
            }
            saturated = true;
            v = u64::MAX;
        } else {
            proof {
                assert(v * 10 + d <= u64::MAX) by (nonlinear_arith)
                    requires
                        v <= (u64::MAX - d) / 10,
                        d <= 9,
                ;
            }
            v = v * 10 + d;
        }
        i += 1;
    }
    proof {
        assert(digits_from(s, i as nat) == 0);
        assert(digit_prefix_len(s) == i);
    }
    v
}

/// The first table entry whose key is `key`, front to back.
pub open spec fn kw_lookup(table: Seq<(Vec<u8>, Token)>, key: Seq<u8>) -> Option<Token>
    decreases table.len(),
{
    if table.len() == 0 {
        None
    } else if table[0].0@ == key {
        Some(table[0].1)
    } else {
        kw_lookup(table.skip(1), key)
    }
}

/// Whether the bytes of `a` are exactly the span `pos..pos+len` of
/// `text`.
#[verifier::loop_isolation(false)]
fn bytes_eq_span(a: &Vec<u8>, text: &[u8], pos: usize, len: usize) -> (r: bool)
    requires
        pos + len <= text@.len(),
    ensures
        r == (a@ == text@.subrange(pos as int, pos + len)),
{
    proof {
        vstd::slice::axiom_spec_len(text);
    }
    let ghost s = text@.subrange(pos as int, pos + len);
    if a.len() != len {
        proof {
            assert(a@.len() != s.len());
        }
        return false;
    }
    let mut i: usize = 0;
    while i < len
        invariant
            i <= len,
            forall|j: int| 0 <= j < i ==> a@[j] == s[j],
        decreases len - i,
    {
        if a[i] != text[pos + i] {
            proof {
                assert(a@[i as int] != s[i as int]);
            }
            return false;
        }
        i += 1;
    }
    proof {
        assert(a@ =~= s);
    }
    true
}

/// How a lexeme turns a matched text span into a token.
#[derive(Debug)]
pub enum Producer {
    /// Always this token, whatever the text matched.
    Constant(Token),
    /// A token of this kind whose payload is the decimal value of the
    /// matched text's digit prefix, saturating at the largest 64-bit
    /// value.
    Number(u32),
    /// A token of this kind carrying the matched span itself.
    Text(u32),
    /// Look the matched text up among the keys: on a hit the entry's
    /// token, on a miss a token of the default kind carrying the matched
    /// span.
    Keywords(Vec<(Vec<u8>, Token)>, u32),
}

/// The token a producer yields for the matched span `pos..pos+len` of the
/// text `t`.
pub open spec fn spec_produce(p: Producer, t: Seq<u8>, pos: usize, len: usize) -> Token {
    match p {
        Producer::Constant(tok) => tok,
        Producer::Number(kind) => Token {
            kind,
            payload: Payload::Number(sat64(dec_val_prefix(t.subrange(pos as int, pos + len)))),
        },
        Producer::Text(kind) => Token { kind, payload: Payload::Text(Span { start: pos, len }) },
        Producer::Keywords(table, default) => {
            match kw_lookup(table@, t.subrange(pos as int, pos + len)) {
                Some(tok) => tok,
                None => Token {
                    kind: default,
                    payload: Payload::Text(Span { start: pos, len }),
                },
            }
        },
    }
}

/// What a token producer can do: turn a matched span of the input text
/// into a semantic token, purely and totally.
pub trait ReadToken {
    /// The token this value yields for the matched span of `t`.
    spec fn spec_token(&self, t: Seq<u8>, pos: usize, len: usize) -> Token;

    /// Produce the token for the matched span `pos..pos+len` of `text`.
    fn read_token(&self, text: &[u8], pos: usize, len: usize) -> (r: Token)
        requires
            pos + len <= text@.len(),
        ensures
            r == self.spec_token(text@, pos, len),
    ;
}

impl ReadToken for Producer {
    open spec fn spec_token(&self, t: Seq<u8>, pos: usize, len: usize) -> Token {
        spec_produce(*self, t, pos, len)
    }

    #[verifier::loop_isolation(false)]
    fn read_token(&self, text: &[u8], pos: usize, len: usize) -> (r: Token) {
        match self {
            Producer::Constant(tok) => *tok,
            Producer::Number(kind) => Token {
                kind: *kind,
                payload: Payload::Number(read_decimal(text, pos, len)),
            },
            Producer::Text(kind) => Token {
                kind: *kind,
                payload: Payload::Text(Span { start: pos, len }),
            },
            Producer::Keywords(table, default) => {
                let ghost key = text@.subrange(pos as int, pos + len);
                let n = table.len();
                let mut i: usize = 0;
                while i < n
                    invariant
                        i <= n,
                        kw_lookup(table@, key) == kw_lookup(table@.skip(i as int), key),
                    decreases n - i,
                {
                    let hit = bytes_eq_span(&table[i].0, text, pos, len);
                    if hit {
                        proof {
                            assert(table@.skip(i as int)[0] == table@[i as int]);
                        }
                        return table[i].1;
                    }
                    proof {
                        assert(table@.skip(i as int)[0] == table@[i as int]);
                        assert(table@.skip(i as int).skip(1) =~= table@.skip(i + 1));
                    }
                    i += 1;
                }
                proof {
                    assert(table@.skip(n as int).len() == 0);
                }
                Token { kind: *default, payload: Payload::Text(Span { start: pos, len }) }
            },
        }
    }
}

impl ReadToken for Token {
    /// A copyable value used as its own token type produces a copy of
    /// itself, whatever the matched text.
    open spec fn spec_token(&self, t: Seq<u8>, pos: usize, len: usize) -> Token {
        *self
    }

    fn read_token(&self, text: &[u8], pos: usize, len: usize) -> (r: Token) {
        *self
    }
}

} // verus!
