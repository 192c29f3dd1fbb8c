//! Lexical rules and lexers.
//!
//! A lexeme pairs one pattern with one token producer: one lexical rule.
//! A lexer is an ordered sequence of rules sharing one token type; it
//! tries them strictly in the order they were combined, and the first
//! rule whose pattern matches wins, so declaration order carries meaning:
//! a keyword rule must stand before a general identifier rule, or the
//! more general rule always wins.

use crate::matcher::loop_safe;
use crate::matcher::spec_match;
use crate::parse::Parse;
use crate::parse::ParseIterator;
use crate::pattern::Pattern;
use crate::read_pattern::match_at;
use crate::token::spec_produce;
use crate::token::Producer;
use crate::token::ReadToken;
use crate::token::Token;
use vstd::prelude::*;

verus! {

broadcast use
    vstd::seq_lib::lemma_seq_skip_of_skip,
    vstd::seq_lib::lemma_seq_skip_len,
;

/// One lexical rule: a pattern, and the token producer applied to the
/// text the pattern matches.
#[derive(Debug)]
pub struct Lexeme {
    pub pattern: Pattern,
    pub token: Producer,
}

/// Make one lexical rule from a pattern and a token producer.
pub fn lex(pattern: Pattern, token: Producer) -> (r: Lexeme)
    ensures
        r.pattern == pattern,
        r.token == token,
{
    Lexeme { pattern, token }
}

impl Lexeme {
    /// The rule's parse outcome at byte offset `pos` of `t`: when its
    /// pattern consumes some length there, the producer's token for that
    /// span and the length; otherwise nothing.
    pub open spec fn lexeme_parse(self, t: Seq<u8>, pos: usize) -> Option<(Token, usize)> {
        match spec_match(self.pattern.matcher, t.skip(pos as int)) {
            Some(l) => Some((spec_produce(self.token, t, pos, l as usize), l as usize)),
            None => None,
        }
    }

    /// Combine two rules into a lexer that tries `self` first.
    pub fn or(self, other: Lexeme) -> (r: Lexer)
        ensures
            r.rules@ == seq![self, other],
    {
        let mut rules: Vec<Lexeme> = Vec::new();
        rules.push(self);
        rules.push(other);
        proof {
            assert(rules@ =~= seq![self, other]);
        }
        Lexer { rules }
    }

    /// Start a tokenization pass of this one rule over `text`.
    pub fn tokenize<'a>(&'a self, text: &'a [u8]) -> (r: ParseIterator<'a, Lexeme>)
        ensures
            r.parser == self,
            r.text == text,
            r.pos == 0,
            r.end == false,
    {
        ParseIterator::new(self, text)
    }
}

impl Parse for Lexeme {
    open spec fn wf(&self) -> bool {
        loop_safe(self.pattern.matcher)
    }

    open spec fn spec_parse(&self, t: Seq<u8>, pos: usize) -> Option<(Token, usize)> {
        self.lexeme_parse(t, pos)
    }

    fn parse(&self, text: &[u8], pos: usize) -> (r: Option<(Token, usize)>) {
        match match_at(&self.pattern.matcher, text, pos) {
            Some(l) => {
                let tok = self.token.read_token(text, pos, l);
                Some((tok, l))
            },
            None => None,
        }
    }
}

/// A lexer: lexical rules in priority order.  The first rule whose
/// pattern matches wins.
#[derive(Debug)]
pub struct Lexer {
    pub rules: Vec<Lexeme>,
}

/// The outcome of the first rule of `rules`, front to back, that matches
/// at byte offset `pos` of `t`.
pub open spec fn first_parse(rules: Seq<Lexeme>, t: Seq<u8>, pos: usize) -> Option<(Token, usize)>
    decreases rules.len(),
{
    if rules.len() == 0 {
        None
    } else {
        match rules[0].lexeme_parse(t, pos) {
            Some(r) => Some(r),
            None => first_parse(rules.skip(1), t, pos),
        }
    }
}

/// Every rule's pattern satisfies the construction invariant.
pub open spec fn rules_wf(rules: Seq<Lexeme>) -> bool {
    forall|i: int| 0 <= i < rules.len() ==> #[trigger] loop_safe(rules[i].pattern.matcher)
}

/// Combining lexers keeps priority order: over rules put side by side,
/// the front rules are tried first, and only where none of them matches
/// do the back rules speak.
pub proof fn lemma_first_parse_append(front: Seq<Lexeme>, back: Seq<Lexeme>, t: Seq<u8>, pos: usize)
    ensures
        first_parse(front + back, t, pos) == (match first_parse(front, t, pos) {
            Some(r) => Some(r),
            None => first_parse(back, t, pos),
        }),
    decreases front.len(),
{
    if front.len() == 0 {
        assert(front + back =~= back);
    } else {
        assert((front + back).len() > 0);
        assert((front + back)[0] == front[0]);
        assert((front + back).skip(1) =~= front.skip(1) + back);
        lemma_first_parse_append(front.skip(1), back, t, pos);
        match front[0].lexeme_parse(t, pos) {
            Some(r) => {
                assert(first_parse(front + back, t, pos) == Some(r));
                assert(first_parse(front, t, pos) == Some(r));
            },
            None => {
                assert(first_parse(front + back, t, pos) == first_parse(
                    front.skip(1) + back,
                    t,
                    pos,
                ));
                assert(first_parse(front, t, pos) == first_parse(front.skip(1), t, pos));
            },
        }
    }
}

/// A rule added behind a lexer speaks only where no rule of the lexer
/// matches.
pub proof fn lemma_first_parse_push(rules: Seq<Lexeme>, rule: Lexeme, t: Seq<u8>, pos: usize)
    ensures
        first_parse(rules.push(rule), t, pos) == (match first_parse(rules, t, pos) {
            Some(r) => Some(r),
            None => rule.lexeme_parse(t, pos),
        }),
{
    assert(rules.push(rule) =~= rules + seq![rule]);
    lemma_first_parse_append(rules, seq![rule], t, pos);
    assert(seq![rule][0] == rule);
    assert(seq![rule].skip(1).len() == 0);
    assert(first_parse(seq![rule].skip(1), t, pos) is None);
}

impl Lexer {
    /// Add one rule of lower priority than every rule already here.
    pub fn or(self, rule: Lexeme) -> (r: Lexer)
        ensures
            r.rules@ == self.rules@.push(rule),
    {
        let mut rules = self.rules;
        rules.push(rule);
        Lexer { rules }
    }

    /// Append every rule of `other`, all at lower priority than the rules
    /// already here.
    pub fn or_lexer(self, other: Lexer) -> (r: Lexer)
        ensures
            r.rules@ == self.rules@ + other.rules@,
    {
        let mut rules = self.rules;
        let mut more = other.rules;
        rules.append(&mut more);
        Lexer { rules }
    }

    /// Start a tokenization pass of this lexer over `text`.
    pub fn tokenize<'a>(&'a self, text: &'a [u8]) -> (r: ParseIterator<'a, Lexer>)
        ensures
            r.parser == self,
            r.text == text,
            r.pos == 0,
            r.end == false,
    {
        ParseIterator::new(self, text)
    }
}

impl Parse for Lexer {
    open spec fn wf(&self) -> bool {
        rules_wf(self.rules@)
    }

    open spec fn spec_parse(&self, t: Seq<u8>, pos: usize) -> Option<(Token, usize)> {
        first_parse(self.rules@, t, pos)
    }

    #[verifier::loop_isolation(false)]
    fn parse(&self, text: &[u8], pos: usize) -> (r: Option<(Token, usize)>) {
        let n = self.rules.len();
        let mut i: usize = 0;
        while i < n
            invariant
                i <= n,
                first_parse(self.rules@, text@, pos) == first_parse(
                    self.rules@.skip(i as int),
                    text@,
                    pos,
                ),
            decreases n - i,
        {
            proof {
                assert(self.rules@.skip(i as int)[0] == self.rules@[i as int]);
                assert(loop_safe(self.rules@[i as int].pattern.matcher));
            }
            let one = self.rules[i].parse(text, pos);
            match one {
                Some(r) => {
                    return Some(r);
                },
                None => {
                    proof {
                        assert(self.rules@.skip(i as int).skip(1) =~= self.rules@.skip(i + 1));
                    }
                    i += 1;
                },
            }
        }
        proof {
            assert(self.rules@.skip(n as int).len() == 0);
        }
        None
    }
}

} // verus!
