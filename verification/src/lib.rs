//! A composable pattern-matching and tokenization engine.
//!
//! Small matcher primitives (literal bytes, character classes, character
//! ranges, any-character) combine via sequencing, ordered alternation,
//! bounded and unbounded repetition and read-until-terminator operators
//! into larger patterns.  A pattern paired with a token producer becomes a
//! lexical rule; rules combine, in priority order, into a lexer; the lexer
//! drives a lazy tokenization pass over an input text, producing a stream
//! of tokens or a single terminal error.
//!
//! Matching works on byte slices.  Consumed lengths are byte lengths, and
//! tokens that carry text do so as explicit spans (start and length) into
//! the input buffer.

pub mod clones;
pub mod laws;
pub mod lexer;
pub mod matcher;
pub mod parse;
pub mod pattern;
pub mod read_pattern;
pub mod token;
pub mod utf8;

pub use lexer::lex;
pub use lexer::Lexeme;
pub use lexer::Lexer;
pub use matcher::CharClass;
pub use matcher::Matcher;
pub use matcher::Upper;
pub use parse::Parse;
pub use parse::ParseIterator;
pub use parse::ParseResult;
pub use pattern::cap;
pub use pattern::pat;
pub use pattern::Pattern;
pub use read_pattern::ReadPattern;
pub use read_pattern::Span;
pub use token::Payload;
pub use token::Producer;
pub use token::ReadToken;
pub use token::Token;
