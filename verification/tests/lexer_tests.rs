use read_token::lex;
use read_token::pat;
use read_token::Matcher;
use read_token::Parse;
use read_token::ParseResult;
use read_token::Payload;
use read_token::Producer;
use read_token::ReadToken;
use read_token::Token;
use read_token::Upper;

const PLUS_EQ: u32 = 0;
const PLUS: u32 = 1;
const STAR: u32 = 2;
const NAME: u32 = 3;
const NUM: u32 = 4;
const EQ: u32 = 5;
const SEMICOLON: u32 = 6;

#[test]
fn lexeme() {
    let lx = lex(
        pat(Matcher::lit(b"+=".to_vec())),
        Producer::Constant(Token::plain(PLUS_EQ)),
    );
    assert_eq!(lx.parse(b"+=", 0).unwrap(), (Token::plain(PLUS_EQ), 2));
    assert!(lx.parse(b"*", 0).is_none());
}

#[test]
fn combine_lexemes() {
    let plus_or_star = lex(
        pat(Matcher::lit(b"+".to_vec())),
        Producer::Constant(Token::plain(PLUS)),
    ).or(lex(pat(Matcher::lit(b"*".to_vec())), Producer::Constant(Token::plain(STAR))));
    assert_eq!(plus_or_star.parse(b"+", 0).unwrap(), (Token::plain(PLUS), 1));
    assert_eq!(plus_or_star.parse(b"*", 0).unwrap(), (Token::plain(STAR), 1));
    assert!(plus_or_star.parse(b".", 0).is_none());

    let l = lex(pat(Matcher::lit(b"name".to_vec())), Producer::Constant(Token::plain(NAME))).or(
        lex(pat(Matcher::lit(b"=".to_vec())), Producer::Constant(Token::plain(EQ))),
    ).or(lex(pat(Matcher::lit(b"1".to_vec())), Producer::Constant(Token::plain(NUM)))).or(
        lex(pat(Matcher::lit(b";".to_vec())), Producer::Constant(Token::plain(SEMICOLON))),
    );

    assert_eq!(l.parse(b"name", 0).unwrap(), (Token::plain(NAME), 4));
    assert_eq!(l.parse(b"=", 0).unwrap(), (Token::plain(EQ), 1));
    assert_eq!(l.parse(b"1", 0).unwrap(), (Token::plain(NUM), 1));
    assert_eq!(l.parse(b";", 0).unwrap(), (Token::plain(SEMICOLON), 1));
    assert!(l.parse(b"!", 0).is_none());
}

const TOKEN_A: u32 = 10;
const TOKEN_B: u32 = 11;
const TOKEN_UNDEFINED: u32 = 12;

#[test]
fn read_token_derive() {
    // a copyable value used as its own token produces a copy of itself
    let a = Token::plain(TOKEN_A);
    let b = Token::plain(TOKEN_B);
    assert_eq!(a.read_token(b"", 0, 0), a);
    assert_eq!(b.read_token(b"", 0, 0), b);
}

#[test]
fn read_token_fn() {
    let rt = Producer::Keywords(
        vec![
            (b"A".to_vec(), Token::plain(TOKEN_A)),
            (b"B".to_vec(), Token::plain(TOKEN_B)),
        ],
        TOKEN_UNDEFINED,
    );

    assert_eq!(rt.read_token(b"A", 0, 1), Token::plain(TOKEN_A));
    assert_eq!(rt.read_token(b"B", 0, 1), Token::plain(TOKEN_B));
    assert_eq!(rt.read_token(b"C", 0, 1), Token::text(TOKEN_UNDEFINED, 0, 1));
}

const TEXT_TOKEN: u32 = 13;

#[test]
fn read_token_fn_lt() {
    let rt = Producer::Text(TEXT_TOKEN);
    let text = b"text";
    let t = rt.read_token(text, 0, 4);
    assert_eq!(t, Token::text(TEXT_TOKEN, 0, 4));
    match t.payload {
        Payload::Text(sp) => assert_eq!(&text[sp.start..sp.start + sp.len], b"text"),
        _ => unreachable!(),
    }
}

const EMPTY: u32 = 0;
const NEWLINE: u32 = 1;
const T_PLUS: u32 = 2;
const T_STAR: u32 = 3;
const T_EQ: u32 = 4;
const LET: u32 = 5;
const IF: u32 = 6;
const ELSE: u32 = 7;
const NUMBER: u32 = 8;
const T_NAME: u32 = 9;
const LEFT_BRACKET: u32 = 10;
const RIGHT_BRACKET: u32 = 11;
const T_SEMICOLON: u32 = 12;
const COMMENT: u32 = 13;

#[test]
fn test_lexer() {
    let alpha = pat(Matcher::char_range_incl('a', 'z')).or(
        pat(Matcher::char_range_incl('A', 'Z')),
    );
    let name = alpha.repeat_range(1, Upper::Unbounded);
    let number = pat(Matcher::char_range_incl('0', '9')).repeat_range(1, Upper::Unbounded);
    let comment = pat(Matcher::lit(b"/*".to_vec())).then(
        pat(Matcher::any()).until(pat(Matcher::lit(b"*/".to_vec()))),
    );

    let keywords = Producer::Keywords(
        vec![
            (b"let".to_vec(), Token::plain(LET)),
            (b"if".to_vec(), Token::plain(IF)),
            (b"else".to_vec(), Token::plain(ELSE)),
        ],
        T_NAME,
    );

    let lx = lex(pat(Matcher::lit_char(' ')), Producer::Constant(Token::plain(EMPTY))).or(
        lex(pat(Matcher::lit_char('\n')), Producer::Constant(Token::plain(NEWLINE))),
    ).or(lex(pat(Matcher::lit_char('+')), Producer::Constant(Token::plain(T_PLUS)))).or(
        lex(pat(Matcher::lit_char('*')), Producer::Constant(Token::plain(T_STAR))),
    ).or(lex(pat(Matcher::lit_char('=')), Producer::Constant(Token::plain(T_EQ)))).or(
        lex(pat(Matcher::lit_char('(')), Producer::Constant(Token::plain(LEFT_BRACKET))),
    ).or(lex(pat(Matcher::lit_char(')')), Producer::Constant(Token::plain(RIGHT_BRACKET)))).or(
        lex(pat(Matcher::lit_char(';')), Producer::Constant(Token::plain(T_SEMICOLON))),
    ).or(lex(number, Producer::Number(NUMBER))).or(lex(name, keywords)).or(
        lex(comment, Producer::Text(COMMENT)),
    );

    let code = "let x = 10;
                /* 🦄 */
                if (x = 12) x * 4;
                else x + 1;";
    let bytes = code.as_bytes();

    let mut tokens: Vec<Token> = Vec::new();
    let mut it = lx.tokenize(bytes);
    loop {
        match it.next() {
            Some(ParseResult::Matched(tok, _)) => {
                if tok != Token::plain(EMPTY) {
                    tokens.push(tok);
                }
            },
            Some(ParseResult::Unexpected(_)) => unreachable!(),
            None => break,
        }
    }

    let expected: Vec<(u32, Option<&str>, Option<u64>)> = vec![
        (LET, None, None),              // let
        (T_NAME, Some("x"), None),      // x
        (T_EQ, None, None),             // =
        (NUMBER, None, Some(10)),       // 10
        (T_SEMICOLON, None, None),      // ;
        (NEWLINE, None, None),
        (COMMENT, Some("/* 🦄 */"), None),
        (NEWLINE, None, None),
        (IF, None, None),               // if
        (LEFT_BRACKET, None, None),     // (
        (T_NAME, Some("x"), None),      // x
        (T_EQ, None, None),             // =
        (NUMBER, None, Some(12)),       // 12
        (RIGHT_BRACKET, None, None),    // )
        (T_NAME, Some("x"), None),      // x
        (T_STAR, None, None),           // *
        (NUMBER, None, Some(4)),        // 4
        (T_SEMICOLON, None, None),      // ;
        (NEWLINE, None, None),
        (ELSE, None, None),             // else
        (T_NAME, Some("x"), None),      // x
        (T_PLUS, None, None),           // +
        (NUMBER, None, Some(1)),        // 1
        (T_SEMICOLON, None, None),      // ;
    ];

    assert_eq!(tokens.len(), expected.len());
    for i in 0..expected.len() {
        let (kind, text, num) = expected[i];
        let tok = tokens[i];
        assert_eq!(tok.kind, kind);
        match tok.payload {
            Payload::Empty => {
                assert!(text.is_none() && num.is_none());
            },
            Payload::Number(v) => {
                assert_eq!(Some(v), num);
            },
            Payload::Text(sp) => {
                assert_eq!(&code[sp.start..sp.start + sp.len], text.unwrap());
            },
        }
    }
}
