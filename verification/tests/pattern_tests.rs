use read_token::cap;
use read_token::pat;
use read_token::CharClass;
use read_token::Matcher;
use read_token::ReadPattern;
use read_token::Span;
use read_token::Upper;

#[test]
fn pattern_str() {
    let pattern = pat(Matcher::lit(b"some text".to_vec()));
    assert_eq!(pattern.read_pattern(b"some text"), Some("some text".len()));
    assert_eq!(pattern.read_pattern(b"some text_"), Some("some text".len()));
    assert_eq!(pattern.read_pattern(b"text"), None);
    assert_eq!(pattern.read_pattern(b""), None);
}

#[test]
fn pattern_char() {
    let pattern = pat(Matcher::lit_char('a'));
    assert_eq!(pattern.read_pattern(b"a"), Some(1));
    assert_eq!(pattern.read_pattern(b"ab"), Some(1));
    assert_eq!(pattern.read_pattern(b"b"), None);
}

#[test]
fn combine_patterns() {
    let a = pat(Matcher::lit(b"a".to_vec())).or(pat(Matcher::lit(b"b".to_vec()))).or(
        pat(Matcher::lit(b"c".to_vec())),
    );
    let b = pat(Matcher::lit(b"0".to_vec())).then(pat(Matcher::lit(Vec::new()))).then(
        pat(Matcher::lit(b"1".to_vec())),
    );

    let ab = a.clone().then(b.clone());
    assert_eq!(ab.read_pattern(b"a01"), Some(3));
    assert_eq!(ab.read_pattern(b"b01"), Some(3));
    assert_eq!(ab.read_pattern(b"c01"), Some(3));
    assert_eq!(ab.read_pattern(b"c0"), None);

    let a_b = a.clone().or(b.clone());
    assert_eq!(a_b.read_pattern(b"a"), Some(1));
    assert_eq!(a_b.read_pattern(b"b"), Some(1));
    assert_eq!(a_b.read_pattern(b"c"), Some(1));
    assert_eq!(a_b.read_pattern(b"01"), Some(2));
    assert_eq!(a_b.read_pattern(b"0"), None);

    let aaa = a.clone().repeat(3);
    assert_eq!(aaa.read_pattern(b"aaa"), Some(3));
    assert_eq!(aaa.read_pattern(b"abc"), Some(3));
    assert_eq!(aaa.read_pattern(b"bac"), Some(3));

    let bb = b.clone().repeat(2);
    assert_eq!(bb.read_pattern(b"0101"), Some(4));
    assert_eq!(bb.read_pattern(b"01"), None);
    assert_eq!(bb.read_pattern(b"010101"), Some(4));

    let a_aaa = a.clone().repeat_range(1, Upper::Incl(3));
    assert_eq!(a_aaa.read_pattern(b"b"), Some(1));
    assert_eq!(a_aaa.read_pattern(b"cb"), Some(2));
    assert_eq!(a_aaa.read_pattern(b"bca"), Some(3));
    assert_eq!(a_aaa.read_pattern(b"aabb"), Some(3));
    assert_eq!(a_aaa.read_pattern(b""), None);

    let b_bb = b.clone().repeat_range(1, Upper::Excl(3));
    assert_eq!(b_bb.read_pattern(b"01"), Some(2));
    assert_eq!(b_bb.read_pattern(b"0101"), Some(4));
    assert_eq!(b_bb.read_pattern(b"010101"), Some(4));
    assert_eq!(b_bb.read_pattern(b""), None);

    let not_a_3 = pat(Matcher::class(CharClass::NoneOf(vec!['a']))).repeat(3);
    assert_eq!(not_a_3.read_pattern(b"zzz"), Some(3));
    assert_eq!(not_a_3.read_pattern(b"zz"), None);
    assert_eq!(not_a_3.read_pattern(b"zzzz"), Some(3));
    assert_eq!(not_a_3.read_pattern(b"aaa"), None);
    assert_eq!(not_a_3.read_pattern(b"zza"), None);

    let whitespace_or_alpha = pat(Matcher::class(CharClass::Whitespace)).or(
        pat(Matcher::class(CharClass::Alphabetic)),
    );
    assert_eq!(whitespace_or_alpha.read_pattern(b"a"), Some(1));
    assert_eq!(whitespace_or_alpha.read_pattern(b" "), Some(1));
    assert_eq!(whitespace_or_alpha.read_pattern(b"*"), None);

    let w_a_range = whitespace_or_alpha.repeat_range(1, Upper::Incl(2));
    assert_eq!(w_a_range.read_pattern(b"a"), Some(1));
    assert_eq!(w_a_range.read_pattern(b"a "), Some(2));
    assert_eq!(w_a_range.read_pattern(b""), None);
    assert_eq!(w_a_range.read_pattern(b"z+"), Some(1));
    assert_eq!(w_a_range.read_pattern(b" f "), Some(2));
}

#[test]
fn and_pattern() {
    let pattern = pat(Matcher::lit(b"foo".to_vec())).then(pat(Matcher::lit(b"bar".to_vec())));
    assert!(pattern.test_pattern(b"foobar"));
    assert!(!pattern.test_pattern(b"foo"));
    assert!(!pattern.test_pattern(b"bar"));
    assert!(!pattern.test_pattern(b""));

    let a = pat(Matcher::lit(Vec::new())).then(pat(Matcher::lit(b"a".to_vec())));
    assert!(a.test_pattern(b"a"));

    let b = pat(Matcher::lit(Vec::new())).then(pat(Matcher::lit(b"b".to_vec())));
    assert!(b.test_pattern(b"b"));

    let empty_pattern = pat(Matcher::lit(Vec::new())).then(pat(Matcher::lit(Vec::new())));
    assert!(empty_pattern.test_pattern(b""));
    assert!(!empty_pattern.test_pattern(b"a"));
    assert!(!empty_pattern.test_pattern(b"b"));
}

#[test]
fn and_pattern_caps() {
    let pattern = cap(pat(Matcher::lit(b"foo".to_vec()))).then(
        cap(pat(Matcher::lit(b"bar".to_vec()))),
    );
    let mut caps: Vec<Span> = Vec::new();

    let text = b"foobar";
    assert_eq!(pattern.read_captures(text, &mut caps), Some(6));
    assert_eq!(caps.len(), 2);
    assert_eq!(&text[caps[0].start..caps[0].start + caps[0].len], b"foo");
    assert_eq!(&text[caps[1].start..caps[1].start + caps[1].len], b"bar");
}

#[test]
fn any_pattern() {
    let any = pat(Matcher::any());
    assert!(any.test_pattern("q".as_bytes()));
    assert!(any.test_pattern("😀".as_bytes()));
    assert_eq!(any.read_pattern("😀".as_bytes()), Some('😀'.len_utf8()));
    assert!(any.test_pattern("Ф".as_bytes()));
    assert!(!any.test_pattern(b""));

    let any_text = pat(Matcher::any()).repeat_unbounded();
    assert!(any_text.test_pattern(b""));
    assert!(any_text.test_pattern("🍏🍎🍐🍊🍋🍌".as_bytes()));
    assert!(any_text.test_pattern("Привет, мир!".as_bytes()));
}

#[test]
fn or_pattern() {
    let pattern = pat(Matcher::lit(b"foo".to_vec())).or(pat(Matcher::lit(b"bar".to_vec())));
    assert!(pattern.test_pattern(b"foo"));
    assert!(pattern.test_pattern(b"bar"));
    assert!(!pattern.test_pattern(b"baz"));
    assert!(!pattern.test_pattern(b""));

    let a = pat(Matcher::lit(b"a".to_vec())).or(pat(Matcher::lit(Vec::new())));
    assert!(a.test_pattern(b""));
    assert!(a.test_pattern(b"a"));
    assert!(!a.test_pattern(b"b"));

    let b = pat(Matcher::lit(Vec::new())).or(pat(Matcher::lit(b"b".to_vec())));
    assert!(b.test_pattern(b""));

    // the empty literal matches first, so "b" is never reached and only a
    // prefix of the text is consumed
    assert!(!b.test_pattern(b"b"));
    assert!(!b.test_pattern(b"a"));

    let empty_pattern = pat(Matcher::lit(Vec::new())).or(pat(Matcher::lit(Vec::new())));
    assert!(empty_pattern.test_pattern(b""));
    assert!(!empty_pattern.test_pattern(b"x"));
}

#[test]
fn or_pattern_caps() {
    let pattern = cap(pat(Matcher::lit(b"foo".to_vec()))).or(
        cap(pat(Matcher::lit(b"bar".to_vec()))),
    );
    let mut caps: Vec<Span> = Vec::new();

    let first = b"foo";
    assert_eq!(pattern.read_captures(first, &mut caps), Some(3));
    let second = b"bar";
    assert_eq!(pattern.read_captures(second, &mut caps), Some(3));
    assert_eq!(caps.len(), 2);
    assert_eq!(&first[caps[0].start..caps[0].start + caps[0].len], b"foo");
    assert_eq!(&second[caps[1].start..caps[1].start + caps[1].len], b"bar");
}

#[test]
fn many_pattern() {
    let pattern = pat(Matcher::lit(b"ab".to_vec())).repeat(3);
    assert!(pattern.test_pattern(b"ababab"));
    assert!(!pattern.test_pattern(b"aba"));
    assert!(!pattern.test_pattern(b"a"));
    assert!(!pattern.test_pattern(b"abab"));
    assert!(!pattern.test_pattern(b"abababab"));
    assert!(!pattern.test_pattern(b""));

    let empty_pattern = pat(Matcher::lit(b"b".to_vec())).repeat(0);
    assert!(empty_pattern.test_pattern(b""));

    let pattern = pat(Matcher::lit(b"z".to_vec())).repeat(4);
    assert!(!pattern.test_pattern(b""));
    assert!(!pattern.test_pattern(b"z"));
    assert!(!pattern.test_pattern(b"zz"));
    assert!(!pattern.test_pattern(b"zzz"));
    assert!(pattern.test_pattern(b"zzzz"));
    assert!(!pattern.test_pattern(b"zzzzz"));
}

#[test]
fn range_pattern() {
    let full = pat(Matcher::lit(b"a".to_vec())).repeat_unbounded();
    assert!(full.test_pattern(b""));
    assert!(full.test_pattern(b"a"));
    assert!(full.test_pattern(b"aa"));
    assert!(full.test_pattern(b"aaa"));

    let from = pat(Matcher::lit(b"b".to_vec())).repeat_range(2, Upper::Unbounded);
    assert!(!from.test_pattern(b""));
    assert!(!from.test_pattern(b"b"));
    assert!(from.test_pattern(b"bb"));
    assert!(from.test_pattern(b"bbb"));

    let to = pat(Matcher::lit(b"c".to_vec())).repeat_range(0, Upper::Excl(2));
    assert!(to.test_pattern(b""));
    assert!(to.test_pattern(b"c"));
    assert!(!to.test_pattern(b"cc"));

    let to_inclusive = pat(Matcher::lit(b"d".to_vec())).repeat_range(0, Upper::Incl(2));
    assert!(to_inclusive.test_pattern(b""));
    assert!(to_inclusive.test_pattern(b"d"));
    assert!(to_inclusive.test_pattern(b"dd"));
    assert!(!to_inclusive.test_pattern(b"ddd"));

    let range = pat(Matcher::lit(b"e".to_vec())).repeat_range(1, Upper::Excl(3));
    assert!(!range.test_pattern(b""));
    assert!(range.test_pattern(b"e"));
    assert!(range.test_pattern(b"ee"));
    assert!(!range.test_pattern(b"eee"));

    let range_inclusive = pat(Matcher::lit(b"f".to_vec())).repeat_range(1, Upper::Incl(2));
    assert!(!range_inclusive.test_pattern(b""));
    assert!(range_inclusive.test_pattern(b"f"));
    assert!(range_inclusive.test_pattern(b"ff"));
    assert!(!range_inclusive.test_pattern(b"fff"));
}

#[test]
fn until_use() {
    // parsing text in slashes with an unbounded repetition fails: the
    // repetition consumes everything, leaving nothing for the last slash
    let slashed_text = pat(Matcher::lit_char('/')).then(
        pat(Matcher::any()).repeat_unbounded(),
    ).then(pat(Matcher::lit_char('/')));
    assert!(!slashed_text.test_pattern(b"/test/"));

    // read-until stops at the terminator instead
    let slashed_text = pat(Matcher::lit_char('/')).then(
        pat(Matcher::any()).until(pat(Matcher::lit_char('/'))),
    );
    assert!(slashed_text.test_pattern(b"/test/"));
    assert!(slashed_text.test_pattern(b"//"));

    // one mandatory character in the middle
    let slashed_text = pat(Matcher::lit_char('/')).then(pat(Matcher::any())).then(
        pat(Matcher::any()).until(pat(Matcher::lit_char('/'))),
    );
    assert!(!slashed_text.test_pattern(b"//"));
    assert!(slashed_text.test_pattern(b"/a/"));
}

#[test]
fn until_pattern() {
    let p = pat(Matcher::lit(b"a".to_vec())).until(pat(Matcher::lit(b".".to_vec())));
    assert!(p.test_pattern(b"aaa."));
    assert!(p.test_pattern(b"."));
    assert!(!p.test_pattern(b"aaa"));
    assert!(!p.test_pattern(b"b."));

    let bin = pat(Matcher::lit_char('1')).or(pat(Matcher::lit_char('0')));
    let parentheses_bin = pat(Matcher::lit_char('(')).then(
        bin.until(pat(Matcher::lit_char(')'))),
    );
    assert!(parentheses_bin.test_pattern(b"()"));
    assert!(parentheses_bin.test_pattern(b"(1)"));
    assert!(parentheses_bin.test_pattern(b"(0)"));
    assert!(parentheses_bin.test_pattern(b"(10)"));
    assert!(!parentheses_bin.test_pattern(b"(0"));
    assert!(!parentheses_bin.test_pattern(b"0)"));
    assert!(!parentheses_bin.test_pattern(b"("));
    assert!(!parentheses_bin.test_pattern(b")"));
}

#[test]
fn capture_str() {
    let pattern = cap(pat(Matcher::lit(b"text".to_vec())));
    let mut caps: Vec<Span> = Vec::new();

    let text = b"text";
    assert_eq!(pattern.read_pattern(text), Some("text".len()));
    assert_eq!(pattern.read_captures(text, &mut caps), Some("text".len()));
    assert_eq!(caps.len(), 1);
    assert_eq!(&text[caps[0].start..caps[0].start + caps[0].len], b"text");
}

#[test]
fn capture_char() {
    let pattern = cap(pat(Matcher::lit_char('a')));
    let mut caps: Vec<Span> = Vec::new();

    let text = b"a";
    assert_eq!(pattern.read_pattern(text), Some(1));
    assert_eq!(pattern.read_captures(text, &mut caps), Some(1));
    assert_eq!(caps.len(), 1);
    assert_eq!(&text[caps[0].start..caps[0].start + caps[0].len], b"a");
}
