use read_token::pat;
use read_token::CharClass;
use read_token::Matcher;
use read_token::ReadPattern;

#[test]
fn read_pattern_str() {
    let pattern = pat(Matcher::lit(b"some text".to_vec()));
    let same = b"some text";
    assert_eq!(pattern.read_pattern(same), Some(same.len()));

    let part = b"some text more";
    assert_eq!(pattern.read_pattern(part), Some("some text".len()));

    let another = b"text";
    assert_eq!(pattern.read_pattern(another), None);
}

#[test]
fn read_pattern_str_utf8() {
    let text = "привет";
    let pattern = pat(Matcher::lit(text.as_bytes().to_vec()));
    assert_eq!(pattern.read_pattern("привет".as_bytes()), Some(text.len()));
    assert_eq!(pattern.read_pattern("привет, мир!".as_bytes()), Some(text.len()));
    assert_eq!(pattern.read_pattern("прив".as_bytes()), None);
}

#[test]
fn read_pattern_empty_str() {
    let empty_pattern = pat(Matcher::lit(Vec::new()));
    let text = b"text";
    assert_eq!(empty_pattern.read_pattern(text), Some(0));
    assert_eq!(empty_pattern.read_pattern(b""), Some(0));

    let pattern = pat(Matcher::lit(b"baz".to_vec()));
    assert_eq!(pattern.read_pattern(b""), None);
}

#[test]
fn read_pattern_empty_string() {
    let text = String::from("some text");
    let pattern = pat(Matcher::lit(text.clone().into_bytes()));
    assert_eq!(pattern.read_pattern("some text".as_bytes()), Some(text.len()));
    assert_eq!(pattern.read_pattern("some text more".as_bytes()), Some(text.len()));
    assert_eq!(pattern.read_pattern("text".as_bytes()), None);
}

#[test]
fn read_pattern_char() {
    let pattern = pat(Matcher::lit_char('a'));
    assert_eq!(pattern.read_pattern(b"a"), Some(1));
    assert_eq!(pattern.read_pattern(b"ab"), Some(1));
    assert_eq!(pattern.read_pattern(b"b"), None);
    assert_eq!(pattern.read_pattern(b""), None);
}

#[test]
fn read_pattern_char_utf8() {
    let pattern = pat(Matcher::lit_char('ф'));
    assert_eq!(pattern.read_pattern("ф".as_bytes()), Some('ф'.len_utf8()));
    assert_eq!(pattern.read_pattern("фы".as_bytes()), Some('ф'.len_utf8()));
    assert_eq!(pattern.read_pattern("ы".as_bytes()), None);
}

#[test]
fn read_pattern_fn() {
    let whitespace = pat(Matcher::class(CharClass::Whitespace));
    assert_eq!(whitespace.read_pattern(b" "), Some(1));
    assert_eq!(whitespace.read_pattern(b""), None);
    assert_eq!(whitespace.read_pattern(b"."), None);

    let alpha = pat(Matcher::class(CharClass::Alphabetic));
    assert_eq!(alpha.read_pattern(b"a"), Some(1));
    assert_eq!(alpha.read_pattern(b"."), None);

    let a_or_b = pat(Matcher::class(CharClass::OneOf(vec!['a', 'b'])));
    assert_eq!(a_or_b.read_pattern(b"a"), Some(1));
    assert_eq!(a_or_b.read_pattern(b"b"), Some(1));
    assert_eq!(a_or_b.read_pattern(b"c"), None);
}

#[test]
fn read_pattern_range() {
    let alpha = pat(Matcher::char_range_incl('a', 'z'));
    assert_eq!(alpha.read_pattern(b"a"), Some(1));
    assert_eq!(alpha.read_pattern(b"$"), None);
    assert_eq!(alpha.read_pattern(b"1"), None);

    let binary = pat(Matcher::char_range('0', '2'));
    assert_eq!(binary.read_pattern(b"0"), Some(1));
    assert_eq!(binary.read_pattern(b"1"), Some(1));
    assert_eq!(binary.read_pattern(b"2"), None);
}
