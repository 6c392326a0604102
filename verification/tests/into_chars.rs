use aoc::{utf8_char, CharSource, IntoChars};

fn all_chars(mut source: CharSource) -> String {
    let mut text = String::new();
    while let Some(ch) = source.next() {
        text.push(ch);
    }
    text
}

#[test]
fn test_into_chars() {
    let s = "hello 🌎!";
    let t: String = all_chars(s.into_chars());
    assert_eq!(s, t);
}

#[test]
fn into_chars_of_an_owned_string() {
    let s = String::from("aé€😀z");
    let mut source = s.into_chars();
    assert_eq!(source.next(), Some('a'));
    assert_eq!(source.next(), Some('é'));
    assert_eq!(source.next(), Some('€'));
    assert_eq!(source.next(), Some('😀'));
    assert_eq!(source.next(), Some('z'));
    assert_eq!(source.next(), None);
    assert_eq!(source.next(), None);
}

#[test]
fn into_chars_of_an_empty_string() {
    let mut source = "".into_chars();
    assert_eq!(source.next(), None);
    let mut source = String::new().into_chars();
    assert_eq!(source.next(), None);
}

#[test]
fn into_chars_agrees_with_the_standard_iterator() {
    let s = "\u{0}\u{7f}\u{80}\u{7ff}\u{800}\u{d7ff}\u{e000}\u{ffff}\u{10000}\u{10ffff}";
    let expected: Vec<char> = s.chars().collect();
    let mut source = s.into_chars();
    for &ch in expected.iter() {
        assert_eq!(source.next(), Some(ch));
    }
    assert_eq!(source.next(), None);
}

#[test]
fn utf8_char_decodes_each_width() {
    assert_eq!(utf8_char(b"A"), Some((1, 'A')));
    assert_eq!(utf8_char(&[0x00]), Some((1, '\u{0}')));
    assert_eq!(utf8_char(&[0x7F, 0x80]), Some((1, '\u{7f}')));
    assert_eq!(utf8_char(&[0xC3, 0xA9]), Some((2, 'é')));
    assert_eq!(utf8_char(&[0xE2, 0x82, 0xAC]), Some((3, '€')));
    assert_eq!(utf8_char(&[0xF0, 0x9F, 0x8C, 0x8E]), Some((4, '🌎')));
    assert_eq!(utf8_char(&[0xF4, 0x8F, 0xBF, 0xBF]), Some((4, '\u{10ffff}')));
    assert_eq!(utf8_char("🌎!".as_bytes()), Some((4, '🌎')));
}

#[test]
fn utf8_char_needs_the_whole_encoding() {
    assert_eq!(utf8_char(&[]), None);
    assert_eq!(utf8_char(&[0xC3]), None);
    assert_eq!(utf8_char(&[0xE2, 0x82]), None);
    assert_eq!(utf8_char(&[0xE2]), None);
    assert_eq!(utf8_char(&[0xF0, 0x9F, 0x8C]), None);
    assert_eq!(utf8_char(&[0xF0, 0x9F]), None);
    assert_eq!(utf8_char(&[0xF0]), None);
}

#[test]
fn utf8_char_rejects_what_is_no_scalar_value() {
    // A surrogate.
    assert_eq!(utf8_char(&[0xED, 0xA0, 0x80]), None);
    assert_eq!(utf8_char(&[0xED, 0xBF, 0xBF]), None);
    // Beyond the last code point.
    assert_eq!(utf8_char(&[0xF4, 0x90, 0x80, 0x80]), None);
    assert_eq!(utf8_char(&[0xF7, 0xBF, 0xBF, 0xBF]), None);
}

#[test]
fn utf8_char_looks_at_the_payload_bits_only() {
    // A continuation byte in first place starts a two-byte encoding.
    assert_eq!(utf8_char(&[0x80, 0x80]), Some((2, '\u{0}')));
    assert_eq!(utf8_char(&[0xBF, 0x41]), Some((2, '\u{7c1}')));
    // What follows need not be a continuation byte.
    assert_eq!(utf8_char(&[0xC3, 0x29]), Some((2, '\u{e9}')));
    // An overlong encoding is taken at its value.
    assert_eq!(utf8_char(&[0xC1, 0x81]), Some((2, 'A')));
    assert_eq!(utf8_char(&[0xE0, 0x81, 0x81]), Some((3, 'A')));
    // The leading bytes beyond 0xF7 count as four-byte leads.
    assert_eq!(utf8_char(&[0xF8, 0x80, 0x81, 0x81]), Some((4, 'A')));
    assert_eq!(utf8_char(&[0xFF, 0x80, 0x81, 0x81]), None);
}
