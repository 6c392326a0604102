use aoc::reparse::{PatternError, Reparse};

#[test]
fn parse_captures_the_groups() {
    let parser = Reparse::new(r"^(\d+)-(\d+) (\w): (\w+)$").unwrap();
    let m = parser.parse("1-3 a: abcde").unwrap();
    assert_eq!(m.get(0), "1-3 a: abcde");
    assert_eq!(m.get(1), "1");
    assert_eq!(m.get(2), "3");
    assert_eq!(m.get(3), "a");
    assert_eq!(m.get(4), "abcde");
    assert_eq!(m.get_raw(4), Some("abcde".to_string()));
    assert_eq!(m.get_raw(5), None);
    assert_eq!(m.get_raw(usize::MAX), None);
}

#[test]
fn parse_finds_the_leftmost_match() {
    let parser = Reparse::new(r"(\d+)").unwrap();
    let m = parser.parse("ab 12 cd 345").unwrap();
    assert_eq!(m.get(0), "12");
    assert_eq!(m.get_raw(1), Some("12".to_string()));
}

#[test]
fn parse_without_a_match() {
    let parser = Reparse::new(r"^(\d+)$").unwrap();
    assert!(parser.parse("12a").is_none());
    assert!(parser.parse("").is_none());
    assert!(parser.parse("12").is_some());
}

#[test]
fn parse_leaves_out_groups_that_took_no_part() {
    let parser = Reparse::new(r"[a-z]+(?:([0-9]+)|([A-Z]+))").unwrap();
    let m = parser.parse("abc123").unwrap();
    assert_eq!(m.get_raw(0), Some("abc123".to_string()));
    assert_eq!(m.get_raw(1), Some("123".to_string()));
    assert_eq!(m.get_raw(2), None);
    assert_eq!(m.get_raw(3), None);
    let m = parser.parse("abcXYZ").unwrap();
    assert_eq!(m.get_raw(1), None);
    assert_eq!(m.get_raw(2), Some("XYZ".to_string()));
}

#[test]
fn parse_handles_text_beyond_ascii() {
    let parser = Reparse::new(r"(\p{Greek}+) (.)").unwrap();
    let m = parser.parse("say αβγ 🌎!").unwrap();
    assert_eq!(m.get(0), "αβγ 🌎");
    assert_eq!(m.get(1), "αβγ");
    assert_eq!(m.get(2), "🌎");
}

#[test]
fn matched_text_parses_as_a_number() {
    let parser = Reparse::new(r"^move (-?\d+) from (\d+)$").unwrap();
    let m = parser.parse("move -17 from 4").unwrap();
    let amount: i32 = m.get(1).parse().unwrap();
    let source: usize = m.get(2).parse().unwrap();
    assert_eq!(amount, -17);
    assert_eq!(source, 4);
}

#[test]
fn new_tells_patterns_apart() {
    assert!(Reparse::new(r"(\d+)").is_ok());
    assert!(Reparse::new(r"").is_ok());
    assert!(matches!(Reparse::new(r"foo(bar").err(), Some(PatternError::Syntax(_))));
    assert!(matches!(Reparse::new(r"[z-a]").err(), Some(PatternError::Syntax(_))));
    assert!(matches!(
        Reparse::new(r"\w{1000}").err(),
        Some(PatternError::CompiledTooBig(_))
    ));
    let parser = Reparse::new(r"x(y)?").unwrap();
    let m = parser.parse("x").unwrap();
    assert_eq!(m.get_raw(0), Some("x".to_string()));
    assert_eq!(m.get_raw(1), None);
}

#[test]
fn pattern_errors_compare_by_what_they_hold() {
    let first = Reparse::new(r"a{2,1}").err().unwrap();
    let second = Reparse::new(r"a{2,1}").err().unwrap();
    assert_eq!(first, second);
    assert_ne!(first, PatternError::Unknown);
    assert_ne!(first, Reparse::new(r"(").err().unwrap());
    assert_eq!(first.clone(), first);
}
