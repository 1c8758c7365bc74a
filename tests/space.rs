use synom::cursor::{IResult, ParseState};
use synom::helper::{keyword, punct};
use synom::space::{block_comment, is_whitespace, skip_whitespace, whitespace, word_break};

fn chars(s: &str) -> Vec<char> {
    s.chars().collect()
}

fn rest_of(p: &ParseState) -> String {
    p.rest().into_iter().collect()
}

fn skip(input: &str) -> Option<String> {
    let v = chars(input);
    match whitespace(ParseState::new(&v)) {
        IResult::Done(rest, ()) => Some(rest_of(&rest)),
        IResult::Error => None,
    }
}

#[test]
fn nested_block_comments_balance() {
    assert_eq!(skip("/* /* */ */"), Some(String::new()));
    assert_eq!(skip("/* */ */"), Some("*/".to_string()));
    assert_eq!(skip("/* */"), Some(String::new()));
    assert_eq!(skip("/* /* */"), None);
    assert_eq!(skip("  /* unclosed"), None);
}

#[test]
fn doc_comments_are_not_trivia() {
    assert_eq!(skip("///x"), None);
    assert_eq!(skip("//!x"), None);
    assert_eq!(skip("/**x*/"), None);
    assert_eq!(skip("/*!x*/"), None);
    assert_eq!(skip("////x"), Some(String::new()));
    assert_eq!(skip("/***x*/"), Some(String::new()));
    assert_eq!(skip("  ///x"), Some("///x".to_string()));
}

#[test]
fn line_comments_end_at_line_feed() {
    assert_eq!(skip("// c\nx"), Some("x".to_string()));
    assert_eq!(skip("// c"), Some(String::new()));
    assert_eq!(skip("//\n//\n  y"), Some("y".to_string()));
}

#[test]
fn white_space_kinds() {
    assert_eq!(skip(" \t\n\x0b\x0c\r x"), Some("x".to_string()));
    assert_eq!(skip("\u{200e}\u{200f}\u{3000}x"), Some("x".to_string()));
    assert_eq!(skip("\u{85}x"), Some("x".to_string()));
    assert_eq!(skip("x "), None);
    assert_eq!(skip(""), None);
    assert_eq!(skip("é"), None);
    assert_eq!(skip("/x"), None);
}

#[test]
fn skipping_twice_makes_no_progress() {
    let v = chars("  /* a */ // b\nz");
    let once = skip_whitespace(ParseState::new(&v));
    assert_eq!(rest_of(&once), "z");
    assert!(matches!(whitespace(once), IResult::Error));
    assert_eq!(rest_of(&skip_whitespace(once)), "z");
}

#[test]
fn skip_whitespace_keeps_cursor_without_trivia() {
    let v = chars("abc");
    assert_eq!(rest_of(&skip_whitespace(ParseState::new(&v))), "abc");
}

#[test]
fn block_comment_returns_comment() {
    let v = chars("/* a /* b */ */ tail");
    match block_comment(ParseState::new(&v)) {
        IResult::Done(rest, com) => {
            assert_eq!(com.iter().collect::<String>(), "/* a /* b */ */");
            assert_eq!(rest_of(&rest), " tail");
        }
        IResult::Error => panic!("comment expected"),
    }
    let w = chars("x /* */");
    assert!(matches!(block_comment(ParseState::new(&w)), IResult::Error));
    let u = chars("/*/");
    assert!(matches!(block_comment(ParseState::new(&u)), IResult::Error));
}

#[test]
fn direction_marks_are_white_space() {
    assert!(is_whitespace('\u{200e}'));
    assert!(is_whitespace('\u{200f}'));
    assert!(is_whitespace(' '));
    assert!(is_whitespace('\u{2028}'));
    assert!(!is_whitespace('a'));
    assert!(!is_whitespace('\u{200b}'));
}

#[test]
fn word_break_on_identifier_characters() {
    let end: Vec<char> = Vec::new();
    assert!(matches!(word_break(ParseState::new(&end)), IResult::Done(_, ())));
    let plus = chars("+x");
    match word_break(ParseState::new(&plus)) {
        IResult::Done(rest, ()) => assert_eq!(rest_of(&rest), "+x"),
        IResult::Error => panic!("break expected"),
    }
    for s in ["a", "Z", "0", "_", "é", "\u{0300}"] {
        let v = chars(s);
        assert!(matches!(word_break(ParseState::new(&v)), IResult::Error), "{}", s);
    }
}

#[test]
fn punct_after_trivia() {
    let v = chars("  /* c */ += 1");
    match punct(ParseState::new(&v), "+=") {
        IResult::Done(rest, tok) => {
            assert_eq!(tok, "+=");
            assert_eq!(rest_of(&rest), " 1");
        }
        IResult::Error => panic!("punct expected"),
    }
    let w = chars(" -");
    assert!(matches!(punct(ParseState::new(&w), "+"), IResult::Error));
}

#[test]
fn keyword_needs_word_break() {
    let v = chars(" fn main");
    match keyword(ParseState::new(&v), "fn") {
        IResult::Done(rest, tok) => {
            assert_eq!(tok, "fn");
            assert_eq!(rest_of(&rest), " main");
        }
        IResult::Error => panic!("keyword expected"),
    }
    let w = chars("fnord");
    assert!(matches!(keyword(ParseState::new(&w), "fn"), IResult::Error));
    let e = chars("fn");
    assert!(matches!(keyword(ParseState::new(&e), "fn"), IResult::Done(_, "fn")));
}
