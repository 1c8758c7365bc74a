use synom::cursor::{IResult, ParseState};
use synom::escape::{cooked_byte, cooked_byte_string, cooked_char, cooked_string, raw_string};

fn chars(s: &str) -> Vec<char> {
    s.chars().collect()
}

fn rest_of(p: &ParseState) -> String {
    p.rest().into_iter().collect()
}

fn text(input: &str) -> Option<(String, String)> {
    let v = chars(input);
    match cooked_string(ParseState::new(&v)) {
        IResult::Done(rest, s) => Some((s, rest_of(&rest))),
        IResult::Error => None,
    }
}

fn bytes(input: &str) -> Option<(Vec<u8>, String)> {
    let v = chars(input);
    match cooked_byte_string(ParseState::new(&v)) {
        IResult::Done(rest, b) => Some((b, rest_of(&rest))),
        IResult::Error => None,
    }
}

fn one_char(input: &str) -> Option<(char, String)> {
    let v = chars(input);
    match cooked_char(ParseState::new(&v)) {
        IResult::Done(rest, c) => Some((c, rest_of(&rest))),
        IResult::Error => None,
    }
}

fn one_byte(input: &str) -> Option<(u8, String)> {
    let v = chars(input);
    match cooked_byte(ParseState::new(&v)) {
        IResult::Done(rest, b) => Some((b, rest_of(&rest))),
        IResult::Error => None,
    }
}

fn raw(input: &str) -> Option<(String, usize, String)> {
    let v = chars(input);
    match raw_string(ParseState::new(&v)) {
        IResult::Done(rest, (s, n)) => Some((s, n, rest_of(&rest))),
        IResult::Error => None,
    }
}

#[test]
fn test_cooked_string() {
    let input = "\\x62 \\\n \\u{7} \\u{64} \\u{bf5} \\u{12ba} \\u{1F395} \\u{102345}\"";
    let expected = "\x62 \u{7} \u{64} \u{bf5} \u{12ba} \u{1F395} \u{102345}";
    assert_eq!(text(input), Some((expected.to_string(), String::new())));
}

#[test]
fn test_cooked_byte_string() {
    let input = "\\x62 \\\n \\xEF\"";
    let expected = b"\x62 \xEF";
    assert_eq!(bytes(input), Some((expected.to_vec(), String::new())));
}

#[test]
fn text_with_newline_escapes() {
    let input = "\\x62 \\n \\u{7} \\u{64} \\u{bf5} \\u{12ba} \\u{1F395} \\u{102345}\" rest";
    let expected = "b \n \u{7} \u{64} \u{bf5} \u{12ba} \u{1F395} \u{102345}";
    assert_eq!(text(input), Some((expected.to_string(), " rest".to_string())));
}

#[test]
fn byte_text_with_newline_escape() {
    assert_eq!(bytes("\\x62 \\n \\xEF\""), Some((vec![0x62, 0x20, 0x0A, 0x20, 0xEF], String::new())));
}

#[test]
fn text_simple_escapes() {
    assert_eq!(
        text("\\n\\r\\t\\\\\\0\\'\\\"\"x"),
        Some(("\n\r\t\\\0'\"".to_string(), "x".to_string()))
    );
}

#[test]
fn text_empty_and_unterminated() {
    assert_eq!(text("\""), Some((String::new(), String::new())));
    assert_eq!(text(""), None);
    assert_eq!(text("abc"), None);
}

#[test]
fn text_crlf_normalized() {
    assert_eq!(text("a\r\nb\""), Some(("a\nb".to_string(), String::new())));
    assert_eq!(text("a\rb\""), None);
    assert_eq!(bytes("a\r\nb\""), Some((b"a\nb".to_vec(), String::new())));
    assert_eq!(bytes("a\rb\""), None);
}

#[test]
fn text_line_continuation_skips_unicode_space() {
    assert_eq!(text("a\\\n \t\u{3000}b\""), Some(("ab".to_string(), String::new())));
    assert_eq!(text("a\\\r\n  b\""), Some(("ab".to_string(), String::new())));
    assert_eq!(bytes("a\\\n   b\""), Some((b"ab".to_vec(), String::new())));
    assert_eq!(text("a\\\n   "), None);
}

#[test]
fn text_hex_escapes() {
    assert_eq!(text("\\x7F\""), Some(("\x7f".to_string(), String::new())));
    assert_eq!(text("\\x80\""), None);
    assert_eq!(text("\\x4\""), None);
    assert_eq!(text("\\xg0\""), None);
    assert_eq!(bytes("\\xff\\x00\""), Some((vec![0xff, 0x00], String::new())));
    assert_eq!(bytes("\\xfg\""), None);
}

#[test]
fn text_brace_escapes() {
    assert_eq!(text("\\u{41}\""), Some(("A".to_string(), String::new())));
    assert_eq!(text("\\u{10FFFF}\""), Some(("\u{10FFFF}".to_string(), String::new())));
    assert_eq!(text("\\u{110000}\""), None);
    assert_eq!(text("\\u{D800}\""), None);
    assert_eq!(text("\\u{0000041}\""), None);
    assert_eq!(text("\\u{}\""), None);
    assert_eq!(text("\\u41\""), None);
    assert_eq!(text("\\u{41\""), None);
    assert_eq!(bytes("\\u{41}\""), None);
}

#[test]
fn text_unknown_escape_fails() {
    assert_eq!(text("\\q\""), None);
    assert_eq!(text("\\"), None);
    assert_eq!(bytes("\\q\""), None);
}

#[test]
fn byte_text_rejects_non_ascii() {
    assert_eq!(bytes("é\""), None);
    assert_eq!(text("é\""), Some(("é".to_string(), String::new())));
}

#[test]
fn char_single_unit() {
    assert_eq!(one_char("a'"), Some(('a', String::new())));
    assert_eq!(one_char("ab'"), None);
    assert_eq!(one_char("a"), Some(('a', String::new())));
    assert_eq!(one_char("a' + x"), Some(('a', " + x".to_string())));
    assert_eq!(one_char("\\n'"), Some(('\n', String::new())));
    assert_eq!(one_char("\\u{1F395}'"), Some(('\u{1F395}', String::new())));
    assert_eq!(one_char("\\x41'"), Some(('A', String::new())));
    assert_eq!(one_char("\\x81'"), None);
    assert_eq!(one_char("\\u{DFFF}'"), None);
    assert_eq!(one_char("\\q'"), None);
    assert_eq!(one_char(""), None);
}

#[test]
fn byte_single_unit() {
    assert_eq!(one_byte("a'"), Some((b'a', String::new())));
    assert_eq!(one_byte("ab'"), None);
    assert_eq!(one_byte("\\xEF'"), Some((0xEF, String::new())));
    assert_eq!(one_byte("\\t"), Some((b'\t', String::new())));
    assert_eq!(one_byte("\\u{41}'"), None);
    assert_eq!(one_byte("é'"), None);
    assert_eq!(one_byte(""), None);
}

#[test]
fn raw_text_marker_count() {
    assert_eq!(
        raw("##\"hello \"# world\"##"),
        Some(("hello \"# world".to_string(), 2, String::new()))
    );
    assert_eq!(raw("\"a\\n\" tail"), Some(("a\\n".to_string(), 0, " tail".to_string())));
    assert_eq!(raw("#\"a\r\nb\"#"), Some(("a\nb".to_string(), 1, String::new())));
    assert_eq!(raw("##\"open\"#"), None);
    assert_eq!(raw("#x\"a\"#"), None);
    assert_eq!(raw("###"), None);
}
