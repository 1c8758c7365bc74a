use synom::cursor::{IResult, ParseState};
use synom::helper::separated_list;
use synom::space::skip_whitespace;

fn chars(s: &str) -> Vec<char> {
    s.chars().collect()
}

fn rest_of(p: &ParseState) -> String {
    p.rest().into_iter().collect()
}

fn letter<'a>(input: ParseState<'a>) -> IResult<ParseState<'a>, char> {
    let input = skip_whitespace(input);
    match input.peek() {
        Some(c) if c.is_ascii_alphabetic() => IResult::Done(input.advance(1), c),
        _ => IResult::Error,
    }
}

fn nothing<'a>(input: ParseState<'a>) -> IResult<ParseState<'a>, char> {
    IResult::Done(input, '-')
}

fn list(input: &str, terminated: bool) -> Option<(Vec<char>, String)> {
    let v = chars(input);
    match separated_list(ParseState::new(&v), ",", letter, terminated) {
        IResult::Done(rest, items) => Some((items, rest_of(&rest))),
        IResult::Error => None,
    }
}

#[test]
fn separated_items() {
    assert_eq!(list("a, b ,c;", false), Some((vec!['a', 'b', 'c'], ";".to_string())));
    assert_eq!(list("a, b,;", false), Some((vec!['a', 'b'], ",;".to_string())));
    assert_eq!(list("a, b,;", true), Some((vec!['a', 'b'], ";".to_string())));
    assert_eq!(list("1", false), Some((vec![], "1".to_string())));
}

#[test]
fn separated_first_item_without_progress_fails() {
    let v = chars("abc");
    assert!(matches!(separated_list(ParseState::new(&v), ",", nothing, false), IResult::Error));
}
