//! Skipping white space and comments that are no doc comments, and the
//! test for the end of an identifier.

use vstd::prelude::*;
use crate::cursor::{IResult, ParseState};
use crate::unicode::{code, has_white_space, is_xid_continue, white_space, xid_continue};

verus! {

/// `s[i]` exists and is `c`.
pub open spec fn at(s: Seq<char>, i: int, c: char) -> bool {
    0 <= i < s.len() && s[i] == c
}

/// White space as this language's lexer sees it: the `White_Space` property,
/// and the left-to-right and right-to-left marks.
pub open spec fn lexer_white(c: char) -> bool {
    white_space(c) || c == '\u{200e}' || c == '\u{200f}'
}

/// A unit of white space between tokens: in ASCII the space and tab through
/// carriage return, beyond it `lexer_white`.
pub open spec fn space_char(c: char) -> bool {
    if code(c) <= 0x7f {
        c == ' ' || ('\t' <= c && c <= '\r')
    } else {
        lexer_white(c)
    }
}

/// A line comment that is no doc comment starts at `s[i]`: `//` but neither
/// `///` (unless `////`) nor `//!`.
pub open spec fn line_comment_at(s: Seq<char>, i: int) -> bool {
    &&& at(s, i, '/')
    &&& at(s, i + 1, '/')
    &&& (!at(s, i + 2, '/') || at(s, i + 3, '/'))
    &&& !at(s, i + 2, '!')
}

/// A block comment that is no doc comment starts at `s[i]`: `/*` but neither
/// `/**` (unless `/***`) nor `/*!`.
pub open spec fn block_comment_at(s: Seq<char>, i: int) -> bool {
    &&& at(s, i, '/')
    &&& at(s, i + 1, '*')
    &&& (!at(s, i + 2, '*') || at(s, i + 3, '*'))
    &&& !at(s, i + 2, '!')
}

/// The index after the first line feed at or after `i`, or the end of `s`.
pub open spec fn line_end(s: Seq<char>, i: int) -> int
    decreases s.len() - i,
{
    if 0 <= i < s.len() {
        if s[i] == '\n' {
            i + 1
        } else {
            line_end(s, i + 1)
        }
    } else {
        i
    }
}

/// Scanning a block comment from `s[j]` at nesting depth `d`: the index
/// after the `*/` that brings the depth to zero, if the input holds one.
pub open spec fn block_scan(s: Seq<char>, j: int, d: int) -> Option<int>
    decreases s.len() - j,
{
    if j < 0 || j + 1 >= s.len() {
        None
    } else if s[j] == '/' && s[j + 1] == '*' {
        block_scan(s, j + 2, d + 1)
    } else if s[j] == '*' && s[j + 1] == '/' {
        if d == 1 {
            Some(j + 2)
        } else {
            block_scan(s, j + 2, d - 1)
        }
    } else {
        block_scan(s, j + 1, d)
    }
}

/// The length of the block comment at the start of `s`.
pub open spec fn block_len(s: Seq<char>) -> Option<int> {
    if at(s, 0, '/') && at(s, 1, '*') {
        block_scan(s, 2, 1)
    } else {
        None
    }
}

/// The end of the white space and comments from `s[i]` on; `None` where a
/// block comment there is not closed.
pub open spec fn trivia_from(s: Seq<char>, i: int) -> Option<int>
    decreases s.len() - i,
{
    if !(0 <= i < s.len()) {
        Some(i)
    } else if line_comment_at(s, i) {
        let e = line_end(s, i);
        if i < e <= s.len() {
            trivia_from(s, e)
        } else {
            None
        }
    } else if block_comment_at(s, i) {
        match block_scan(s, i + 2, 1) {
            Some(e) => if i < e <= s.len() {
                trivia_from(s, e)
            } else {
                None
            },
            None => None,
        }
    } else if space_char(s[i]) {
        trivia_from(s, i + 1)
    } else {
        Some(i)
    }
}

/// The length of the trivia at the start of `s`, where there is some.
pub open spec fn trivia(s: Seq<char>) -> Option<int> {
    match trivia_from(s, 0) {
        Some(e) => if e > 0 {
            Some(e)
        } else {
            None
        },
        None => None,
    }
}

/// What is left of `s` once its leading trivia is skipped.
pub open spec fn skipped(s: Seq<char>) -> Seq<char> {
    match trivia(s) {
        Some(e) => s.subrange(e, s.len() as int),
        None => s,
    }
}

/// White space between tokens, with the two direction marks.
pub fn is_whitespace(ch: char) -> (r: bool)
    ensures
        r == lexer_white(ch),
{
    has_white_space(ch) || ch == '\u{200e}' || ch == '\u{200f}'
}

/// Position `i` of `input` holds `c`.
fn char_is(input: &ParseState, i: usize, c: char) -> (r: bool)
    ensures
        r == at(input@, i as int, c),
{
    i < input.len() && input.char_at(i) == c
}

/// The index after the block comment whose `/*` stands at position `i`.
fn block_end(input: &ParseState, i: usize) -> (r: Option<usize>)
    requires
        at(input@, i as int, '/'),
        at(input@, i + 1, '*'),
    ensures
        match block_scan(input@, i + 2, 1) {
            Some(e) => r matches Some(x) && x == e && i + 2 <= e <= input@.len(),
            None => r is None,
        },
{
    let ghost s = input@;
    let n = input.len();
    let mut depth: usize = 1;
    let mut j: usize = i + 2;
    while j < n - 1
        invariant
            s == input@,
            n == s.len(),
            i + 2 <= j <= n,
            1 <= depth <= j,
            block_scan(s, i + 2, 1) == block_scan(s, j as int, depth as int),
        decreases n - j,
    {
        let a = input.char_at(j);
        let b = input.char_at(j + 1);
        if a == '/' && b == '*' {
            depth += 1;
            j += 2;
        } else if a == '*' && b == '/' {
            if depth == 1 {
                return Some(j + 2);
            }
            depth -= 1;
            j += 2;
        } else {
            j += 1;
        }
    }
    None
}

/// The index after the line comment that starts at position `i`.
fn line_comment_end(input: &ParseState, i: usize) -> (r: usize)
    requires
        i < input@.len(),
        input@[i as int] != '\n',
    ensures
        r as int == line_end(input@, i as int),
        i < r <= input@.len(),
{
    let n = input.len();
    let mut j = i;
    while j < n && input.char_at(j) != '\n'
        invariant
            n == input@.len(),
            i <= j <= n,
            j > i || input@[i as int] != '\n',
            line_end(input@, i as int) == line_end(input@, j as int),
        decreases n - j,
    {
        j += 1;
    }
    if j < n {
        j + 1
    } else {
        n
    }
}

/// Matches the block comment at the start of `input`, nested ones inside
/// it included; gives the comment.
pub fn block_comment<'a>(input: ParseState<'a>) -> (r: IResult<ParseState<'a>, &'a [char]>)
    ensures
        match block_len(input@) {
            Some(e) => r matches IResult::Done(rest, com) && com@ == input@.subrange(0, e)
                && rest@ == input@.subrange(e, input@.len() as int),
            None => r is Error,
        },
{
    if !(char_is(&input, 0, '/') && char_is(&input, 1, '*')) {
        return IResult::Error;
    }
    match block_end(&input, 0) {
        Some(e) => {
            IResult::Done(input.advance(e), input.until(e))
        },
        None => IResult::Error,
    }
}

/// Skips the white space and the comments that are no doc comments at the
/// start of `input`; fails where there are none, or where a block comment
/// is not closed.
pub fn whitespace<'a>(input: ParseState<'a>) -> (r: IResult<ParseState<'a>, ()>)
    ensures
        match trivia(input@) {
            Some(e) => r matches IResult::Done(rest, _) && rest@ == input@.subrange(
                e,
                input@.len() as int,
            ),
            None => r is Error,
        },
        r matches IResult::Done(rest, _) ==> rest@.len() < input@.len(),
{
    let ghost s = input@;
    let n = input.len();
    let mut i: usize = 0;
    while i < n
        invariant
            s == input@,
            n == s.len(),
            i <= n,
            trivia_from(s, 0) == trivia_from(s, i as int),
        decreases n - i,
    {
        let c = input.char_at(i);
        if c == '/' {
            if char_is(&input, i + 1, '/') && (!char_is(&input, i + 2, '/') || char_is(
                &input,
                i + 3,
                '/',
            )) && !char_is(&input, i + 2, '!') {
                i = line_comment_end(&input, i);
                continue;
            } else if char_is(&input, i + 1, '*') && (!char_is(&input, i + 2, '*') || char_is(
                &input,
                i + 3,
                '*',
            )) && !char_is(&input, i + 2, '!') {
                match block_end(&input, i) {
                    Some(e) => {
                        i = e;
                        continue;
                    },
                    None => {
                        return IResult::Error;
                    },
                }
            }
        }
        let space = if (c as u32) <= 0x7f {
            c == ' ' || ('\t' <= c && c <= '\r')
        } else {
            is_whitespace(c)
        };
        if space {
            i += 1;
        } else if i > 0 {
            return IResult::Done(input.advance(i), ());
        } else {
            return IResult::Error;
        }
    }
    if i == 0 {
        IResult::Error
    } else {
        IResult::Done(input.finish(), ())
    }
}

/// Succeeds, consuming nothing, where `input` is at its end or its next
/// character cannot continue an identifier.
pub fn word_break<'a>(input: ParseState<'a>) -> (r: IResult<ParseState<'a>, ()>)
    ensures
        (r is Done) == (input@.len() == 0 || !xid_continue(input@[0])),
        r matches IResult::Done(rest, _) ==> rest@ == input@,
{
    match input.peek() {
        Some(ch) => if is_xid_continue(ch) {
            IResult::Error
        } else {
            IResult::Done(input, ())
        },
        None => IResult::Done(input, ()),
    }
}

/// The cursor after the trivia at the start of `input`, or `input` itself
/// where there is none.
pub fn skip_whitespace<'a>(input: ParseState<'a>) -> (r: ParseState<'a>)
    ensures
        r@ == skipped(input@),
        r@.len() <= input@.len(),
{
    match whitespace(input) {
        IResult::Done(rest, _) => rest,
        IResult::Error => input,
    }
}

/// Nothing at `s[i]` starts trivia.
pub open spec fn trivia_stop(s: Seq<char>, i: int) -> bool {
    i >= s.len() || (!line_comment_at(s, i) && !block_comment_at(s, i) && !space_char(s[i]))
}

proof fn lemma_trivia_from_stops(s: Seq<char>, i: int)
    requires
        0 <= i <= s.len(),
        trivia_from(s, i) is Some,
    ensures
        i <= trivia_from(s, i)->0 <= s.len(),
        trivia_stop(s, trivia_from(s, i)->0),
    decreases s.len() - i,
{
    if i < s.len() {
        if line_comment_at(s, i) {
            lemma_trivia_from_stops(s, line_end(s, i));
        } else if block_comment_at(s, i) {
            lemma_trivia_from_stops(s, block_scan(s, i + 2, 1)->0);
        } else if space_char(s[i]) {
            lemma_trivia_from_stops(s, i + 1);
        }
    }
}

/// Skipping trivia a second time finds none: after one skip, a second call
/// fails, and the cursor stays where the first call left it.
pub proof fn lemma_skip_idempotent(s: Seq<char>)
    ensures
        trivia(s) is Some ==> trivia(skipped(s)) is None,
        skipped(skipped(s)) == skipped(s),
{
    if let Some(e) = trivia_from(s, 0) {
        lemma_trivia_from_stops(s, 0);
        let t = s.subrange(e, s.len() as int);
        if t.len() > 0 {
            assert(t[0] == s[e]);
            assert(at(t, 0, '/') == at(s, e, '/'));
            assert(at(t, 1, '/') == at(s, e + 1, '/'));
            assert(at(t, 1, '*') == at(s, e + 1, '*'));
            assert(at(t, 2, '/') == at(s, e + 2, '/'));
            assert(at(t, 2, '*') == at(s, e + 2, '*'));
            assert(at(t, 2, '!') == at(s, e + 2, '!'));
            assert(at(t, 3, '/') == at(s, e + 3, '/'));
            assert(at(t, 3, '*') == at(s, e + 3, '*'));
        }
        assert(trivia_from(t, 0) == Some(0int));
    } else {
        assert(trivia(s) is None);
    }
}

/// Doc comments are tokens, not trivia: input that starts with `///` (but
/// not `////`), `//!`, `/**` (but not `/***`) or `/*!` has no trivia to skip.
pub proof fn lemma_doc_comment_not_trivia(s: Seq<char>)
    requires
        s.len() >= 3,
        s[0] == '/',
        (s[1] == '/' && s[2] == '/' && !at(s, 3, '/')) || (s[1] == '/' && s[2] == '!') || (s[1]
            == '*' && s[2] == '*' && !at(s, 3, '*')) || (s[1] == '*' && s[2] == '!'),
    ensures
        trivia(s) is None,
        skipped(s) == s,
{
}

} // verus!
