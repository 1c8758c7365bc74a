//! Decoding the bodies of text, character, byte-text, byte and raw literals.

use vstd::prelude::*;
use crate::cursor::{IResult, ParseState};
use crate::space::at;
use crate::unicode::{char_of, code, has_white_space, is_scalar, lemma_char_of, lemma_code_of, scalar_from_u32, white_space};

verus! {

/// A hexadecimal digit, in either case.
pub open spec fn is_hex_digit(c: char) -> bool {
    ('0' <= c && c <= '9') || ('a' <= c && c <= 'f') || ('A' <= c && c <= 'F')
}

/// The value of a hexadecimal digit.
pub open spec fn hex_val(c: char) -> int {
    if '0' <= c && c <= '9' {
        (c as u32) - ('0' as u32)
    } else if 'a' <= c && c <= 'f' {
        (c as u32) - ('a' as u32) + 10
    } else {
        (c as u32) - ('A' as u32) + 10
    }
}

/// The number written in hexadecimal by the digits `s[a..b]`.
pub open spec fn hex_num(s: Seq<char>, a: int, b: int) -> int
    decreases b - a,
{
    if b <= a {
        0
    } else {
        hex_num(s, a, b - 1) * 16 + hex_val(s[b - 1])
    }
}

/// How many hex digits stand at `s[i..]`, counting at most `max`.
pub open spec fn hex_run(s: Seq<char>, i: int, max: nat) -> nat
    decreases max,
{
    if max > 0 && 0 <= i < s.len() && is_hex_digit(s[i]) {
        1 + hex_run(s, i + 1, (max - 1) as nat)
    } else {
        0
    }
}

/// Exclusive bound on a number of `n` hex digits, for `n` up to 6.
pub open spec fn hex_limit(n: int) -> int {
    if n <= 0 { 1 }
    else if n == 1 { 0x10 }
    else if n == 2 { 0x100 }
    else if n == 3 { 0x1000 }
    else if n == 4 { 0x10000 }
    else if n == 5 { 0x100000 }
    else { 0x1000000 }
}

/// The value of the escapes `\n \r \t \\ \0 \' \"` by the character after the backslash.
pub open spec fn simple_escape(c: char) -> Option<char> {
    if c == 'n' { Some('\n') }
    else if c == 'r' { Some('\r') }
    else if c == 't' { Some('\t') }
    else if c == '\\' { Some('\\') }
    else if c == '0' { Some('\0') }
    else if c == '\'' { Some('\'') }
    else if c == '"' { Some('"') }
    else { None }
}

/// `\xHH` in text, its two digits at `s[i]` and `s[i + 1]`: the first at most 7.
pub open spec fn x_char_at(s: Seq<char>, i: int) -> Option<char> {
    if 0 <= i && i + 1 < s.len() && '0' <= s[i] && s[i] <= '7' && is_hex_digit(s[i + 1]) {
        Some(char_of(hex_num(s, i, i + 2)))
    } else {
        None
    }
}

/// `\xHH` in byte text, its two digits at `s[i]` and `s[i + 1]`.
pub open spec fn x_byte_at(s: Seq<char>, i: int) -> Option<u8> {
    if 0 <= i && i + 1 < s.len() && is_hex_digit(s[i]) && is_hex_digit(s[i + 1]) {
        Some(hex_num(s, i, i + 2) as u8)
    } else {
        None
    }
}

/// `\u{...}` with its opening brace at `s[i]`: one to six hex digits, a
/// closing brace, and a scalar value. Gives the character and the index
/// after the closing brace.
pub open spec fn u_char_at(s: Seq<char>, i: int) -> Option<(char, int)> {
    let k = hex_run(s, i + 1, 6) as int;
    if 0 <= i && i + 1 + k < s.len() && s[i] == '{' && k >= 1 && s[i + 1 + k] == '}'
        && is_scalar(hex_num(s, i + 1, i + 1 + k)) {
        Some((char_of(hex_num(s, i + 1, i + 1 + k)), i + 2 + k))
    } else {
        None
    }
}

/// The first index at or after `i` whose character is not white space.
pub open spec fn ws_end(s: Seq<char>, i: int) -> int
    decreases s.len() - i,
{
    if 0 <= i < s.len() && white_space(s[i]) {
        ws_end(s, i + 1)
    } else {
        i
    }
}

/// One step of decoding the body of a quoted literal.
pub enum Step<T> {
    /// The closing quote.
    Close,
    /// A value, and the index after the units that wrote it.
    Emit(T, int),
    /// Units that write nothing, up to the given index.
    Skip(int),
    /// A unit or an escape that is not allowed.
    Fail,
}

/// `t` written in front of the text of a decode result.
pub open spec fn prepend<T>(t: Seq<T>, r: Option<(Seq<T>, int)>) -> Option<(Seq<T>, int)> {
    match r {
        Some((u, e)) => Some((t + u, e)),
        None => None,
    }
}

/// The escape of text whose backslash stands at `s[i]`.
pub open spec fn text_escape(s: Seq<char>, i: int) -> Step<char> {
    if i + 1 >= s.len() {
        Step::Fail
    } else if simple_escape(s[i + 1]) is Some {
        Step::Emit(simple_escape(s[i + 1])->0, i + 2)
    } else if s[i + 1] == 'x' {
        match x_char_at(s, i + 2) {
            Some(c) => Step::Emit(c, i + 4),
            None => Step::Fail,
        }
    } else if s[i + 1] == 'u' {
        match u_char_at(s, i + 2) {
            Some((c, e)) => Step::Emit(c, e),
            None => Step::Fail,
        }
    } else if s[i + 1] == '\n' || s[i + 1] == '\r' {
        Step::Skip(ws_end(s, i + 2))
    } else {
        Step::Fail
    }
}

/// The escape of byte text whose backslash stands at `s[i]`.
pub open spec fn byte_escape(s: Seq<char>, i: int) -> Step<u8> {
    if i + 1 >= s.len() {
        Step::Fail
    } else if simple_escape(s[i + 1]) is Some {
        Step::Emit(code(simple_escape(s[i + 1])->0) as u8, i + 2)
    } else if s[i + 1] == 'x' {
        match x_byte_at(s, i + 2) {
            Some(b) => Step::Emit(b, i + 4),
            None => Step::Fail,
        }
    } else if s[i + 1] == '\n' || s[i + 1] == '\r' {
        Step::Skip(ws_end(s, i + 2))
    } else {
        Step::Fail
    }
}

/// The step of a text body at `s[i]`.
pub open spec fn text_step(s: Seq<char>, i: int) -> Step<char> {
    if s[i] == '"' {
        Step::Close
    } else if s[i] == '\r' {
        if i + 1 < s.len() && s[i + 1] == '\n' {
            Step::Emit('\n', i + 2)
        } else {
            Step::Fail
        }
    } else if s[i] == '\\' {
        text_escape(s, i)
    } else {
        Step::Emit(s[i], i + 1)
    }
}

/// The step of a byte-text body at `s[i]`: unescaped units are ASCII.
pub open spec fn byte_step(s: Seq<char>, i: int) -> Step<u8> {
    if s[i] == '"' {
        Step::Close
    } else if s[i] == '\r' {
        if i + 1 < s.len() && s[i + 1] == '\n' {
            Step::Emit(10u8, i + 2)
        } else {
            Step::Fail
        }
    } else if s[i] == '\\' {
        byte_escape(s, i)
    } else if code(s[i]) < 0x80 {
        Step::Emit(code(s[i]) as u8, i + 1)
    } else {
        Step::Fail
    }
}

/// Decoding a text body from `s[i]` on: the text, and the index after the
/// closing quote.
pub open spec fn text_from(s: Seq<char>, i: int) -> Option<(Seq<char>, int)>
    decreases s.len() - i,
{
    if 0 <= i < s.len() {
        match text_step(s, i) {
            Step::Close => Some((Seq::empty(), i + 1)),
            Step::Emit(c, j) => if i < j <= s.len() {
                prepend(seq![c], text_from(s, j))
            } else {
                None
            },
            Step::Skip(j) => if i < j <= s.len() {
                text_from(s, j)
            } else {
                None
            },
            Step::Fail => None,
        }
    } else {
        None
    }
}

/// Decoding a byte-text body from `s[i]` on: the bytes, and the index after
/// the closing quote.
pub open spec fn byte_text_from(s: Seq<char>, i: int) -> Option<(Seq<u8>, int)>
    decreases s.len() - i,
{
    if 0 <= i < s.len() {
        match byte_step(s, i) {
            Step::Close => Some((Seq::empty(), i + 1)),
            Step::Emit(b, j) => if i < j <= s.len() {
                prepend(seq![b], byte_text_from(s, j))
            } else {
                None
            },
            Step::Skip(j) => if i < j <= s.len() {
                byte_text_from(s, j)
            } else {
                None
            },
            Step::Fail => None,
        }
    } else {
        None
    }
}

/// The body of a text literal, after its opening quote.
pub open spec fn text_body(s: Seq<char>) -> Option<(Seq<char>, int)> {
    text_from(s, 0)
}

/// The body of a byte-text literal, after its opening quote.
pub open spec fn byte_text_body(s: Seq<char>) -> Option<(Seq<u8>, int)> {
    byte_text_from(s, 0)
}

/// The one unit of a character literal: its value and the index after it.
pub open spec fn char_unit(s: Seq<char>) -> Option<(char, int)> {
    if s.len() == 0 {
        None
    } else if s[0] == '\\' {
        match text_escape(s, 0) {
            Step::Emit(c, j) => Some((c, j)),
            _ => None,
        }
    } else {
        Some((s[0], 1))
    }
}

/// The one unit of a byte literal: its value and the index after it.
pub open spec fn byte_unit(s: Seq<char>) -> Option<(u8, int)> {
    if s.len() == 0 {
        None
    } else if s[0] == '\\' {
        match byte_escape(s, 0) {
            Step::Emit(b, j) => Some((b, j)),
            _ => None,
        }
    } else if code(s[0]) < 0x80 {
        Some((code(s[0]) as u8, 1))
    } else {
        None
    }
}

/// After the one unit at `s[..j]`: the closing quote, or the end of input.
/// Gives the index after the literal.
pub open spec fn after_unit(s: Seq<char>, j: int) -> Option<int> {
    if j == s.len() {
        Some(j)
    } else if 0 <= j < s.len() && s[j] == '\'' {
        Some(j + 1)
    } else {
        None
    }
}

/// The body of a character literal: its value and the index after it.
pub open spec fn char_body(s: Seq<char>) -> Option<(char, int)> {
    match char_unit(s) {
        Some((c, j)) => match after_unit(s, j) {
            Some(e) => Some((c, e)),
            None => None,
        },
        None => None,
    }
}

/// The body of a byte literal: its value and the index after it.
pub open spec fn byte_body(s: Seq<char>) -> Option<(u8, int)> {
    match byte_unit(s) {
        Some((b, j)) => match after_unit(s, j) {
            Some(e) => Some((b, e)),
            None => None,
        },
        None => None,
    }
}

/// The index of the first unit at or after `i` that is not a `#`.
pub open spec fn hash_end(s: Seq<char>, i: int) -> int
    decreases s.len() - i,
{
    if 0 <= i < s.len() && s[i] == '#' {
        hash_end(s, i + 1)
    } else {
        i
    }
}

/// A quote at `s[j]` followed by `n` markers `#`.
pub open spec fn raw_close_at(s: Seq<char>, j: int, n: int) -> bool {
    &&& 0 <= j
    &&& j + 1 + n <= s.len()
    &&& s[j] == '"'
    &&& forall|k: int| j < k <= j + n ==> s[k] == '#'
}

/// The content of a raw literal closed by `n` markers, from `s[j]` on, with
/// carriage returns dropped; and the index after the closing markers.
pub open spec fn raw_from(s: Seq<char>, n: int, j: int) -> Option<(Seq<char>, int)>
    decreases s.len() - j,
{
    if !(0 <= j < s.len()) {
        None
    } else if raw_close_at(s, j, n) {
        Some((Seq::empty(), j + 1 + n))
    } else if s[j] == '\r' {
        raw_from(s, n, j + 1)
    } else {
        prepend(seq![s[j]], raw_from(s, n, j + 1))
    }
}

/// A raw literal from its opening markers: the content, the number of
/// markers, and the index after the closing markers.
pub open spec fn raw_body(s: Seq<char>) -> Option<(Seq<char>, int, int)> {
    let n = hash_end(s, 0);
    if n < s.len() && s[n] == '"' {
        match raw_from(s, n, n + 1) {
            Some((t, e)) => Some((t, n, e)),
            None => None,
        }
    } else {
        None
    }
}

proof fn lemma_prepend_push<T>(p: Seq<T>, c: T, r: Option<(Seq<T>, int)>)
    ensures
        prepend(p, prepend(seq![c], r)) == prepend(p.push(c), r),
{
    if let Some((t, e)) = r {
        assert(p + (seq![c] + t) =~= p.push(c) + t);
    }
}

/// Relies on `String::push`: appends one character.
#[verifier::external_body]
fn push_char(s: &mut String, c: char)
    ensures
        final(s)@ == old(s)@.push(c),
{
    s.push(c)
}

/// The value of a one-character escape, by the character after the backslash.
fn simple_escape_char(c: char) -> (r: Option<char>)
    ensures
        r == simple_escape(c),
{
    if c == 'n' {
        Some('\n')
    } else if c == 'r' {
        Some('\r')
    } else if c == 't' {
        Some('\t')
    } else if c == '\\' {
        Some('\\')
    } else if c == '0' {
        Some('\0')
    } else if c == '\'' {
        Some('\'')
    } else if c == '"' {
        Some('"')
    } else {
        None
    }
}

/// Whether `c` is a hexadecimal digit.
fn is_hex(c: char) -> (r: bool)
    ensures
        r == is_hex_digit(c),
{
    ('0' <= c && c <= '9') || ('a' <= c && c <= 'f') || ('A' <= c && c <= 'F')
}

/// The value of a hexadecimal digit.
fn hex_digit(c: char) -> (r: u32)
    requires
        is_hex_digit(c),
    ensures
        r as int == hex_val(c),
        r < 16,
{
    if '0' <= c && c <= '9' {
        (c as u32) - ('0' as u32)
    } else if 'a' <= c && c <= 'f' {
        (c as u32) - ('a' as u32) + 10
    } else {
        (c as u32) - ('A' as u32) + 10
    }
}

/// The character of `\xHH` in text, its digits at position `i` of `input`.
fn backslash_x_char(input: &ParseState, i: usize) -> (r: Option<char>)
    ensures
        r == x_char_at(input@, i as int),
{
    let n = input.len();
    if i < n && i + 1 < n {
        let a = input.char_at(i);
        let b = input.char_at(i + 1);
        if '0' <= a && a <= '7' && is_hex(b) {
            let v = hex_digit(a) * 16 + hex_digit(b);
            assert(hex_num(input@, i as int, i as int) == 0);
            assert(hex_num(input@, i as int, i + 1) == hex_val(a));
            assert(v as int == hex_num(input@, i as int, i + 2));
            let r = scalar_from_u32(v);
            proof {
                if let Some(c) = r {
                    lemma_char_of(c);
                }
            }
            return r;
        }
    }
    None
}

/// The byte of `\xHH` in byte text, its digits at position `i` of `input`.
fn backslash_x_byte(input: &ParseState, i: usize) -> (r: Option<u8>)
    ensures
        r == x_byte_at(input@, i as int),
{
    let n = input.len();
    if i < n && i + 1 < n {
        let a = input.char_at(i);
        let b = input.char_at(i + 1);
        if is_hex(a) && is_hex(b) {
            let v = hex_digit(a) * 16 + hex_digit(b);
            assert(hex_num(input@, i as int, i as int) == 0);
            assert(hex_num(input@, i as int, i + 1) == hex_val(a));
            assert(v as int == hex_num(input@, i as int, i + 2));
            return Some(v as u8);
        }
    }
    None
}

/// The character of `\u{...}` with its opening brace at position `i` of
/// `input`, and the position after the closing brace.
fn backslash_u(input: &ParseState, i: usize) -> (r: Option<(char, usize)>)
    ensures
        match u_char_at(input@, i as int) {
            Some((c, e)) => r == Some((c, e as usize)),
            None => r is None,
        },
{
    let ghost s = input@;
    let n = input.len();
    if i >= n || input.char_at(i) != '{' {
        return None;
    }
    let mut j: usize = i + 1;
    let mut v: u32 = 0;
    while j - (i + 1) < 6 && j < n && is_hex(input.char_at(j))
        invariant
            s == input@,
            n == s.len(),
            i < j <= n,
            j - (i + 1) <= 6,
            v as int == hex_num(s, i + 1, j as int),
            (v as int) < hex_limit(j - (i + 1)),
            hex_run(s, i + 1, 6) == (j - (i + 1)) + hex_run(s, j as int, (6 - (j - (i + 1))) as nat),
        decreases n - j,
    {
        v = v * 16 + hex_digit(input.char_at(j));
        j += 1;
    }
    if j == i + 1 || j >= n || input.char_at(j) != '}' {
        return None;
    }
    match scalar_from_u32(v) {
        Some(c) => {
            proof {
                lemma_char_of(c);
            }
            Some((c, j + 1))
        },
        None => None,
    }
}

/// The index after white space that starts at position `i` of `input`.
fn skip_white_space(input: &ParseState, i: usize) -> (r: usize)
    requires
        i <= input@.len(),
    ensures
        r as int == ws_end(input@, i as int),
        i <= r <= input@.len(),
{
    let n = input.len();
    let mut j = i;
    while j < n && has_white_space(input.char_at(j))
        invariant
            n == input@.len(),
            i <= j <= n,
            ws_end(input@, i as int) == ws_end(input@, j as int),
        decreases n - j,
    {
        j += 1;
    }
    j
}

/// Decodes the body of a text literal, after its opening quote, up to and
/// past its closing quote.
pub fn cooked_string<'a>(input: ParseState<'a>) -> (r: IResult<ParseState<'a>, String>)
    ensures
        match text_body(input@) {
            Some((t, e)) => r matches IResult::Done(rest, v) && v@ == t && rest@ == input@.subrange(
                e,
                input@.len() as int,
            ),
            None => r is Error,
        },
{
    let ghost s = input@;
    let n = input.len();
    let mut out = String::new();
    let mut i: usize = 0;
    while i < n
        invariant
            s == input@,
            n == s.len(),
            i <= n,
            text_from(s, 0) == prepend(out@, text_from(s, i as int)),
        decreases n - i,
    {
        let c = input.char_at(i);
        if c == '"' {
            assert(out@ + Seq::<char>::empty() =~= out@);
            return IResult::Done(input.advance(i + 1), out);
        }
        let ghost old_out = out@;
        let mut v = c;
        let mut next = i + 1;
        if c == '\r' {
            if i + 1 < n && input.char_at(i + 1) == '\n' {
                v = '\n';
                next = i + 2;
            } else {
                return IResult::Error;
            }
        } else if c == '\\' {
            if i + 1 >= n {
                return IResult::Error;
            }
            let e = input.char_at(i + 1);
            match simple_escape_char(e) {
                Some(x) => {
                    v = x;
                    next = i + 2;
                },
                None => {
                    if e == 'x' {
                        match backslash_x_char(&input, i + 2) {
                            Some(x) => {
                                v = x;
                                next = i + 4;
                            },
                            None => return IResult::Error,
                        }
                    } else if e == 'u' {
                        match backslash_u(&input, i + 2) {
                            Some((x, j)) => {
                                v = x;
                                next = j;
                            },
                            None => return IResult::Error,
                        }
                    } else if e == '\n' || e == '\r' {
                        i = skip_white_space(&input, i + 2);
                        continue;
                    } else {
                        return IResult::Error;
                    }
                },
            }
        }
        push_char(&mut out, v);
        proof {
            lemma_prepend_push(old_out, v, text_from(s, next as int));
        }
        i = next;
    }
    IResult::Error
}

/// Decodes the body of a byte-text literal, after its opening quote, up to
/// and past its closing quote.
pub fn cooked_byte_string<'a>(input: ParseState<'a>) -> (r: IResult<ParseState<'a>, Vec<u8>>)
    ensures
        match byte_text_body(input@) {
            Some((t, e)) => r matches IResult::Done(rest, v) && v@ == t && rest@ == input@.subrange(
                e,
                input@.len() as int,
            ),
            None => r is Error,
        },
{
    let ghost s = input@;
    let n = input.len();
    let mut out: Vec<u8> = Vec::new();
    let mut i: usize = 0;
    while i < n
        invariant
            s == input@,
            n == s.len(),
            i <= n,
            byte_text_from(s, 0) == prepend(out@, byte_text_from(s, i as int)),
        decreases n - i,
    {
        let c = input.char_at(i);
        if c == '"' {
            assert(out@ + Seq::<u8>::empty() =~= out@);
            return IResult::Done(input.advance(i + 1), out);
        }
        let ghost old_out = out@;
        let mut v: u8 = 0;
        let mut next = i + 1;
        if c == '\r' {
            if i + 1 < n && input.char_at(i + 1) == '\n' {
                v = 10u8;
                next = i + 2;
            } else {
                return IResult::Error;
            }
        } else if c == '\\' {
            if i + 1 >= n {
                return IResult::Error;
            }
            let e = input.char_at(i + 1);
            match simple_escape_char(e) {
                Some(x) => {
                    v = (x as u32) as u8;
                    next = i + 2;
                },
                None => {
                    if e == 'x' {
                        match backslash_x_byte(&input, i + 2) {
                            Some(x) => {
                                v = x;
                                next = i + 4;
                            },
                            None => return IResult::Error,
                        }
                    } else if e == '\n' || e == '\r' {
                        i = skip_white_space(&input, i + 2);
                        continue;
                    } else {
                        return IResult::Error;
                    }
                },
            }
        } else if (c as u32) < 0x80 {
            v = (c as u32) as u8;
        } else {
            return IResult::Error;
        }
        out.push(v);
        proof {
            lemma_prepend_push(old_out, v, byte_text_from(s, next as int));
        }
        i = next;
    }
    IResult::Error
}

/// Decodes the body of a character literal, after its opening quote: one
/// unit, then the closing quote or the end of input.
pub fn cooked_char<'a>(input: ParseState<'a>) -> (r: IResult<ParseState<'a>, char>)
    ensures
        match char_body(input@) {
            Some((c, e)) => r matches IResult::Done(rest, v) && v == c && rest@ == input@.subrange(
                e,
                input@.len() as int,
            ),
            None => r is Error,
        },
{
    let n = input.len();
    if n == 0 {
        return IResult::Error;
    }
    let c = input.char_at(0);
    let mut v = c;
    let mut next: usize = 1;
    if c == '\\' {
        if n < 2 {
            return IResult::Error;
        }
        let e = input.char_at(1);
        match simple_escape_char(e) {
            Some(x) => {
                v = x;
                next = 2;
            },
            None => {
                if e == 'x' {
                    match backslash_x_char(&input, 2) {
                        Some(x) => {
                            v = x;
                            next = 4;
                        },
                        None => return IResult::Error,
                    }
                } else if e == 'u' {
                    match backslash_u(&input, 2) {
                        Some((x, j)) => {
                            v = x;
                            next = j;
                        },
                        None => return IResult::Error,
                    }
                } else {
                    return IResult::Error;
                }
            },
        }
    }
    if next == n {
        IResult::Done(input.finish(), v)
    } else if input.char_at(next) == '\'' {
        IResult::Done(input.advance(next + 1), v)
    } else {
        IResult::Error
    }
}

/// Decodes the body of a byte literal, after its opening quote: one unit,
/// then the closing quote or the end of input.
pub fn cooked_byte<'a>(input: ParseState<'a>) -> (r: IResult<ParseState<'a>, u8>)
    ensures
        match byte_body(input@) {
            Some((b, e)) => r matches IResult::Done(rest, v) && v == b && rest@ == input@.subrange(
                e,
                input@.len() as int,
            ),
            None => r is Error,
        },
{
    let n = input.len();
    if n == 0 {
        return IResult::Error;
    }
    let c = input.char_at(0);
    let mut v: u8 = 0;
    let mut next: usize = 1;
    if c == '\\' {
        if n < 2 {
            return IResult::Error;
        }
        let e = input.char_at(1);
        match simple_escape_char(e) {
            Some(x) => {
                v = (x as u32) as u8;
                next = 2;
            },
            None => {
                if e == 'x' {
                    match backslash_x_byte(&input, 2) {
                        Some(x) => {
                            v = x;
                            next = 4;
                        },
                        None => return IResult::Error,
                    }
                } else {
                    return IResult::Error;
                }
            },
        }
    } else if (c as u32) < 0x80 {
        v = (c as u32) as u8;
    } else {
        return IResult::Error;
    }
    if next == n {
        IResult::Done(input.finish(), v)
    } else if input.char_at(next) == '\'' {
        IResult::Done(input.advance(next + 1), v)
    } else {
        IResult::Error
    }
}

/// Scans a raw literal from its opening markers `#`: the content with
/// carriage returns dropped, and the number of markers.
pub fn raw_string<'a>(input: ParseState<'a>) -> (r: IResult<ParseState<'a>, (String, usize)>)
    ensures
        match raw_body(input@) {
            Some((t, m, e)) => r matches IResult::Done(rest, v) && v.0@ == t && v.1 == m
                && rest@ == input@.subrange(e, input@.len() as int),
            None => r is Error,
        },
{
    let ghost s = input@;
    let len = input.len();
    let mut n: usize = 0;
    while n < len && input.char_at(n) == '#'
        invariant
            s == input@,
            len == s.len(),
            n <= len,
            hash_end(s, 0) == hash_end(s, n as int),
            forall|k: int| 0 <= k < n ==> s[k] == '#',
        decreases len - n,
    {
        n += 1;
    }
    if n >= len || input.char_at(n) != '"' {
        return IResult::Error;
    }
    assert(hash_end(s, n as int) == n);
    let hashes = input.until(n);
    let mut out = String::new();
    let mut j: usize = n + 1;
    while j < len
        invariant
            s == input@,
            len == s.len(),
            n < j <= len,
            hashes@ == s.subrange(0, n as int),
            hash_end(s, 0) == n,
            s[n as int] == '"',
            forall|k: int| 0 <= k < n ==> s[k] == '#',
            raw_from(s, n as int, n + 1) == prepend(out@, raw_from(s, n as int, j as int)),
        decreases len - j,
    {
        let c = input.char_at(j);
        let closes = c == '"' && input.advance(j + 1).starts_with(hashes);
        proof {
            if closes {
                assert forall|k: int| j < k <= j + n implies s[k] == '#' by {
                    assert(s.subrange(j + 1, len as int).subrange(0, n as int)[k - j - 1] == s[k]);
                }
            }
            if raw_close_at(s, j as int, n as int) {
                assert(s.subrange(j + 1, len as int).subrange(0, n as int) =~= s.subrange(0, n as int));
            }
        }
        if closes {
            assert(raw_close_at(s, j as int, n as int));
            assert(out@ + Seq::<char>::empty() =~= out@);
            return IResult::Done(input.advance(j + 1 + n), (out, n));
        }
        if c != '\r' {
            let ghost old_out = out@;
            push_char(&mut out, c);
            proof {
                lemma_prepend_push(old_out, c, raw_from(s, n as int, j + 1));
            }
        }
        j += 1;
    }
    IResult::Error
}

proof fn lemma_hex_run(s: Seq<char>, i: int, max: nat, k: int)
    requires
        0 <= i,
        0 <= k <= max,
        i + k <= s.len(),
        forall|j: int| i <= j < i + k ==> is_hex_digit(#[trigger] s[j]),
        k < max ==> !(i + k < s.len() && is_hex_digit(s[i + k])),
    ensures
        hex_run(s, i, max) == k,
    decreases k,
{
    if k > 0 {
        lemma_hex_run(s, i + 1, (max - 1) as nat, k - 1);
    }
}

/// `\xHH` in a character literal gives the character whose code the two hex
/// digits write, where the first digit is at most 7, and fails otherwise.
pub proof fn lemma_x_escape_char(s: Seq<char>)
    requires
        s.len() == 4,
        s[0] == '\\',
        s[1] == 'x',
        is_hex_digit(s[2]),
        is_hex_digit(s[3]),
    ensures
        ('0' <= s[2] && s[2] <= '7') ==> char_body(s) == Some((char_of(hex_val(s[2]) * 16 + hex_val(s[3])), 4int))
            && code(char_of(hex_val(s[2]) * 16 + hex_val(s[3]))) == hex_val(s[2]) * 16 + hex_val(s[3]),
        !('0' <= s[2] && s[2] <= '7') ==> char_body(s) is None,
{
    assert(hex_num(s, 2, 2) == 0);
    assert(hex_num(s, 2, 3) == hex_val(s[2]));
    assert(hex_num(s, 2, 4) == hex_val(s[2]) * 16 + hex_val(s[3]));
    if '0' <= s[2] && s[2] <= '7' {
        lemma_code_of(hex_val(s[2]) * 16 + hex_val(s[3]));
    }
}

/// `\xHH` in a byte literal gives the byte that the two hex digits write.
pub proof fn lemma_x_escape_byte(s: Seq<char>)
    requires
        s.len() == 4,
        s[0] == '\\',
        s[1] == 'x',
        is_hex_digit(s[2]),
        is_hex_digit(s[3]),
    ensures
        byte_body(s) == Some(((hex_val(s[2]) * 16 + hex_val(s[3])) as u8, 4int)),
        hex_val(s[2]) * 16 + hex_val(s[3]) < 256,
{
    assert(hex_num(s, 2, 2) == 0);
    assert(hex_num(s, 2, 3) == hex_val(s[2]));
    assert(hex_num(s, 2, 4) == hex_val(s[2]) * 16 + hex_val(s[3]));
}

/// `\u{...}` with one to six hex digits in a character literal gives the
/// character whose code the digits write where that is a scalar value, and
/// fails where it is not.
pub proof fn lemma_u_escape(s: Seq<char>, k: int)
    requires
        1 <= k <= 6,
        s.len() == k + 4,
        s[0] == '\\',
        s[1] == 'u',
        s[2] == '{',
        forall|j: int| 3 <= j < 3 + k ==> is_hex_digit(s[j]),
        s[3 + k] == '}',
    ensures
        is_scalar(hex_num(s, 3, 3 + k)) ==> char_body(s) == Some((char_of(hex_num(s, 3, 3 + k)), k + 4))
            && code(char_of(hex_num(s, 3, 3 + k))) == hex_num(s, 3, 3 + k),
        !is_scalar(hex_num(s, 3, 3 + k)) ==> char_body(s) is None,
{
    lemma_hex_run(s, 3, 6, k);
    if is_scalar(hex_num(s, 3, 3 + k)) {
        lemma_code_of(hex_num(s, 3, 3 + k));
    }
}

/// `\u{...}` with seven or more hex digits fails.
pub proof fn lemma_u_escape_too_long(s: Seq<char>)
    requires
        s.len() >= 10,
        s[0] == '\\',
        s[1] == 'u',
        s[2] == '{',
        forall|j: int| 3 <= j < 10 ==> is_hex_digit(s[j]),
    ensures
        char_body(s) is None,
{
    lemma_hex_run(s, 3, 6, 6);
}

/// `\u` without its opening brace fails.
pub proof fn lemma_u_escape_no_brace(s: Seq<char>)
    requires
        s.len() >= 2,
        s[0] == '\\',
        s[1] == 'u',
        !at(s, 2, '{'),
    ensures
        char_body(s) is None,
{
}

/// A carriage return and a line feed decode to one line feed; a carriage
/// return without a line feed after it fails.
pub proof fn lemma_crlf(s: Seq<char>, i: int)
    requires
        0 <= i < s.len(),
        s[i] == '\r',
    ensures
        at(s, i + 1, '\n') ==> text_from(s, i) == prepend(seq!['\n'], text_from(s, i + 2))
            && byte_text_from(s, i) == prepend(seq![10u8], byte_text_from(s, i + 2)),
        !at(s, i + 1, '\n') ==> text_from(s, i) is None && byte_text_from(s, i) is None,
{
}

proof fn lemma_ws_end(s: Seq<char>, i: int)
    requires
        0 <= i <= s.len(),
    ensures
        i <= ws_end(s, i) <= s.len(),
        forall|j: int| i <= j < ws_end(s, i) ==> white_space(s[j]),
        ws_end(s, i) < s.len() ==> !white_space(s[ws_end(s, i)]),
    decreases s.len() - i,
{
    if i < s.len() && white_space(s[i]) {
        lemma_ws_end(s, i + 1);
    }
}

/// A backslash and a line ending continue the literal at the first unit
/// after them that is not white space: all white space between is dropped.
pub proof fn lemma_line_continuation(s: Seq<char>, i: int)
    requires
        0 <= i,
        i + 1 < s.len(),
        s[i] == '\\',
        s[i + 1] == '\n' || s[i + 1] == '\r',
    ensures
        text_from(s, i) == text_from(s, ws_end(s, i + 2)),
        byte_text_from(s, i) == byte_text_from(s, ws_end(s, i + 2)),
        i + 2 <= ws_end(s, i + 2) <= s.len(),
        forall|j: int| i + 2 <= j < ws_end(s, i + 2) ==> white_space(s[j]),
        ws_end(s, i + 2) < s.len() ==> !white_space(s[ws_end(s, i + 2)]),
{
    lemma_ws_end(s, i + 2);
    assert(simple_escape(s[i + 1]) is None);
}

} // verus!
