//! Punctuation, keywords and separated lists over the trivia skipper.

use vstd::prelude::*;
use crate::cursor::{IResult, ParseState};
use crate::space::{skip_whitespace, skipped, word_break};
use crate::unicode::xid_continue;

verus! {

/// `tok` stands at the start of `t`.
pub open spec fn begins_with(t: Seq<char>, tok: Seq<char>) -> bool {
    tok.len() <= t.len() && t.subrange(0, tok.len() as int) == tok
}

/// Matches the punctuation `token` after any trivia.
pub fn punct<'a>(input: ParseState<'a>, token: &'static str) -> (r: IResult<ParseState<'a>, &'static str>)
    ensures
        (r is Done) == begins_with(skipped(input@), token@),
        r matches IResult::Done(rest, v) ==> v == token && rest@ == skipped(input@).subrange(
            token@.len() as int,
            skipped(input@).len() as int,
        ),
        r matches IResult::Done(rest, _) ==> rest@.len() <= input@.len(),
{
    let input = skip_whitespace(input);
    if input.starts_with_str(token) {
        IResult::Done(input.advance(token.unicode_len()), token)
    } else {
        IResult::Error
    }
}

/// Matches the keyword `token` after any trivia, where no identifier
/// character follows it.
pub fn keyword<'a>(input: ParseState<'a>, token: &'static str) -> (r: IResult<ParseState<'a>, &'static str>)
    ensures
        ({
            let t = skipped(input@);
            let n = token@.len() as int;
            (r is Done) == (begins_with(t, token@) && (t.len() == n || !xid_continue(t[n])))
        }),
        r matches IResult::Done(rest, v) ==> v == token && rest@ == skipped(input@).subrange(
            token@.len() as int,
            skipped(input@).len() as int,
        ),
{
    match punct(input, token) {
        IResult::Done(rest, _) => match word_break(rest) {
            IResult::Done(_, _) => IResult::Done(rest, token),
            IResult::Error => IResult::Error,
        },
        IResult::Error => IResult::Error,
    }
}

/// Parses items with `f`, separated by the punctuation `sep`, and takes one
/// more `sep` after the last item where `terminated` is set. Where `f` finds
/// no first item the list is empty and nothing is consumed; a first item that
/// consumes nothing is an error. The list ends at the first separator or
/// item that is missing or consumes nothing.
pub fn separated_list<'a, T, F>(
    input: ParseState<'a>,
    sep: &'static str,
    f: F,
    terminated: bool,
) -> (r: IResult<ParseState<'a>, Vec<T>>) where F: Fn(ParseState<'a>) -> IResult<ParseState<'a>, T>
    requires
        forall|p: ParseState<'a>| f.requires((p,)),
        forall|p: ParseState<'a>, q: IResult<ParseState<'a>, T>|
            f.ensures((p,), q) ==> (q matches IResult::Done(rest, _) ==> rest@.len() <= p@.len()),
    ensures
        match r {
            IResult::Done(rest, v) => if v.len() == 0 {
                rest@ == input@ && f.ensures((input,), IResult::Error)
            } else {
                rest@.len() < input@.len()
            },
            IResult::Error => exists|q: ParseState<'a>, o: T|
                f.ensures((input,), IResult::Done(q, o)) && q@.len() == input@.len(),
        },
{
    let mut res: Vec<T> = Vec::new();
    match f(input) {
        IResult::Error => IResult::Done(input, res),
        IResult::Done(i, o) => {
            if i.len() == input.len() {
                return IResult::Error;
            }
            res.push(o);
            let mut cur = i;
            loop
                invariant
                    forall|p: ParseState<'a>| f.requires((p,)),
                    forall|p: ParseState<'a>, q: IResult<ParseState<'a>, T>|
                        f.ensures((p,), q) ==> (q matches IResult::Done(rest, _) ==> rest@.len()
                            <= p@.len()),
                    cur@.len() < input@.len(),
                    res.len() > 0,
                decreases cur@.len(),
            {
                match punct(cur, sep) {
                    IResult::Done(i2, _) => {
                        if i2.len() == cur.len() {
                            break;
                        }
                        match f(i2) {
                            IResult::Done(i3, o3) => {
                                if i3.len() == i2.len() {
                                    break;
                                }
                                res.push(o3);
                                cur = i3;
                            },
                            IResult::Error => break,
                        }
                    },
                    IResult::Error => break,
                }
            }
            if terminated {
                if let IResult::Done(after, _) = punct(cur, sep) {
                    cur = after;
                }
            }
            IResult::Done(cur, res)
        },
    }
}

} // verus!
