//! Unicode facts that come from std and from unicode-xid.

use vstd::prelude::*;
use unicode_xid::UnicodeXID;

verus! {

/// The Unicode `White_Space` property of a character.
pub uninterp spec fn white_space(c: char) -> bool;

/// The Unicode `XID_Continue` property of a character outside ASCII.
pub uninterp spec fn xid_continue_table(c: char) -> bool;

/// A Unicode scalar value: a code point that is not a surrogate.
pub open spec fn is_scalar(v: int) -> bool {
    (0 <= v < 0xD800) || (0xE000 <= v <= 0x10FFFF)
}

/// The code point of a character.
pub open spec fn code(c: char) -> int {
    (c as u32) as int
}

/// The character whose code is `v`, for a scalar value `v`.
pub open spec fn char_of(v: int) -> char {
    (v as u32) as char
}

/// Whether `c` may continue an identifier: ASCII letters, digits and `_`,
/// and outside ASCII the `XID_Continue` property.
pub open spec fn xid_continue(c: char) -> bool {
    if (c as u32) <= 0x7f {
        ('a' <= c && c <= 'z') || ('A' <= c && c <= 'Z') || ('0' <= c && c <= '9') || c == '_'
    } else {
        xid_continue_table(c)
    }
}

/// Relies on `char::is_whitespace`, which tests the `White_Space` property.
#[verifier::external_body]
pub(crate) fn has_white_space(c: char) -> (r: bool)
    ensures
        r == white_space(c),
{
    c.is_whitespace()
}

/// Relies on `UnicodeXID::is_xid_continue` of unicode-xid: its ASCII fast
/// path, and the derived-property table beyond ASCII.
#[verifier::external_body]
pub(crate) fn is_xid_continue(c: char) -> (r: bool)
    ensures
        (c as u32) <= 0x7f ==> r == (('a' <= c && c <= 'z') || ('A' <= c && c <= 'Z') || ('0' <= c
            && c <= '9') || c == '_'),
        (c as u32) > 0x7f ==> r == xid_continue_table(c),
        r == xid_continue(c),
{
    UnicodeXID::is_xid_continue(c)
}

/// Relies on `char::from_u32`: `Some` exactly when `v` is a scalar value,
/// holding the character with that code.
#[verifier::external_body]
pub(crate) fn scalar_from_u32(v: u32) -> (r: Option<char>)
    ensures
        r is Some <==> is_scalar(v as int),
        r matches Some(c) ==> c as u32 == v,
{
    char::from_u32(v)
}

/// The character for a scalar value is the one with that code.
pub proof fn lemma_char_of(c: char)
    ensures
        char_of((c as u32) as int) == c,
{
}

/// A scalar value is the code of the character for it.
pub proof fn lemma_code_of(v: int)
    requires
        is_scalar(v),
    ensures
        code(char_of(v)) == v,
{
}

} // verus!
