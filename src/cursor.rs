//! A cursor over the characters left to parse, and the result of a parse step.

use vstd::prelude::*;

verus! {

/// An immutable view over the remaining input of a parse, as a position in a
/// buffer of characters. Deriving a new cursor never changes an old one.
#[derive(Clone, Copy)]
pub struct ParseState<'a> {
    input: &'a [char],
    pos: usize,
}

/// The outcome of a parse step: the cursor after what was consumed together
/// with the value produced, or a bare failure.
pub enum IResult<I, O> {
    Done(I, O),
    Error,
}

impl<'a> View for ParseState<'a> {
    type V = Seq<char>;

    /// What is left to parse.
    closed spec fn view(&self) -> Seq<char> {
        self.input@.subrange(self.pos as int, self.input@.len() as int)
    }
}

impl<'a> ParseState<'a> {
    #[verifier::type_invariant]
    spec fn inv(&self) -> bool {
        self.pos <= self.input@.len() <= usize::MAX
    }

    /// A cursor at the start of `input`.
    pub fn new(input: &'a [char]) -> (r: ParseState<'a>)
        ensures
            r@ == input@,
    {
        // A slice's length fits in `usize`; asking for it records that bound.
        let _ = input.len();
        let r = ParseState { input, pos: 0 };
        assert(r@ =~= input@);
        r
    }

    /// Number of characters left.
    pub fn len(&self) -> (r: usize)
        ensures
            r == self@.len(),
    {
        proof {
            use_type_invariant(self);
            assert(self@.len() == self.input@.len() - self.pos);
        }
        self.input.len() - self.pos
    }

    pub fn is_empty(&self) -> (r: bool)
        ensures
            r == (self@.len() == 0),
    {
        self.len() == 0
    }

    /// The character `i` places ahead.
    pub fn char_at(&self, i: usize) -> (r: char)
        requires
            i < self@.len(),
        ensures
            r == self@[i as int],
    {
        proof {
            use_type_invariant(self);
            assert(self@.len() == self.input@.len() - self.pos);
        }
        self.input[self.pos + i]
    }

    /// The next character, if any.
    pub fn peek(&self) -> (r: Option<char>)
        ensures
            r == (if self@.len() == 0 { None } else { Some(self@[0]) }),
    {
        if self.is_empty() {
            None
        } else {
            Some(self.char_at(0))
        }
    }

    /// The cursor `n` characters further on.
    pub fn advance(&self, n: usize) -> (r: ParseState<'a>)
        requires
            n <= self@.len(),
        ensures
            r@ == self@.subrange(n as int, self@.len() as int),
    {
        proof {
            use_type_invariant(self);
            assert(self@.len() == self.input@.len() - self.pos);
        }
        let r = ParseState { input: self.input, pos: self.pos + n };
        assert(r@ =~= self@.subrange(n as int, self@.len() as int));
        r
    }

    /// The cursor at the end of the input.
    pub fn finish(&self) -> (r: ParseState<'a>)
        ensures
            r@ == Seq::<char>::empty(),
    {
        let r = ParseState { input: self.input, pos: self.input.len() };
        assert(r@ =~= Seq::<char>::empty());
        r
    }

    /// The first `n` characters left.
    pub fn until(&self, n: usize) -> (r: &'a [char])
        requires
            n <= self@.len(),
        ensures
            r@ == self@.subrange(0, n as int),
    {
        proof {
            use_type_invariant(self);
            assert(self@.len() == self.input@.len() - self.pos);
        }
        let r = vstd::slice::slice_subrange(self.input, self.pos, self.pos + n);
        assert(r@ =~= self@.subrange(0, n as int));
        r
    }

    /// The characters left, as an owned buffer.
    pub fn rest(&self) -> (r: Vec<char>)
        ensures
            r@ == self@,
    {
        proof {
            use_type_invariant(self);
            assert(self@.len() == self.input@.len() - self.pos);
        }
        let mut r: Vec<char> = Vec::new();
        let mut i: usize = 0;
        let n = self.len();
        while i < n
            invariant
                n == self@.len(),
                i <= n,
                r@ == self@.subrange(0, i as int),
            decreases n - i,
        {
            r.push(self.char_at(i));
            i += 1;
            assert(r@ =~= self@.subrange(0, i as int));
        }
        assert(r@ =~= self@);
        r
    }

    /// Whether what is left begins with `pat`.
    pub fn starts_with(&self, pat: &[char]) -> (r: bool)
        ensures
            r == (pat@.len() <= self@.len() && self@.subrange(0, pat@.len() as int) == pat@),
    {
        let n = pat.len();
        if n > self.len() {
            return false;
        }
        let mut i: usize = 0;
        while i < n
            invariant
                n == pat@.len(),
                n <= self@.len(),
                i <= n,
                forall|j: int| 0 <= j < i ==> self@[j] == pat@[j],
            decreases n - i,
        {
            if self.char_at(i) != pat[i] {
                assert(self@.subrange(0, n as int)[i as int] != pat@[i as int]);
                return false;
            }
            i += 1;
        }
        assert(self@.subrange(0, n as int) =~= pat@);
        true
    }

    /// Whether what is left begins with the characters of `pat`.
    pub fn starts_with_str(&self, pat: &str) -> (r: bool)
        ensures
            r == (pat@.len() <= self@.len() && self@.subrange(0, pat@.len() as int) == pat@),
    {
        let n = pat.unicode_len();
        if n > self.len() {
            return false;
        }
        let mut i: usize = 0;
        while i < n
            invariant
                n == pat@.len(),
                n <= self@.len(),
                i <= n,
                forall|j: int| 0 <= j < i ==> self@[j] == pat@[j],
            decreases n - i,
        {
            if self.char_at(i) != pat.get_char(i) {
                assert(self@.subrange(0, n as int)[i as int] != pat@[i as int]);
                return false;
            }
            i += 1;
        }
        assert(self@.subrange(0, n as int) =~= pat@);
        true
    }
}

} // verus!
