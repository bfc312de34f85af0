//! Byte-indexed cursor over the input text, with one-byte lookahead and
//! whitespace skipping.
//!
//! The scene language is ASCII: identifiers, digits and punctuation are all
//! single bytes, so the cursor walks a byte slice. String literals may carry
//! arbitrary non-ASCII bytes; they are copied out untouched.

use vstd::prelude::*;

verus! {

/// Failure to read a character: the cursor stands at the end of the input.
#[derive(Debug, PartialEq, Eq, Structural, Clone, Copy)]
pub struct NoCharError;

/// A cursor over the input: the backing slice and a byte index.
pub struct Cursor<'a> {
    input: &'a [u8],
    index: usize,
}

/// Space, tab, carriage return or newline: the whitespace that is
/// insignificant between tokens.
pub open spec fn is_ws(c: u8) -> bool {
    c == 32 || c == 9 || c == 10 || c == 13
}

impl<'a> Cursor<'a> {
    /// The input the cursor was made over.
    pub closed spec fn src(&self) -> Seq<u8> {
        self.input@
    }

    /// The byte index of the first unconsumed byte.
    pub closed spec fn at(&self) -> int {
        self.index as int
    }

    /// The cursor index never passes the end of the input.
    pub open spec fn wf(&self) -> bool {
        0 <= self.at() <= self.src().len()
    }

    pub fn new(input: &'a [u8]) -> (c: Self)
        ensures
            c.wf(),
            c.src() == input@,
            c.at() == 0,
    {
        Cursor { input, index: 0 }
    }

    /// The current byte index.
    pub fn index(&self) -> (i: usize)
        ensures
            i as int == self.at(),
    {
        self.index
    }

    /// A copy of the input bytes from `from` (inclusive) to `to` (exclusive).
    pub fn slice_range(&self, from: usize, to: usize) -> (r: Vec<u8>)
        requires
            from <= to,
            to as int <= self.src().len(),
        ensures
            r@ == self.src().subrange(from as int, to as int),
    {
        vstd::slice::slice_to_vec(vstd::slice::slice_subrange(self.input, from, to))
    }

    /// Look at the next byte without consuming it.
    pub fn peek(&mut self) -> (r: Result<u8, NoCharError>)
        requires
            old(self).wf(),
        ensures
            *final(self) == *old(self),
            r == spec_peek(old(self).src(), old(self).at()),
    {
        if self.index < self.input.len() {
            Ok(self.input[self.index])
        } else {
            Err(NoCharError)
        }
    }

    /// Consume and return the next byte.
    pub fn next(&mut self) -> (r: Result<u8, NoCharError>)
        requires
            old(self).wf(),
        ensures
            final(self).wf(),
            final(self).src() == old(self).src(),
            r == spec_peek(old(self).src(), old(self).at()),
            r is Ok ==> final(self).at() == old(self).at() + 1,
            r is Err ==> final(self).at() == old(self).at(),
    {
        if self.index < self.input.len() {
            let c = self.input[self.index];
            self.index = self.index + 1;
            Ok(c)
        } else {
            Err(NoCharError)
        }
    }

    /// Consume bytes while the next one is whitespace.
    pub fn skip_whitespace(&mut self)
        requires
            old(self).wf(),
        ensures
            final(self).wf(),
            final(self).src() == old(self).src(),
            final(self).at() == spec_skip_ws(old(self).src(), old(self).at()),
    {
        loop
            invariant
                self.wf(),
                self.src() == old(self).src(),
                old(self).at() <= self.at(),
                spec_skip_ws(self.src(), old(self).at()) == spec_skip_ws(self.src(), self.at()),
            ensures
                self.at() == spec_skip_ws(self.src(), old(self).at()),
            decreases self.src().len() - self.at(),
        {
            if self.index < self.input.len() {
                let c = self.input[self.index];
                if c == 32 || c == 9 || c == 10 || c == 13 {
                    self.index = self.index + 1;
                } else {
                    break;
                }
            } else {
                break;
            }
        }
    }
}

/// The byte at index `i`, or the no-character failure at the end.
pub open spec fn spec_peek(s: Seq<u8>, i: int) -> Result<u8, NoCharError> {
    if 0 <= i < s.len() {
        Ok(s[i])
    } else {
        Err(NoCharError)
    }
}

/// The first index at or after `i` that holds a non-whitespace byte, or the
/// end of the input.
pub open spec fn spec_skip_ws(s: Seq<u8>, i: int) -> int
    decreases s.len() - i,
{
    if 0 <= i < s.len() && is_ws(s[i]) {
        spec_skip_ws(s, i + 1)
    } else {
        i
    }
}

} // verus!
