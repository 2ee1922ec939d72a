//! A cursor over an immutable byte buffer.

use vstd::prelude::*;
use vstd::slice::slice_subrange;
use crate::error::ExtractError;

verus! {

/// A position inside a borrowed buffer. The position never passes the end.
pub struct ByteReader<'a> {
    data: &'a [u8],
    pos: usize,
}

impl<'a> ByteReader<'a> {
    #[verifier::type_invariant]
    spec fn inv(self) -> bool {
        self.pos <= self.data@.len()
    }

    /// The whole buffer, independent of the position.
    pub closed spec fn input(self) -> Seq<u8> {
        self.data@
    }

    /// The current offset from the start of the buffer.
    pub closed spec fn offset(self) -> int {
        self.pos as int
    }

    /// The bytes from the current position to the end.
    pub open spec fn rest(self) -> Seq<u8> {
        self.input().subrange(self.offset(), self.input().len() as int)
    }

    /// A reader at the start of `data`.
    pub fn new(data: &'a [u8]) -> (r: Self)
        ensures
            r.input() == data@,
            r.offset() == 0,
    {
        ByteReader { data, pos: 0 }
    }

    /// The current offset from the start of the buffer.
    pub fn position(&self) -> (p: usize)
        ensures
            p == self.offset(),
            p <= self.input().len(),
    {
        proof {
            use_type_invariant(self);
        }
        self.pos
    }

    /// The buffer that the reader walks over.
    pub fn bytes(&self) -> (d: &'a [u8])
        ensures
            d@ == self.input(),
    {
        self.data
    }

    /// How many bytes lie between the position and the end.
    pub fn remaining(&self) -> (n: usize)
        ensures
            n == self.input().len() - self.offset(),
    {
        proof {
            use_type_invariant(self);
        }
        self.data.len() - self.pos
    }

    /// The next `n` bytes, without moving.
    pub fn peek(&self, n: usize) -> (r: Result<&'a [u8], ExtractError>)
        ensures
            r matches Err(e) ==> e.is_read_failure(),
            self.offset() + n <= self.input().len() ==> r is Ok && r->Ok_0@
                == self.input().subrange(self.offset(), self.offset() + n),
            self.offset() + n > self.input().len() ==> r == Err::<&[u8], _>(
                ExtractError::TruncatedInput,
            ),
    {
        proof {
            use_type_invariant(self);
        }
        if n <= self.data.len() - self.pos {
            Ok(slice_subrange(self.data, self.pos, self.pos + n))
        } else {
            Err(ExtractError::TruncatedInput)
        }
    }

    /// The byte under the cursor, if there is one.
    pub fn peek_byte(&self) -> (r: Option<u8>)
        ensures
            r == if self.offset() < self.input().len() {
                Some(self.input()[self.offset()])
            } else {
                None
            },
    {
        proof {
            use_type_invariant(self);
        }
        if self.pos < self.data.len() {
            Some(self.data[self.pos])
        } else {
            None
        }
    }

    /// Moves forward by `n` bytes, or leaves the reader alone when fewer remain.
    pub fn advance(&mut self, n: usize) -> (r: Result<(), ExtractError>)
        ensures
            r matches Err(e) ==> e.is_read_failure(),
            final(self).input() == old(self).input(),
            old(self).offset() + n <= old(self).input().len() ==> r is Ok && final(self).offset()
                == old(self).offset() + n,
            old(self).offset() + n > old(self).input().len() ==> r == Err::<(), _>(
                ExtractError::TruncatedInput,
            ) && final(self).offset() == old(self).offset(),
    {
        proof {
            use_type_invariant(&*self);
        }
        if n <= self.data.len() - self.pos {
            self.pos = self.pos + n;
            Ok(())
        } else {
            Err(ExtractError::TruncatedInput)
        }
    }

    /// Moves to an absolute offset, or leaves the reader alone when the offset
    /// lies past the end.
    pub fn seek(&mut self, offset: usize) -> (r: Result<(), ExtractError>)
        ensures
            r matches Err(e) ==> e.is_read_failure(),
            final(self).input() == old(self).input(),
            offset <= old(self).input().len() ==> r is Ok && final(self).offset() == offset,
            offset > old(self).input().len() ==> r == Err::<(), _>(ExtractError::TruncatedInput)
                && final(self).offset() == old(self).offset(),
    {
        if offset <= self.data.len() {
            self.pos = offset;
            Ok(())
        } else {
            Err(ExtractError::TruncatedInput)
        }
    }
}

} // verus!
