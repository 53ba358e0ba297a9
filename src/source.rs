//! A seekable, readable byte source over the bytes of a file.
use vstd::prelude::*;
use vstd::slice::{slice_subrange, slice_to_vec};

use crate::error::ReadError;

verus! {

/// The bytes of a file and a cursor into them.
///
/// Seeks and reads past the end fail with [`ReadError::Io`] and leave the
/// cursor where it was. One source serves one reader at a time: callers that
/// read concurrently each need a source of their own.
pub struct ByteSource {
    data: Vec<u8>,
    pos: usize,
}

impl ByteSource {
    /// The bytes of the file.
    pub closed spec fn bytes(&self) -> Seq<u8> {
        self.data@
    }

    /// The cursor: the offset of the next byte to be read.
    pub closed spec fn pos(&self) -> nat {
        self.pos as nat
    }

    /// The cursor lies within the file (it may stand at its end).
    pub closed spec fn wf(&self) -> bool {
        self.pos <= self.data@.len()
    }

    /// A source over `data`, with the cursor at its start.
    pub fn new(data: Vec<u8>) -> (r: ByteSource)
        ensures
            r.wf(),
            r.bytes() == data@,
            r.pos() == 0,
    {
        ByteSource { data, pos: 0 }
    }

    /// The length of the file in bytes.
    pub fn len(&self) -> (r: usize)
        ensures
            r == self.bytes().len(),
    {
        self.data.len()
    }

    /// The cursor.
    pub fn position(&self) -> (r: usize)
        ensures
            r == self.pos(),
    {
        self.pos
    }

    /// Moves the cursor to `offset` from the start of the file.
    pub fn seek_start(&mut self, offset: u64) -> (r: Result<(), ReadError>)
        requires
            old(self).wf(),
        ensures
            final(self).wf(),
            final(self).bytes() == old(self).bytes(),
            offset <= old(self).bytes().len() ==> r is Ok && final(self).pos() == offset,
            offset > old(self).bytes().len() ==> r == Err::<(), ReadError>(ReadError::Io)
                && final(self).pos() == old(self).pos(),
    {
        if offset <= self.data.len() as u64 {
            self.pos = offset as usize;
            Ok(())
        } else {
            Err(ReadError::Io)
        }
    }

    /// Moves the cursor to `back` bytes before the end of the file.
    pub fn seek_from_end(&mut self, back: u64) -> (r: Result<(), ReadError>)
        requires
            old(self).wf(),
        ensures
            final(self).wf(),
            final(self).bytes() == old(self).bytes(),
            back <= old(self).bytes().len() ==> r is Ok && final(self).pos() == old(
                self,
            ).bytes().len() - back,
            back > old(self).bytes().len() ==> r == Err::<(), ReadError>(ReadError::Io)
                && final(self).pos() == old(self).pos(),
    {
        if back <= self.data.len() as u64 {
            self.pos = self.data.len() - back as usize;
            Ok(())
        } else {
            Err(ReadError::Io)
        }
    }

    /// The bytes from the cursor to the end of the file.
    pub fn remaining(&self) -> (r: &[u8])
        requires
            self.wf(),
        ensures
            r@ == self.bytes().subrange(self.pos() as int, self.bytes().len() as int),
    {
        slice_subrange(self.data.as_slice(), self.pos, self.data.len())
    }

    /// Moves the cursor `n` bytes forward.
    pub fn advance(&mut self, n: usize)
        requires
            old(self).wf(),
            old(self).pos() + n <= old(self).bytes().len(),
        ensures
            final(self).wf(),
            final(self).bytes() == old(self).bytes(),
            final(self).pos() == old(self).pos() + n,
    {
        let _len = self.data.len();
        self.pos = self.pos + n;
    }

    /// Reads up to `n` bytes from the cursor: fewer only where the file
    /// ends first. The cursor moves past what was read.
    pub fn read_up_to(&mut self, n: usize) -> (r: Vec<u8>)
        requires
            old(self).wf(),
        ensures
            final(self).wf(),
            final(self).bytes() == old(self).bytes(),
            r@.len() == vstd::math::min(n as int, old(self).bytes().len() - old(self).pos()),
            r@ == old(self).bytes().subrange(old(self).pos() as int, old(self).pos() + r@.len() as int),
            final(self).pos() == old(self).pos() + r@.len(),
    {
        let avail = self.data.len() - self.pos;
        let take = if n <= avail { n } else { avail };
        let out = slice_to_vec(slice_subrange(self.data.as_slice(), self.pos, self.pos + take));
        self.pos = self.pos + take;
        out
    }

    /// Reads exactly `n` bytes from the cursor, or fails with
    /// [`ReadError::Io`] where the file ends first, leaving the cursor.
    pub fn read_exact(&mut self, n: usize) -> (r: Result<Vec<u8>, ReadError>)
        requires
            old(self).wf(),
        ensures
            final(self).wf(),
            final(self).bytes() == old(self).bytes(),
            old(self).pos() + n <= old(self).bytes().len() ==> r is Ok && r->Ok_0@
                == old(self).bytes().subrange(old(self).pos() as int, old(self).pos() + n)
                && final(self).pos() == old(self).pos() + n,
            old(self).pos() + n > old(self).bytes().len() ==> r == Err::<Vec<u8>, ReadError>(
                ReadError::Io,
            ) && final(self).pos() == old(self).pos(),
    {
        if n <= self.data.len() - self.pos {
            let out = slice_to_vec(slice_subrange(self.data.as_slice(), self.pos, self.pos + n));
            self.pos = self.pos + n;
            Ok(out)
        } else {
            Err(ReadError::Io)
        }
    }
}

} // verus!
