//! A small cursor over a borrowed byte slice, consuming a prefix at a time;
//! the metadata decoder reads through it.

use vstd::prelude::*;
use vstd::slice::slice_subrange;

verus! {

/// Reads values from a borrowed byte buffer front to back.
pub struct SliceReader<'a> {
    slice: &'a [u8],
}

impl<'a> SliceReader<'a> {
    /// The bytes not yet consumed.
    pub closed spec fn remaining(&self) -> Seq<u8> {
        self.slice@
    }

    pub fn new(slice: &'a [u8]) -> (r: SliceReader<'a>)
        ensures
            r.remaining() == slice@,
    {
        SliceReader { slice }
    }

    /// How many bytes are left to read.
    pub fn len(&self) -> (r: usize)
        ensures
            r == self.remaining().len(),
    {
        self.slice.len()
    }

    /// Consumes and returns the next `len` bytes, or `None` (consuming
    /// nothing) when fewer than `len` bytes remain.
    pub fn read_exact(&mut self, len: usize) -> (r: Option<&[u8]>)
        ensures
            (len as int) <= old(self).remaining().len() ==> r is Some && r.unwrap()@ == old(
                self,
            ).remaining().take(len as int) && final(self).remaining() == old(
                self,
            ).remaining().skip(len as int),
            (len as int) > old(self).remaining().len() ==> r is None && final(self).remaining()
                == old(self).remaining(),
    {
        if self.slice.len() < len {
            return None;
        }

        let whole: &'a [u8] = self.slice;
        let head: &'a [u8] = slice_subrange(whole, 0, len);
        self.slice = slice_subrange(whole, len, whole.len());
        Some(head)
    }
}

} // verus!
