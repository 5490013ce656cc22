//! The window of a packet buffer that the network card owns: where the data
//! begins in the buffer, and how long it is. Headers are added in front of
//! the data by moving the beginning back, and taken off by moving it on.

use vstd::prelude::*;

verus! {

/// The place of the data in a buffer of the card.
#[derive(Clone, Copy, Debug, PartialEq, Eq, Structural)]
pub struct Ixybuf {
    /// How many bytes of the buffer come before the data.
    pub data_offset: usize,
    /// How many bytes the data has.
    pub data_length: usize,
}

impl Ixybuf {
    /// The number of bytes of data.
    pub fn len(&self) -> (len: usize)
        ensures
            len == self.data_length,
    {
        self.data_length
    }

    /// Removes `num_bytes` from the beginning of the data.
    pub fn adjust(&mut self, num_bytes: usize)
        requires
            num_bytes <= old(self).data_length,
            old(self).data_offset + num_bytes <= usize::MAX,
        ensures
            final(self).data_offset == old(self).data_offset + num_bytes,
            final(self).data_length == old(self).data_length - num_bytes,
    {
        self.data_offset += num_bytes;
        self.data_length -= num_bytes;
    }

    /// Removes `num_bytes` from the end of the data.
    pub fn trim(&mut self, num_bytes: usize)
        requires
            num_bytes <= old(self).data_length,
        ensures
            final(self).data_offset == old(self).data_offset,
            final(self).data_length == old(self).data_length - num_bytes,
    {
        self.data_length -= num_bytes;
    }

    /// Moves the beginning of the data back by `num_bytes`, to make room for
    /// a header in front of it. The length stays: it grows when the header
    /// is counted in with `update_length`.
    pub fn forward_offset(&mut self, num_bytes: usize)
        requires
            num_bytes <= old(self).data_offset,
        ensures
            final(self).data_offset == old(self).data_offset - num_bytes,
            final(self).data_length == old(self).data_length,
    {
        self.data_offset -= num_bytes;
    }

    /// Counts `num_bytes` more as data.
    pub fn update_length(&mut self, num_bytes: usize)
        requires
            old(self).data_length + num_bytes <= usize::MAX,
        ensures
            final(self).data_offset == old(self).data_offset,
            final(self).data_length == old(self).data_length + num_bytes,
    {
        self.data_length += num_bytes;
    }
}

} // verus!
