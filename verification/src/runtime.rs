//! What the network stack asks of the buffers that carry its data.

use vstd::prelude::*;

verus! {

/// A buffer of bytes that can give up bytes at either end.
pub trait RuntimeBuf: Clone + Sized {
    /// The bytes the buffer holds.
    spec fn bytes(&self) -> Seq<u8>;

    /// The number of bytes in the buffer.
    fn len(&self) -> (len: usize)
        ensures
            len == self.bytes().len(),
    ;

    /// The bytes of the buffer.
    fn as_slice(&self) -> (bytes: &[u8])
        ensures
            bytes@ == self.bytes(),
    ;

    /// A buffer that holds no bytes.
    fn empty() -> (buf: Self)
        ensures
            buf.bytes() == Seq::<u8>::empty(),
    ;

    /// A buffer that holds a copy of `bytes`.
    fn from_slice(bytes: &[u8]) -> (buf: Self)
        ensures
            buf.bytes() == bytes@,
    ;

    /// Removes `num_bytes` from the beginning of the buffer.
    fn adjust(&mut self, num_bytes: usize)
        requires
            num_bytes <= old(self).bytes().len(),
        ensures
            final(self).bytes() == old(self).bytes().skip(num_bytes as int),
    ;

    /// Removes `num_bytes` from the end of the buffer.
    fn trim(&mut self, num_bytes: usize)
        requires
            num_bytes <= old(self).bytes().len(),
        ensures
            final(self).bytes() == old(self).bytes().take(
                old(self).bytes().len() - num_bytes as int,
            ),
    ;
}

} // verus!
