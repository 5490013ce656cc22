//! Byte buffers that share their storage.

use crate::fail::Fail;
use crate::runtime::RuntimeBuf;
use std::sync::Arc;
use vstd::prelude::*;
use vstd::slice::slice_subrange;
use vstd::slice::slice_to_vec;

verus! {

/// Calls `Arc::clone`, which makes another pointer to the same allocation:
/// what the result points to is what `storage` points to.
#[verifier::external_body]
fn share(storage: &Arc<Vec<u8>>) -> (shared: Arc<Vec<u8>>)
    ensures
        shared == *storage,
{
    Arc::clone(storage)
}

/// An immutable buffer: a window on shared storage. Narrowing the window
/// copies nothing.
pub struct Bytes {
    buf: Option<Arc<Vec<u8>>>,
    offset: usize,
    len: usize,
}

impl Bytes {
    #[verifier::type_invariant]
    spec fn window_fits(&self) -> bool {
        match self.buf {
            None => self.offset == 0 && self.len == 0,
            Some(storage) => self.offset + self.len <= storage@.len() <= usize::MAX,
        }
    }

    /// The bytes inside the window.
    pub closed spec fn view(&self) -> Seq<u8> {
        match self.buf {
            None => Seq::<u8>::empty(),
            Some(storage) => storage@.subrange(
                self.offset as int,
                self.offset as int + self.len as int,
            ),
        }
    }

    /// The bytes inside the window.
    fn window(&self) -> (bytes: &[u8])
        ensures
            bytes@ == self@,
    {
        proof {
            use_type_invariant(self);
        }
        match &self.buf {
            None => {
                let nothing: &[u8] = &[];
                assert(nothing@ =~= self@);
                nothing
            },
            Some(storage) => slice_subrange(storage.as_slice(), self.offset, self.offset + self.len),
        }
    }

    /// Whether the two buffers hold the same bytes, wherever their windows
    /// stand in their storage.
    pub fn same_bytes(&self, rhs: &Bytes) -> (same: bool)
        ensures
            same == (self@ == rhs@),
    {
        let left = self.window();
        let right = rhs.window();
        if left.len() != right.len() {
            return false;
        }
        let mut i: usize = 0;
        while i < left.len()
            invariant
                i <= left.len(),
                left@ == self@,
                right@ == rhs@,
                left.len() == right.len(),
                forall|j: int| 0 <= j < i ==> left@[j] == right@[j],
            decreases left.len() - i,
        {
            if left[i] != right[i] {
                return false;
            }
            i += 1;
        }
        assert(self@ =~= rhs@);
        true
    }
}

impl Clone for Bytes {
    fn clone(&self) -> (copy: Self)
        ensures
            copy@ == self@,
    {
        proof {
            use_type_invariant(self);
        }
        match &self.buf {
            None => Bytes { buf: None, offset: 0, len: 0 },
            Some(storage) => Bytes { buf: Some(share(storage)), offset: self.offset, len: self.len },
        }
    }
}

impl Default for Bytes {
    fn default() -> (buf: Self)
        ensures
            buf@ == Seq::<u8>::empty(),
    {
        Bytes { buf: None, offset: 0, len: 0 }
    }
}

impl RuntimeBuf for Bytes {
    open spec fn bytes(&self) -> Seq<u8> {
        self@
    }

    fn len(&self) -> (len: usize) {
        proof {
            use_type_invariant(self);
        }
        self.len
    }

    fn as_slice(&self) -> (bytes: &[u8]) {
        self.window()
    }

    fn empty() -> (buf: Self) {
        Bytes { buf: None, offset: 0, len: 0 }
    }

    fn from_slice(src: &[u8]) -> (buf: Self) {
        let storage = slice_to_vec(src);
        let len = src.len();
        assert(storage@.subrange(0, len as int) =~= src@);
        Bytes { buf: Some(Arc::new(storage)), offset: 0, len }
    }

    fn adjust(&mut self, n: usize) {
        proof {
            use_type_invariant(&*self);
        }
        self.len = self.len - n;
        self.offset = self.offset + n;
        assert(self@ =~= old(self)@.skip(n as int));
    }

    fn trim(&mut self, num_bytes: usize) {
        proof {
            use_type_invariant(&*self);
        }
        self.len = self.len - num_bytes;
        assert(self@ =~= old(self)@.take(old(self)@.len() - num_bytes as int));
    }
}

/// A buffer that is still being filled and is not shared yet.
pub struct BytesMut {
    buf: Vec<u8>,
}

impl BytesMut {
    /// The bytes of the buffer.
    pub closed spec fn view(&self) -> Seq<u8> {
        self.buf@
    }

    /// A buffer of `capacity` zero bytes. A buffer without capacity is
    /// refused as invalid.
    pub fn zeroed(capacity: usize) -> (buf: Result<Self, Fail>)
        ensures
            capacity == 0 <==> buf is Err,
            buf matches Err(fail) ==> fail matches Fail::Invalid { details } && details@
                == "zero-capacity buffer"@,
            buf matches Ok(zeroes) ==> zeroes@ == Seq::new(capacity as nat, |i: int| 0u8),
    {
        if capacity == 0 {
            return Err(Fail::Invalid { details: "zero-capacity buffer" });
        }
        let mut storage: Vec<u8> = Vec::new();
        while storage.len() < capacity
            invariant
                storage.len() <= capacity,
                forall|i: int| 0 <= i < storage.len() ==> storage[i] == 0u8,
            decreases capacity - storage.len(),
        {
            storage.push(0u8);
        }
        assert(storage@ =~= Seq::new(capacity as nat, |i: int| 0u8));
        Ok(BytesMut { buf: storage })
    }

    /// A buffer that holds a copy of `bytes`.
    pub fn from_slice(bytes: &[u8]) -> (buf: Self)
        ensures
            buf@ == bytes@,
    {
        BytesMut { buf: slice_to_vec(bytes) }
    }

    /// The number of bytes in the buffer.
    pub fn len(&self) -> (len: usize)
        ensures
            len == self@.len(),
    {
        self.buf.len()
    }

    /// Overwrites the byte at `index`.
    pub fn set(&mut self, index: usize, byte: u8)
        requires
            index < old(self)@.len(),
        ensures
            final(self)@ == old(self)@.update(index as int, byte),
    {
        self.buf[index] = byte;
    }

    /// Converts the buffer into an immutable one with the same bytes.
    pub fn freeze(self) -> (frozen: Bytes)
        ensures
            frozen@ == self@,
    {
        let len = self.buf.len();
        assert(self.buf@.subrange(0, len as int) =~= self.buf@);
        Bytes { offset: 0, len, buf: Some(Arc::new(self.buf)) }
    }
}

impl std::ops::Deref for Bytes {
    type Target = [u8];

    fn deref(&self) -> (bytes: &[u8])
        ensures
            bytes@ == self@,
    {
        self.window()
    }
}

impl std::ops::Deref for BytesMut {
    type Target = [u8];

    fn deref(&self) -> (bytes: &[u8])
        ensures
            bytes@ == self@,
    {
        self.buf.as_slice()
    }
}

} // verus!
