//! Status words and the root wake handle shared by the scheduler's pages.

use futures::task::AtomicWaker;
use std::sync::Arc;
use std::task::Waker;
use vstd::prelude::*;

verus! {

/// A 64-bit status word with the read-modify-write operations of an atomic
/// integer. One poll loop owns each word, so every operation takes effect at
/// once and in program order.
pub struct WakerU64 {
    value: u64,
}

impl WakerU64 {
    /// The value the word holds.
    pub closed spec fn view(&self) -> u64 {
        self.value
    }

    pub fn new(val: u64) -> (word: Self)
        ensures
            word@ == val,
    {
        WakerU64 { value: val }
    }

    /// Sets every bit of `val` in the word.
    pub fn fetch_or(&mut self, val: u64)
        ensures
            final(self)@ == old(self)@ | val,
    {
        self.value = self.value | val;
    }

    /// Keeps only the bits of the word that are also set in `val`.
    pub fn fetch_and(&mut self, val: u64)
        ensures
            final(self)@ == old(self)@ & val,
    {
        self.value = self.value & val;
    }

    /// Adds `val` to the word, wrapping around on overflow, and returns the
    /// previous value.
    pub fn fetch_add(&mut self, val: u64) -> (previous: u64)
        ensures
            previous == old(self)@,
            final(self)@ as int == (old(self)@ + val) % 0x1_0000_0000_0000_0000,
    {
        let previous = self.value;
        self.value = previous.wrapping_add(val);
        previous
    }

    /// Subtracts `val` from the word, wrapping around on underflow, and
    /// returns the previous value.
    pub fn fetch_sub(&mut self, val: u64) -> (previous: u64)
        ensures
            previous == old(self)@,
            final(self)@ as int == (old(self)@ - val) % 0x1_0000_0000_0000_0000,
    {
        let previous = self.value;
        self.value = previous.wrapping_sub(val);
        previous
    }

    pub fn load(&self) -> (value: u64)
        ensures
            value == self@,
    {
        self.value
    }

    /// Stores `val` and returns the previous value.
    pub fn swap(&mut self, val: u64) -> (previous: u64)
        ensures
            previous == old(self)@,
            final(self)@ == val,
    {
        let previous = self.value;
        self.value = val;
        previous
    }
}

#[verifier::external_type_specification]
#[verifier::external_body]
pub struct ExAtomicWaker(AtomicWaker);

#[verifier::external_type_specification]
#[verifier::external_body]
pub struct ExWaker(Waker);

/// Calls `futures::task::AtomicWaker::new`, which makes a cell that holds no
/// waker yet.
#[verifier::external_body]
fn atomic_waker_new() -> AtomicWaker {
    AtomicWaker::new()
}

/// Calls `futures::task::AtomicWaker::register`, which stores a clone of
/// `waker` as the one to notify; nothing is returned.
#[verifier::external_body]
fn atomic_waker_register(cell: &AtomicWaker, waker: &Waker) {
    cell.register(waker)
}

/// Calls `futures::task::AtomicWaker::wake`, which notifies the last waker
/// that was registered, if there is one; nothing is returned.
#[verifier::external_body]
fn atomic_waker_wake(cell: &AtomicWaker) {
    cell.wake()
}

/// The root wake handle: one cell, shared by every page of a scheduler, that
/// tells the event loop driving the scheduler that there is work to poll.
pub struct SharedWaker {
    cell: Arc<AtomicWaker>,
}

impl SharedWaker {
    pub fn new() -> Self {
        SharedWaker { cell: Arc::new(atomic_waker_new()) }
    }

    /// Makes `waker` the one that `wake` notifies.
    pub fn register(&self, waker: &Waker) {
        atomic_waker_register(&self.cell, waker);
    }

    /// Notifies the registered waker, if any.
    pub fn wake(&self) {
        atomic_waker_wake(&self.cell);
    }
}

impl Clone for SharedWaker {
    fn clone(&self) -> Self {
        SharedWaker { cell: self.cell.clone() }
    }
}

} // verus!
