//! A value that tasks can wait on. A task that watches the value leaves its
//! wake handle with it; the next write, whatever it writes, wakes every task
//! that was watching, each of them once.

use crate::collections::waker_page::WakerRef;
use vstd::prelude::*;

verus! {

/// What a watched value is at one moment: the value, and the wake handles of
/// the tasks that wait for its next write, in the order in which they began
/// to watch.
pub struct Watched<T> {
    pub value: T,
    pub waiters: Seq<WakerRef>,
}

impl<T> Watched<T> {
    /// A value that nobody watches.
    pub open spec fn quiet(value: T) -> Watched<T> {
        Watched { value, waiters: Seq::empty() }
    }

    /// The same value once the task of `waker` watches it. A task that
    /// watches already is not added a second time.
    pub open spec fn watched_by(self, waker: WakerRef) -> Watched<T> {
        if self.waiters.contains(waker) {
            self
        } else {
            Watched { value: self.value, waiters: self.waiters.push(waker) }
        }
    }
}

/// A value together with the wake handles of the tasks that wait for its next
/// write.
pub struct WatchedValue<T> {
    value: T,
    waiters: Vec<WakerRef>,
}

impl<T: Copy> WatchedValue<T> {
    /// The value the cell holds.
    pub closed spec fn view(&self) -> T {
        self.value
    }

    /// The wake handles of the tasks that watch the cell.
    pub closed spec fn waiters(&self) -> Seq<WakerRef> {
        self.waiters@
    }

    /// The value and those who watch it.
    pub open spec fn cell(&self) -> Watched<T> {
        Watched { value: self@, waiters: self.waiters() }
    }

    /// A cell that holds `value` and that no task watches.
    pub fn new(value: T) -> (cell: Self)
        ensures
            cell.cell() == Watched::quiet(value),
    {
        WatchedValue { value, waiters: Vec::new() }
    }

    /// The current value.
    pub fn get(&self) -> (value: T)
        ensures
            value == self@,
    {
        self.value
    }

    /// Reads the current value and begins to watch: the task of `waker` is
    /// woken by the next write. A task that watches already is not added a
    /// second time.
    pub fn watch(&mut self, waker: WakerRef) -> (value: T)
        ensures
            value == old(self)@,
            final(self).cell() == old(self).cell().watched_by(waker),
    {
        let mut i: usize = 0;
        while i < self.waiters.len()
            invariant
                *self == *old(self),
                i <= self.waiters.len(),
                forall|j: int| 0 <= j < i ==> self.waiters[j] != waker,
            decreases self.waiters.len() - i,
        {
            if self.waiters[i] == waker {
                return self.value;
            }
            i += 1;
        }
        self.waiters.push(waker);
        self.value
    }

    /// Writes `new_value` and returns the wake handles of the tasks that were
    /// watching, which are to be woken. They watch no longer. A write of the
    /// value that the cell already holds wakes them all the same.
    pub fn set(&mut self, new_value: T) -> (woken: Vec<WakerRef>)
        ensures
            final(self).cell() == Watched::quiet(new_value),
            woken@ == old(self).waiters(),
    {
        self.value = new_value;
        let mut woken: Vec<WakerRef> = Vec::new();
        std::mem::swap(&mut self.waiters, &mut woken);
        woken
    }

    /// Writes `new_value` and wakes nobody: the tasks that watch keep
    /// waiting for the next write.
    pub fn set_without_notify(&mut self, new_value: T)
        ensures
            final(self)@ == new_value,
            final(self).waiters() == old(self).waiters(),
    {
        self.value = new_value;
    }
}

} // verus!
