//! A single-threaded task scheduler.
//!
//! Tasks live in an arena of slots. A task's key is the number of its slot,
//! and never changes while the task is stored. The status of the slots is
//! kept in wake-bitmap pages of 64 slots each: key `k` belongs to slot
//! `k % 64` of page `k / 64`, and the wake handle of the task is the address
//! `k`. One call of [`Scheduler::poll`] visits the pages in ascending order
//! and polls, once, each task that had been woken when its page was reached.

use crate::collections::bits::{bit_is_set, set_bits};
use crate::collections::waker_page::{WakerPage, WakerPageRef, WakerRef, WAKER_PAGE_SIZE};
use crate::sync::SharedWaker;
use vstd::prelude::*;

verus! {

/// The largest number of pages a scheduler holds: the keys of all slots fit a
/// machine address with a page to spare.
pub const MAX_PAGES: usize = 0x3ff_ffff;

/// What one poll of a task reports.
#[derive(Clone, Copy, Debug, PartialEq, Eq, Structural)]
pub enum Poll {
    /// The task has finished: its slot is marked completed.
    Ready,
    /// The task waits for a wake-up.
    Pending,
}

/// What a task is handed when it is polled: its own wake handle, to keep and
/// to give to whoever will wake it later, and a list on which it puts the
/// handles of tasks that it wakes during the poll.
pub struct Context {
    waker: WakerRef,
    woken: Vec<WakerRef>,
}

impl Context {
    /// The wake handle of the task being polled.
    pub closed spec fn own_waker(&self) -> WakerRef {
        self.waker
    }

    /// The handles woken during this poll so far, oldest first.
    pub closed spec fn woken(&self) -> Seq<WakerRef> {
        self.woken@
    }

    pub fn new(waker: WakerRef) -> (ctx: Context)
        ensures
            ctx.own_waker() == waker,
            ctx.woken() == Seq::<WakerRef>::empty(),
    {
        Context { waker, woken: Vec::new() }
    }

    /// The wake handle of the task being polled.
    pub fn waker(&self) -> (waker: WakerRef)
        ensures
            waker == self.own_waker(),
    {
        self.waker
    }

    /// Wakes the task of `waker`. The scheduler notifies it when the poll that
    /// is under way returns.
    pub fn wake(&mut self, waker: WakerRef)
        ensures
            final(self).own_waker() == old(self).own_waker(),
            final(self).woken() == old(self).woken().push(waker),
    {
        self.woken.push(waker);
    }

    /// Wakes the tasks of all of `wakers`, in their order.
    pub fn wake_all(&mut self, wakers: Vec<WakerRef>)
        ensures
            final(self).own_waker() == old(self).own_waker(),
            final(self).woken() == old(self).woken() + wakers@,
    {
        let mut wakers = wakers;
        self.woken.append(&mut wakers);
    }

    /// Takes the handles that were woken out of the context.
    pub fn take_woken(self) -> (woken: Vec<WakerRef>)
        ensures
            woken@ == self.woken(),
    {
        self.woken
    }

    /// Wakes the task being polled itself: it asks to be polled again.
    pub fn wake_by_ref(&mut self)
        ensures
            final(self).own_waker() == old(self).own_waker(),
            final(self).woken() == old(self).woken().push(old(self).own_waker()),
    {
        let waker = self.waker;
        self.woken.push(waker);
    }
}

/// A unit of work that the scheduler drives by polling it.
pub trait Task {
    /// Advances the task as far as it can go without waiting.
    fn poll(&mut self, ctx: &mut Context) -> Poll;
}

/// The kinds of task that the stack schedules: operations on TCP and UDP
/// sockets, which are short-lived, and background tasks, which live as long
/// as a connection or the stack itself. Polling an operation polls the task
/// inside it.
pub enum Operation<T, U, B> {
    Tcp(T),
    Udp(U),
    Background(B),
}

impl<T: Task, U: Task, B: Task> Task for Operation<T, U, B> {
    /// Polls the task inside the operation: the result, the task afterwards
    /// and the context afterwards are what one poll of that task gives. The
    /// operation stays of its kind.
    fn poll(&mut self, ctx: &mut Context) -> (poll: Poll)
        ensures
            match (*old(self), *final(self)) {
                (Operation::Tcp(before), Operation::Tcp(after)) => exists|
                    task: &mut T,
                    inner: &mut Context,
                |
                    mut_ref_current(task) == before && mut_ref_future(task) == after
                        && mut_ref_current(inner) == *old(ctx)
                        && mut_ref_future(inner) == *final(ctx)
                        && #[trigger] call_ensures(T::poll, (task, inner), poll),
                (Operation::Udp(before), Operation::Udp(after)) => exists|
                    task: &mut U,
                    inner: &mut Context,
                |
                    mut_ref_current(task) == before && mut_ref_future(task) == after
                        && mut_ref_current(inner) == *old(ctx)
                        && mut_ref_future(inner) == *final(ctx)
                        && #[trigger] call_ensures(U::poll, (task, inner), poll),
                (Operation::Background(before), Operation::Background(after)) => exists|
                    task: &mut B,
                    inner: &mut Context,
                |
                    mut_ref_current(task) == before && mut_ref_future(task) == after
                        && mut_ref_current(inner) == *old(ctx)
                        && mut_ref_future(inner) == *final(ctx)
                        && #[trigger] call_ensures(B::poll, (task, inner), poll),
                _ => false,
            },
    {
        match self {
            Operation::Tcp(f) => f.poll(ctx),
            Operation::Udp(f) => f.poll(ctx),
            Operation::Background(f) => f.poll(ctx),
        }
    }
}

/// Identifies one task of a scheduler. The handle is given up by taking the
/// finished task out of the scheduler or by dropping the handle there.
#[derive(Debug)]
pub struct SchedulerHandle {
    key: u64,
    waker_page: WakerPageRef,
}

impl SchedulerHandle {
    /// The key of the task.
    pub closed spec fn key(&self) -> int {
        self.key as int
    }

    /// The page that holds the status of the task.
    pub closed spec fn waker_page(&self) -> WakerPageRef {
        self.waker_page
    }

    /// Whether the task of this handle has finished in `scheduler`.
    pub fn has_completed<F: Task>(&self, scheduler: &Scheduler<F>) -> (completed: bool)
        requires
            scheduler.wf(),
        ensures
            completed == scheduler.is_completed(self.key()),
    {
        if self.key >= scheduler.slab.len() as u64 {
            return false;
        }
        let (_, subpage_ix) = scheduler.page(self.key);
        scheduler.pages[self.key as usize / WAKER_PAGE_SIZE].has_completed(subpage_ix)
    }

    /// Gives the handle up for the bare key of its task.
    pub fn into_raw(self) -> (key: u64)
        ensures
            key == self.key(),
    {
        self.key
    }
}

/// What one poll of a task has come to: the task before and after, the wake
/// handles that the task left on its context, oldest first, and what the
/// poll reported.
pub struct PollRecord<F> {
    pub before: F,
    pub after: F,
    pub woken: Seq<WakerRef>,
    pub result: Poll,
}

/// Whether one of the first `upto` of `records` has woken the task under
/// `key`.
pub open spec fn woken_by<F>(records: Seq<PollRecord<F>>, upto: int, key: int) -> bool {
    exists|j: int, n: int|
        0 <= j < upto && j < records.len() && 0 <= n < records[j].woken.len()
            && (#[trigger] records[j].woken[n]).addr() == key
}

/// A task that some records say was woken is still said to be woken when
/// records are added or grow.
pub proof fn lemma_woken_by_grows<F>(
    records_prev: Seq<PollRecord<F>>,
    records: Seq<PollRecord<F>>,
    key: int,
)
    requires
        records_prev.len() <= records.len(),
        forall|j: int|
            0 <= j < records_prev.len() ==> (#[trigger] records_prev[j]).woken.is_prefix_of(
                records[j].woken,
            ),
        woken_by(records_prev, records_prev.len() as int, key),
    ensures
        woken_by(records, records.len() as int, key),
{
    let (j, n) = choose|j: int, n: int|
        0 <= j < records_prev.len() && j < records_prev.len() && 0 <= n
            < records_prev[j].woken.len() && (#[trigger] records_prev[j].woken[n]).addr() == key;
    assert(records_prev[j].woken.is_prefix_of(records[j].woken));
    assert(records[j].woken[n] == records_prev[j].woken[n]);
    assert(records[j].woken[n].addr() == key);
}

/// Why a task could not be taken out of the scheduler.
#[derive(Clone, Copy, Debug, PartialEq, Eq, Structural)]
pub enum TakeError {
    /// No task is stored under the key.
    Vacant,
    /// The handle of the task was dropped before.
    Dropped,
    /// The task has not finished.
    Pending,
}

/// Owns the tasks and the pages of their status.
pub struct Scheduler<F> {
    /// The tasks, each in the slot of its key.
    slab: Vec<Option<F>>,
    /// The status of the slots.
    pages: Vec<WakerPage>,
    /// Where the search for a vacant slot begins: every slot below is taken.
    first_vacant: usize,
    root_waker: SharedWaker,
}

impl<F: Task> Scheduler<F> {
    /// The number of pages: the scheduler has room for 64 tasks in each.
    pub closed spec fn num_pages(&self) -> int {
        self.pages.len() as int
    }

    /// Whether a task is stored under `key`.
    pub closed spec fn is_occupied(&self, key: int) -> bool {
        0 <= key < self.slab.len() && self.slab[key] is Some
    }

    /// The task stored under `key`.
    pub closed spec fn task(&self, key: int) -> F
        recommends
            self.is_occupied(key),
    {
        self.slab[key]->0
    }

    /// Whether the task under `key` was woken and waits to be polled.
    pub closed spec fn is_notified(&self, key: int) -> bool {
        0 <= key < 64 * self.pages.len() && self.pages[key / 64].is_notified(key % 64)
    }

    /// Whether the task under `key` has finished.
    pub closed spec fn is_completed(&self, key: int) -> bool {
        0 <= key < 64 * self.pages.len() && self.pages[key / 64].is_completed(key % 64)
    }

    /// Whether the handle of the task under `key` was dropped and the slot
    /// waits to be reclaimed.
    pub closed spec fn is_dropped(&self, key: int) -> bool {
        0 <= key < 64 * self.pages.len() && self.pages[key / 64].is_dropped(key % 64)
    }

    /// The arena has one slot for each bit of each page, page `p` stands at
    /// address `64 * p`, and a slot without a task has no status bit set.
    pub closed spec fn wf(&self) -> bool {
        &&& self.slab.len() == 64 * self.pages.len()
        &&& self.pages.len() <= MAX_PAGES
        &&& self.first_vacant <= self.slab.len()
        &&& forall|k: int| 0 <= k < self.first_vacant ==> (#[trigger] self.slab[k]) is Some
        &&& forall|p: int| 0 <= p < self.pages.len() ==> (#[trigger] self.pages[p]).base() == 64 * p
        &&& forall|k: int|
            0 <= k < self.slab.len() && (#[trigger] self.slab[k]) is None ==> !self.is_notified(k)
                && !self.is_completed(k) && !self.is_dropped(k)
    }

    /// Slot `key` holds the same task with the same status in `self` and in
    /// `other`.
    pub open spec fn same_slot(&self, other: &Self, key: int) -> bool {
        &&& self.is_occupied(key) == other.is_occupied(key)
        &&& self.is_occupied(key) ==> self.task(key) == other.task(key)
        &&& self.is_notified(key) == other.is_notified(key)
        &&& self.is_completed(key) == other.is_completed(key)
        &&& self.is_dropped(key) == other.is_dropped(key)
    }

    /// Every slot but `key` holds the same task with the same status in
    /// `self` and in `before`.
    pub open spec fn same_elsewhere(&self, before: &Self, key: int) -> bool {
        &&& forall|k: int| k != key ==> #[trigger] self.is_occupied(k) == before.is_occupied(k)
        &&& forall|k: int|
            k != key && before.is_occupied(k) ==> #[trigger] self.task(k) == before.task(k)
        &&& forall|k: int| k != key ==> #[trigger] self.is_notified(k) == before.is_notified(k)
        &&& forall|k: int| k != key ==> #[trigger] self.is_completed(k) == before.is_completed(k)
        &&& forall|k: int| k != key ==> #[trigger] self.is_dropped(k) == before.is_dropped(k)
    }

    /// A scheduler without pages and without tasks.
    pub fn new() -> (scheduler: Self)
        ensures
            scheduler.wf(),
            scheduler.num_pages() == 0,
            forall|k: int| !scheduler.is_occupied(k),
    {
        Scheduler {
            slab: Vec::new(),
            pages: Vec::new(),
            first_vacant: 0,
            root_waker: SharedWaker::new(),
        }
    }

    /// The number of pages.
    pub fn page_count(&self) -> (count: usize)
        ensures
            count == self.num_pages(),
    {
        self.pages.len()
    }

    /// The page of `key` and the index of its slot in that page.
    fn page(&self, key: u64) -> (located: (WakerPageRef, usize))
        requires
            self.wf(),
            key < 64 * self.pages.len(),
        ensures
            located.0.base() == 64 * (key as int / 64),
            located.0.wf(),
            located.1 == key as int % 64,
    {
        let key = key as usize;
        let (page_ix, subpage_ix) = (key / WAKER_PAGE_SIZE, key % WAKER_PAGE_SIZE);
        (self.pages[page_ix].page_ref(), subpage_ix)
    }

    /// Appends one page, and 64 empty slots to the arena.
    fn push_page(&mut self)
        requires
            old(self).wf(),
            old(self).pages.len() < MAX_PAGES,
        ensures
            final(self).wf(),
            final(self).pages.len() == old(self).pages.len() + 1,
            final(self).first_vacant == old(self).first_vacant,
            forall|k: int| #[trigger] final(self).same_slot(old(self), k),
    {
        let base = self.pages.len() * WAKER_PAGE_SIZE;
        let page = WakerPage::with_base(self.root_waker.clone(), base);
        proof {
            crate::collections::bits::lemma_no_bit_in_zero();
        }
        self.pages.push(page);
        let mut added: usize = 0;
        while added < WAKER_PAGE_SIZE
            invariant
                added <= 64,
                self.pages.len() == old(self).pages.len() + 1,
                self.pages.len() <= MAX_PAGES,
                self.slab.len() == old(self).slab.len() + added,
                self.first_vacant == old(self).first_vacant,
                old(self).slab.len() == 64 * old(self).pages.len(),
                forall|k: int| 0 <= k < old(self).slab.len() ==> self.slab[k] == old(self).slab[k],
                forall|k: int| old(self).slab.len() <= k < self.slab.len() ==> self.slab[k] is None,
                forall|p: int|
                    0 <= p < old(self).pages.len() ==> self.pages[p] == old(self).pages[p],
                self.pages[old(self).pages.len() as int].base() == 64 * old(self).pages.len(),
                self.pages[old(self).pages.len() as int].notified_bits() == 0,
                self.pages[old(self).pages.len() as int].completed_bits() == 0,
                self.pages[old(self).pages.len() as int].dropped_bits() == 0,
            decreases 64 - added,
        {
            self.slab.push(None);
            added += 1;
        }
    }

    /// Stores `future` in the vacant slot with the smallest key from
    /// `64 * prio` on, adding pages until that slot exists, and makes the
    /// task due to be polled.
    fn insert_key(&mut self, future: F, prio: usize) -> (key: u64)
        requires
            old(self).wf(),
            prio < MAX_PAGES,
            old(self).num_pages() < MAX_PAGES,
        ensures
            final(self).wf(),
            final(self).inserted(old(self), key as int, future, prio as int),
    {
        let lane_start = prio * WAKER_PAGE_SIZE;
        let mut key: usize = if self.first_vacant > lane_start {
            self.first_vacant
        } else {
            lane_start
        };
        while key < self.slab.len() && self.slab[key].is_some()
            invariant
                self.wf(),
                64 * prio <= key,
                self.first_vacant <= key,
                key <= self.slab.len() || key == 64 * prio,
                forall|j: int| 64 * prio <= j < key ==> self.is_occupied(j),
            decreases self.slab.len() - key,
        {
            key += 1;
        }
        while key >= self.pages.len() * WAKER_PAGE_SIZE
            invariant
                self.wf(),
                key < 64 * MAX_PAGES,
                self.first_vacant == old(self).first_vacant,
                key >= self.slab.len() ==> key % 64 == 0,
                self.pages.len() >= old(self).pages.len(),
                self.pages.len() > old(self).pages.len() ==> 64 * old(self).pages.len() <= key
                    && 64 * self.pages.len() <= key + 64,
                forall|k: int| #[trigger] self.same_slot(old(self), k),
            decreases 64 * MAX_PAGES - self.pages.len(),
        {
            let ghost grown = *self;
            self.push_page();
            proof {
                assert forall|k: int| #[trigger] self.same_slot(old(self), k) by {
                    assert(self.same_slot(&grown, k));
                    assert(grown.same_slot(old(self), k));
                }
            }
        }
        let ghost before = *self;
        self.slab[key] = Some(future);
        self.pages[key / WAKER_PAGE_SIZE].initialize(key % WAKER_PAGE_SIZE);
        if key == self.first_vacant {
            self.first_vacant = key + 1;
        }
        proof {
            assert forall|k: int| k != key implies #[trigger] self.same_slot(&before, k) by {
                if 0 <= k < 64 * self.pages.len() {
                    if k / 64 == key as int / 64 {
                        assert(k % 64 != key as int % 64);
                    }
                }
            }
            assert forall|k: int| k != key implies #[trigger] self.same_slot(old(self), k) by {
                assert(self.same_slot(&before, k));
                assert(before.same_slot(old(self), k));
            }
            assert(before.same_slot(old(self), key as int));
            self.lemma_same_slots_elsewhere(old(self), key as int);
        }
        key as u64
    }

    /// What storing `future` under lane `prio` does to the scheduler `before`:
    /// the task goes to slot `key`, the first vacant one of the lane, and
    /// nothing else changes.
    pub open spec fn inserted(&self, before: &Self, key: int, future: F, prio: int) -> bool {
        &&& 64 * prio <= key
        &&& !before.is_occupied(key)
        &&& forall|j: int| 64 * prio <= j < key ==> before.is_occupied(j)
        &&& self.is_occupied(key)
        &&& self.task(key) == future
        &&& self.is_notified(key)
        &&& !self.is_completed(key)
        &&& !self.is_dropped(key)
        &&& self.same_elsewhere(before, key)
        &&& self.num_pages() == if key / 64 < before.num_pages() {
            before.num_pages()
        } else {
            key / 64 + 1
        }
    }

    /// Stores a task in the first vacant slot and returns its handle. The
    /// task is due to be polled.
    pub fn insert(&mut self, future: F) -> (handle: SchedulerHandle)
        requires
            old(self).wf(),
            old(self).num_pages() < MAX_PAGES,
        ensures
            final(self).wf(),
            final(self).inserted(old(self), handle.key(), future, 0),
            handle.waker_page().base() == 64 * (handle.key() / 64),
    {
        let key = self.insert_key(future, 0);
        let (page, _) = self.page(key);
        SchedulerHandle { key, waker_page: page }
    }

    /// Stores a task in the first vacant slot of priority lane `page`, whose
    /// slots start at page `page`, and returns its handle. Pages are polled
    /// in ascending order, so a task in a lower lane is polled before the
    /// tasks of the pages after it.
    pub fn insert_page(&mut self, future: F, page: usize) -> (handle: SchedulerHandle)
        requires
            old(self).wf(),
            page < MAX_PAGES,
            old(self).num_pages() < MAX_PAGES,
        ensures
            final(self).wf(),
            final(self).inserted(old(self), handle.key(), future, page as int),
            handle.waker_page().base() == 64 * (handle.key() / 64),
    {
        let key = self.insert_key(future, page);
        let (page, _) = self.page(key);
        SchedulerHandle { key, waker_page: page }
    }

    /// The handle of the task stored under `key`, if there is one.
    pub fn from_raw_handle(&self, key: u64) -> (handle: Option<SchedulerHandle>)
        requires
            self.wf(),
        ensures
            handle is Some <==> self.is_occupied(key as int),
            handle is Some ==> handle->0.key() == key && handle->0.waker_page().base() == 64 * (
            key as int / 64),
    {
        if key >= self.slab.len() as u64 {
            return None;
        }
        if self.slab[key as usize].is_none() {
            return None;
        }
        let (page, _) = self.page(key);
        Some(SchedulerHandle { key, waker_page: page })
    }

    /// What removing the task under `key` does to the scheduler `before`:
    /// the slot is vacant with no status left, and nothing else changes.
    pub open spec fn removed(&self, before: &Self, key: int) -> bool {
        &&& !self.is_occupied(key)
        &&& !self.is_notified(key)
        &&& !self.is_completed(key)
        &&& !self.is_dropped(key)
        &&& self.same_elsewhere(before, key)
        &&& self.num_pages() == before.num_pages()
    }

    /// Takes the finished task of `handle` out of the scheduler. The slot of
    /// the task is free for another task afterwards.
    pub fn take(&mut self, handle: SchedulerHandle) -> (future: F)
        requires
            old(self).wf(),
            old(self).is_occupied(handle.key()),
            old(self).is_completed(handle.key()),
            !old(self).is_dropped(handle.key()),
        ensures
            final(self).wf(),
            future == old(self).task(handle.key()),
            final(self).removed(old(self), handle.key()),
    {
        let key = handle.key as usize;
        let (_, subpage_ix) = self.page(handle.key);
        self.pages[key / WAKER_PAGE_SIZE].clear(subpage_ix);
        let future = self.slab[key].take();
        if key < self.first_vacant {
            self.first_vacant = key;
        }
        proof {
            self.lemma_one_slot_changed(old(self), key as int);
        }
        future.unwrap()
    }

    /// Why the task under `key` cannot be taken, or `None` if it can: it is
    /// stored, was not dropped and has finished.
    pub open spec fn take_error(&self, key: int) -> Option<TakeError> {
        if !self.is_occupied(key) {
            Some(TakeError::Vacant)
        } else if self.is_dropped(key) {
            Some(TakeError::Dropped)
        } else if !self.is_completed(key) {
            Some(TakeError::Pending)
        } else {
            None
        }
    }

    /// Takes the task of `handle` out of the scheduler if it is there, has
    /// finished and was not dropped; otherwise says why not and leaves the
    /// scheduler as it was.
    pub fn try_take(&mut self, handle: SchedulerHandle) -> (taken: Result<F, TakeError>)
        requires
            old(self).wf(),
        ensures
            final(self).wf(),
            match taken {
                Ok(future) => {
                    &&& old(self).take_error(handle.key()) is None
                    &&& future == old(self).task(handle.key())
                    &&& final(self).removed(old(self), handle.key())
                },
                Err(error) => {
                    &&& old(self).take_error(handle.key()) == Some(error)
                    &&& *final(self) == *old(self)
                },
            },
    {
        if handle.key >= self.slab.len() as u64 {
            return Err(TakeError::Vacant);
        }
        let key = handle.key as usize;
        if self.slab[key].is_none() {
            return Err(TakeError::Vacant);
        }
        let (_, subpage_ix) = self.page(handle.key);
        if self.pages[key / WAKER_PAGE_SIZE].was_dropped(subpage_ix) {
            return Err(TakeError::Dropped);
        }
        if !self.pages[key / WAKER_PAGE_SIZE].has_completed(subpage_ix) {
            return Err(TakeError::Pending);
        }
        Ok(self.take(handle))
    }

    /// What a change of the status bits of slot `key` alone leaves in place:
    /// the pages, every task, and the status of every other slot.
    pub open spec fn same_tasks(&self, before: &Self, key: int) -> bool {
        &&& self.num_pages() == before.num_pages()
        &&& self.is_occupied(key) == before.is_occupied(key)
        &&& self.is_occupied(key) ==> self.task(key) == before.task(key)
        &&& self.same_elsewhere(before, key)
    }

    /// Gives up `handle` without taking its task. The task is not stopped at
    /// once: its slot is marked dropped, the task is never polled again, and
    /// the next poll pass reclaims the slot. Nothing changes if no task is
    /// stored under the key of the handle.
    pub fn drop_handle(&mut self, handle: SchedulerHandle)
        requires
            old(self).wf(),
        ensures
            final(self).wf(),
            final(self).same_tasks(old(self), handle.key()),
            final(self).is_notified(handle.key()) == old(self).is_notified(handle.key()),
            final(self).is_completed(handle.key()) == old(self).is_completed(handle.key()),
            final(self).is_dropped(handle.key()) == (old(self).is_dropped(handle.key()) || old(
                self,
            ).is_occupied(handle.key())),
    {
        if handle.key >= self.slab.len() as u64 {
            proof {
                self.lemma_one_slot_changed(old(self), handle.key());
            }
            return ;
        }
        let key = handle.key as usize;
        if self.slab[key].is_some() {
            let subpage_ix = key % WAKER_PAGE_SIZE;
            self.pages[key / WAKER_PAGE_SIZE].mark_dropped(subpage_ix);
        }
        proof {
            self.lemma_one_slot_changed(old(self), key as int);
        }
    }

    /// Wakes the task that `waker` stands for: the task is polled in the next
    /// pass over its page. Nothing changes if no task is stored in the slot.
    pub fn wake(&mut self, waker: WakerRef)
        requires
            old(self).wf(),
        ensures
            final(self).wf(),
            final(self).same_tasks(old(self), waker.addr()),
            final(self).is_notified(waker.addr()) == (old(self).is_notified(waker.addr()) || old(
                self,
            ).is_occupied(waker.addr())),
            final(self).is_completed(waker.addr()) == old(self).is_completed(waker.addr()),
            final(self).is_dropped(waker.addr()) == old(self).is_dropped(waker.addr()),
    {
        let key = waker.into_raw_waker();
        if key < self.slab.len() && self.slab[key].is_some() {
            waker.wake_by_ref(&mut self.pages[key / WAKER_PAGE_SIZE]);
        }
        proof {
            self.lemma_one_slot_changed(old(self), key as int);
        }
    }

    /// What a poll pass that started from `before` and polled the tasks
    /// listed in `polled` has done to slot `key`.
    ///
    /// A task that was due and live, that is notified and neither completed
    /// nor dropped, was polled. A slot whose handle had been dropped is
    /// reclaimed, and no other slot is vacated. No slot is left marked
    /// dropped. A slot is completed if it was before or if its task was
    /// polled in this pass and finished, and never otherwise. A task that was
    /// not polled is as it was. No task is due after the pass unless a task
    /// was polled, which may have woken it.
    pub open spec fn after_poll(&self, before: &Self, polled: Seq<u64>, key: int) -> bool {
        &&& before.is_notified(key) && !before.is_completed(key) && !before.is_dropped(key)
            ==> lists_key(polled, key)
        &&& self.is_occupied(key) == (before.is_occupied(key) && !before.is_dropped(key))
        &&& !self.is_dropped(key)
        &&& self.is_completed(key) ==> before.is_completed(key) || lists_key(polled, key)
        &&& before.is_completed(key) && !before.is_dropped(key) ==> self.is_completed(key)
        &&& self.is_occupied(key) && !lists_key(polled, key) ==> self.task(key) == before.task(
            key,
        )
        &&& self.is_notified(key) ==> polled.len() > 0
    }

    /// Whether a wake of the task under `woken`, made by the task under `key`
    /// while it was polled in a pass that polled the tasks listed in
    /// `polled`, was kept: unless the slot holds no task after the pass, the
    /// task is due, or it was polled later in the pass, or it has completed.
    pub open spec fn wake_kept(&self, polled: Seq<u64>, key: int, woken: int) -> bool {
        self.is_occupied(woken) ==> self.is_notified(woken) || self.is_completed(woken) || (key
            < woken && lists_key(polled, woken))
    }

    /// Whether `records[i]` tells what the pass that started from `before`
    /// did with the task under `polled[i]`: the record begins with the task
    /// as it was and ends with the task as it is, the slot is completed
    /// exactly if the poll reported that the task is ready, every wake that
    /// the task made was kept, and the task was polled for a reason: it was
    /// due when the pass began, or a task polled before it in the pass woke
    /// it.
    pub open spec fn poll_fits(
        &self,
        before: &Self,
        polled: Seq<u64>,
        records: Seq<PollRecord<F>>,
        i: int,
    ) -> bool {
        let key = polled[i] as int;
        let record = records[i];
        &&& record.before == before.task(key)
        &&& record.after == self.task(key)
        &&& self.is_completed(key) <==> record.result == Poll::Ready
        &&& forall|n: int|
            0 <= n < record.woken.len() ==> self.wake_kept(
                polled,
                key,
                (#[trigger] record.woken[n]).addr(),
            )
        &&& !before.is_notified(key) ==> woken_by(records, i, key)
    }

    /// Whether `records` tell, one for each key of `polled`, what the pass
    /// that started from `before` did with the tasks it polled.
    pub open spec fn polls_fit(
        &self,
        before: &Self,
        polled: Seq<u64>,
        records: Seq<PollRecord<F>>,
    ) -> bool {
        &&& records.len() == polled.len()
        &&& forall|i: int|
            0 <= i < polled.len() ==> #[trigger] self.poll_fits(before, polled, records, i)
    }

    /// One poll pass: visits the pages in ascending order. For each page it
    /// takes the set of tasks that are due, without those that have completed
    /// or were dropped, polls each of them once in ascending order of their
    /// keys, marks those that finish as completed, and then reclaims the
    /// slots of the page whose handles were dropped. A task that is woken
    /// while its page is being visited, or after, waits for the next pass.
    ///
    /// Returns the keys of the tasks it polled, in the order in which it
    /// polled them. No key is listed twice. Each listed task was advanced by
    /// one call of its `poll`, on a fresh context that carries the wake
    /// handle of the task, and is completed exactly if that call reported
    /// that it is ready. A wake that a task made in that call is kept: the
    /// woken task is due after the pass unless it was polled later in the
    /// pass, has completed, or is gone. A task is polled only for a reason:
    /// it was due when the pass began, or a task polled before it in this
    /// pass woke it.
    pub fn poll(&mut self) -> (polled: Vec<u64>)
        requires
            old(self).wf(),
        ensures
            final(self).wf(),
            final(self).num_pages() == old(self).num_pages(),
            forall|i: int, j: int| 0 <= i < j < polled.len() ==> polled[i] < polled[j],
            forall|i: int|
                0 <= i < polled.len() ==> {
                    &&& old(self).is_occupied(#[trigger] polled[i] as int)
                    &&& !old(self).is_completed(polled[i] as int)
                    &&& !old(self).is_dropped(polled[i] as int)
                    &&& old(self).is_notified(polled[i] as int) || polled[0] / 64 < polled[i] / 64
                },
            forall|k: int| #[trigger] final(self).after_poll(old(self), polled@, k),
            exists|records: Seq<PollRecord<F>>|
                #![trigger final(self).polls_fit(old(self), polled@, records)]
                final(self).polls_fit(old(self), polled@, records) && forall|i: int|
                    #![trigger records[i]]
                    0 <= i < polled.len() ==> exists|task: &mut F, inner: &mut Context|
                        mut_ref_current(task) == records[i].before
                            && mut_ref_future(task) == records[i].after
                            && mut_ref_current(inner).own_waker().addr() == polled[i]
                            && mut_ref_current(inner).woken().len() == 0
                            && mut_ref_future(inner).woken() == records[i].woken
                            && #[trigger] call_ensures(F::poll, (task, inner), records[i].result),
    {
        let mut polled: Vec<u64> = Vec::new();
        let ghost start = *self;
        let ghost mut records: Seq<PollRecord<F>> = Seq::empty();
        proof {
            assert forall|k: int| #[trigger] self.key_inv(&start, polled@, k, 0, 0, false) by {}
        }
        let mut page_ix: usize = 0;
        while page_ix < self.pages.len()
            invariant
                page_ix <= self.pages.len(),
                start.wf(),
                self.pass_inv(&start, polled@, 64 * page_ix, 64 * page_ix, false),
                self.recs_inv(&start, polled@, records, 0, 0, 64),
                forall|i: int|
                    #![trigger records[i]]
                    0 <= i < polled.len() ==> exists|task: &mut F, inner: &mut Context|
                        mut_ref_current(task) == records[i].before
                            && mut_ref_future(task) == records[i].after
                            && mut_ref_current(inner).own_waker().addr() == polled[i]
                            && mut_ref_current(inner).woken().len() == 0
                            && mut_ref_future(inner).woken() == records[i].woken
                            && #[trigger] call_ensures(F::poll, (task, inner), records[i].result),
            decreases self.pages.len() - page_ix,
        {
            let grown = self.poll_page(page_ix, &mut polled, Ghost(start), Ghost(records));
            proof {
                records = grown@;
            }
            page_ix += 1;
        }
        proof {
            assert forall|k: int| #[trigger] self.after_poll(&start, polled@, k) by {
                assert(self.key_inv(&start, polled@, k, 64 * page_ix, 64 * page_ix, false));
            }
            assert forall|i: int| 0 <= i < polled.len() implies #[trigger] self.poll_fits(
                &start,
                polled@,
                records,
                i,
            ) by {
                assert(self.rec_ok(&start, polled@, records, i, 0, 0, 64));
                let key = polled[i] as int;
                let record = records[i];
                assert forall|n: int| 0 <= n < record.woken.len() implies self.wake_kept(
                    polled@,
                    key,
                    (#[trigger] record.woken[n]).addr(),
                ) by {
                    let a = record.woken[n].addr();
                    assert(self.wake_kept_mid(&start, polled@, key, a, 0, 0, 64));
                    assert(self.after_poll(&start, polled@, a));
                }
            }
            assert(self.polls_fit(&start, polled@, records));
        }
        polled
    }

    /// Whether a wake of the task under `woken`, made by the task under `key`
    /// earlier in the pass, is kept so far. In the middle of a pass the
    /// woken task may also be one whose slot waits to be reclaimed, or one
    /// of the page under way that was taken to be polled and whose turn has
    /// not come: a slot from `bound` on whose bit is set in `taken`.
    closed spec fn wake_kept_mid(
        &self,
        start: &Self,
        polled: Seq<u64>,
        key: int,
        woken: int,
        taken: u64,
        lo: int,
        bound: int,
    ) -> bool {
        self.is_occupied(woken) ==> {
            ||| self.is_notified(woken)
            ||| self.is_completed(woken)
            ||| key < woken && lists_key(polled, woken)
            ||| start.is_dropped(woken)
            ||| lo <= woken < lo + 64 && bound <= woken && bit_is_set(taken, woken - lo)
        }
    }

    /// What holds of `records[i]` in the middle of a pass.
    closed spec fn rec_ok(
        &self,
        start: &Self,
        polled: Seq<u64>,
        records: Seq<PollRecord<F>>,
        i: int,
        taken: u64,
        lo: int,
        bound: int,
    ) -> bool {
        let key = polled[i] as int;
        let record = records[i];
        &&& record.before == start.task(key)
        &&& record.after == self.task(key)
        &&& self.is_completed(key) <==> record.result == Poll::Ready
        &&& forall|n: int|
            0 <= n < record.woken.len() ==> #[trigger] self.wake_kept_mid(
                start,
                polled,
                key,
                record.woken[n].addr(),
                taken,
                lo,
                bound,
            )
        &&& !start.is_notified(key) ==> woken_by(records, i, key)
    }

    /// What holds of the records in the middle of a pass.
    closed spec fn recs_inv(
        &self,
        start: &Self,
        polled: Seq<u64>,
        records: Seq<PollRecord<F>>,
        taken: u64,
        lo: int,
        bound: int,
    ) -> bool {
        &&& records.len() == polled.len()
        &&& forall|i: int|
            0 <= i < polled.len() ==> #[trigger] self.rec_ok(
                start,
                polled,
                records,
                i,
                taken,
                lo,
                bound,
            )
        &&& forall|a: int| #[trigger]
            self.is_notified(a) ==> start.is_notified(a) || woken_by(
                records,
                records.len() as int,
                a,
            )
    }

    /// The first `m` records stay in order through a step of a pass that
    /// leaves the tasks they tell of alone and keeps the wakes that were
    /// kept.
    proof fn lemma_recs_carry(
        &self,
        prev: &Self,
        start: &Self,
        polled_prev: Seq<u64>,
        polled: Seq<u64>,
        records_prev: Seq<PollRecord<F>>,
        records: Seq<PollRecord<F>>,
        m: int,
        taken_prev: u64,
        lo_prev: int,
        bound_prev: int,
        taken: u64,
        lo: int,
        bound: int,
    )
        requires
            0 <= m <= polled_prev.len(),
            m <= polled.len(),
            m <= records.len(),
            m <= records_prev.len(),
            forall|i: int| 0 <= i < m ==> polled[i] == polled_prev[i],
            forall|i: int| 0 <= i < m ==> records[i] == records_prev[i],
            forall|i: int|
                0 <= i < m ==> #[trigger] prev.rec_ok(
                    start,
                    polled_prev,
                    records_prev,
                    i,
                    taken_prev,
                    lo_prev,
                    bound_prev,
                ),
            forall|i: int|
                0 <= i < m ==> self.task(#[trigger] polled_prev[i] as int) == prev.task(
                    polled_prev[i] as int,
                ) && self.is_completed(polled_prev[i] as int) == prev.is_completed(
                    polled_prev[i] as int,
                ),
            forall|key: int, a: int|
                lists_key(polled_prev, key) && prev.wake_kept_mid(
                    start,
                    polled_prev,
                    key,
                    a,
                    taken_prev,
                    lo_prev,
                    bound_prev,
                ) ==> #[trigger] self.wake_kept_mid(start, polled, key, a, taken, lo, bound),
        ensures
            forall|i: int|
                0 <= i < m ==> #[trigger] self.rec_ok(start, polled, records, i, taken, lo, bound),
    {
        assert forall|i: int| 0 <= i < m implies #[trigger] self.rec_ok(
            start,
            polled,
            records,
            i,
            taken,
            lo,
            bound,
        ) by {
            assert(prev.rec_ok(start, polled_prev, records_prev, i, taken_prev, lo_prev, bound_prev));
            let key = polled_prev[i] as int;
            let record = records_prev[i];
            assert(polled_prev[i] == key);
            assert(lists_key(polled_prev, key));
            assert forall|n: int| 0 <= n < record.woken.len() implies #[trigger] self.wake_kept_mid(
                start,
                polled,
                key,
                record.woken[n].addr(),
                taken,
                lo,
                bound,
            ) by {
                assert(prev.wake_kept_mid(
                    start,
                    polled_prev,
                    key,
                    record.woken[n].addr(),
                    taken_prev,
                    lo_prev,
                    bound_prev,
                ));
            }
            if woken_by(records_prev, i, key) {
                let (j, n) = choose|j: int, n: int|
                    0 <= j < i && j < records_prev.len() && 0 <= n < records_prev[j].woken.len()
                        && (#[trigger] records_prev[j].woken[n]).addr() == key;
                assert(records[j].woken[n].addr() == key);
            }
        }
    }

    /// What holds of slot `key` in the middle of a poll pass that started from
    /// `start`: the slots below `lo` are finished with, those from `hi` on
    /// have not been visited, and the page between them is being polled, or,
    /// where `draining` is set, has been polled and is being reclaimed.
    closed spec fn key_inv(
        &self,
        start: &Self,
        polled: Seq<u64>,
        key: int,
        lo: int,
        hi: int,
        draining: bool,
    ) -> bool {
        &&& self.is_occupied(key) ==> start.is_occupied(key)
        &&& self.is_occupied(key) && !lists_key(polled, key) ==> self.task(key) == start.task(key)
        &&& self.is_completed(key) ==> start.is_completed(key) || lists_key(polled, key)
        &&& self.is_dropped(key) ==> start.is_dropped(key)
        &&& start.is_occupied(key) && !start.is_dropped(key) ==> self.is_occupied(key)
        &&& start.is_completed(key) && self.is_occupied(key) ==> self.is_completed(key)
        &&& key < lo ==> {
            &&& !self.is_dropped(key)
            &&& start.is_dropped(key) ==> !self.is_occupied(key)
            &&& start.is_notified(key) && !start.is_completed(key) && !start.is_dropped(key)
                ==> lists_key(polled, key)
        }
        &&& lo <= key < hi ==> if draining {
            &&& !self.is_dropped(key)
            &&& start.is_notified(key) && !start.is_completed(key) && !start.is_dropped(key)
                ==> lists_key(polled, key)
        } else {
            &&& self.is_dropped(key) == start.is_dropped(key)
            &&& self.is_occupied(key) == start.is_occupied(key)
        }
        &&& key < hi ==> (self.is_notified(key) ==> polled.len() > 0)
        &&& key >= hi ==> {
            &&& self.is_dropped(key) == start.is_dropped(key)
            &&& self.is_occupied(key) == start.is_occupied(key)
            &&& start.is_notified(key) ==> self.is_notified(key)
            &&& self.is_notified(key) ==> start.is_notified(key) || polled.len() > 0
        }
    }

    /// What holds in the middle of a poll pass that started from `start`.
    closed spec fn pass_inv(
        &self,
        start: &Self,
        polled: Seq<u64>,
        lo: int,
        hi: int,
        draining: bool,
    ) -> bool {
        &&& self.wf()
        &&& start.wf()
        &&& self.pages.len() == start.pages.len()
        &&& forall|i: int, j: int| 0 <= i < j < polled.len() ==> polled[i] < polled[j]
        &&& forall|i: int|
            0 <= i < polled.len() ==> {
                &&& (#[trigger] polled[i]) < hi
                &&& start.is_occupied(polled[i] as int)
                &&& !start.is_completed(polled[i] as int)
                &&& !start.is_dropped(polled[i] as int)
                &&& start.is_notified(polled[i] as int) || polled[0] / 64 < polled[i] / 64
            }
        &&& forall|k: int| #[trigger] self.key_inv(start, polled, k, lo, hi, draining)
    }

    /// Visits page `page_ix`: polls its due tasks and reclaims its dropped
    /// slots. Returns the records of the pass, with those of this page added.
    fn poll_page(
        &mut self,
        page_ix: usize,
        polled: &mut Vec<u64>,
        Ghost(start): Ghost<Self>,
        Ghost(records): Ghost<Seq<PollRecord<F>>>,
    ) -> (grown: Ghost<Seq<PollRecord<F>>>)
        requires
            page_ix < old(self).pages.len(),
            old(self).pass_inv(&start, old(polled)@, 64 * page_ix, 64 * page_ix, false),
            old(self).recs_inv(&start, old(polled)@, records, 0, 0, 64),
            forall|i: int|
                #![trigger records[i]]
                0 <= i < old(polled).len() ==> exists|task: &mut F, inner: &mut Context|
                    mut_ref_current(task) == records[i].before
                        && mut_ref_future(task) == records[i].after
                        && mut_ref_current(inner).own_waker().addr() == old(polled)[i]
                        && mut_ref_current(inner).woken().len() == 0
                        && mut_ref_future(inner).woken() == records[i].woken
                        && #[trigger] call_ensures(F::poll, (task, inner), records[i].result),
        ensures
            final(self).pass_inv(
                &start,
                final(polled)@,
                64 * page_ix + 64,
                64 * page_ix + 64,
                false,
            ),
            final(self).recs_inv(&start, final(polled)@, grown@, 0, 0, 64),
            forall|i: int|
                #![trigger grown@[i]]
                0 <= i < final(polled).len() ==> exists|task: &mut F, inner: &mut Context|
                    mut_ref_current(task) == grown@[i].before
                        && mut_ref_future(task) == grown@[i].after
                        && mut_ref_current(inner).own_waker().addr() == final(polled)[i]
                        && mut_ref_current(inner).woken().len() == 0
                        && mut_ref_future(inner).woken() == grown@[i].woken
                        && #[trigger] call_ensures(F::poll, (task, inner), grown@[i].result),
    {
        let ghost lo = 64 * page_ix as int;
        let ghost hi = lo + 64;
        let notified = self.pages[page_ix].take_notified();
        proof {
            assert forall|k: int| #[trigger] self.key_inv(&start, polled@, k, lo, hi, false) by {
                assert(old(self).key_inv(&start, polled@, k, lo, lo, false));
            }
        }
        proof {
            assert forall|s: int| #[trigger] bit_is_set(notified, s) implies {
                &&& start.is_occupied(lo + s)
                &&& !start.is_completed(lo + s)
                &&& !start.is_dropped(lo + s)
                &&& start.is_notified(lo + s) || old(polled).len() > 0
                &&& start.is_notified(lo + s) || woken_by(records, records.len() as int, lo + s)
            } by {
                let k = lo + s;
                assert(k / 64 == page_ix && k % 64 == s);
                assert(old(self).is_notified(k));
                assert(old(self).slab[k] is Some);
                assert(old(self).key_inv(&start, polled@, k, lo, lo, false));
            }
            assert forall|a: int| #[trigger] self.is_notified(a) implies start.is_notified(a)
                || woken_by(records, records.len() as int, a) by {
                assert(old(self).is_notified(a));
            }
        }
        let bits = set_bits(notified);
        let ghost mut recs = records;
        proof {
            let first = if 0 < bits.len() {
                lo + bits[0]
            } else {
                hi
            };
            assert forall|key: int, a: int|
                lists_key(polled@, key) && old(self).wake_kept_mid(
                    &start,
                    polled@,
                    key,
                    a,
                    0,
                    0,
                    64,
                ) implies #[trigger] self.wake_kept_mid(&start, polled@, key, a, notified, lo, first) by {
                if self.is_occupied(a) && old(self).is_notified(a) && !self.is_notified(a) {
                    assert(a / 64 == page_ix && a % 64 == a - lo);
                    assert(old(self).key_inv(&start, polled@, a, lo, lo, false));
                    if bit_is_set(notified, a - lo) {
                        let n = choose|n: int| 0 <= n < bits.len() && bits[n] == a - lo;
                        if n > 0 {
                            assert(bits[0] < bits[n]);
                        }
                    }
                }
            }
            self.lemma_recs_carry(
                old(self),
                &start,
                polled@,
                polled@,
                records,
                records,
                polled@.len() as int,
                0,
                0,
                64,
                notified,
                lo,
                first,
            );
        }
        let mut i: usize = 0;
        while i < bits.len()
            invariant
                i <= bits.len(),
                page_ix < self.pages.len(),
                lo == 64 * page_ix,
                hi == lo + 64,
                self.pass_inv(&start, polled@, lo, hi, false),
                forall|n: int| 0 <= n < bits.len() ==> bit_is_set(notified, #[trigger] bits[n] as int),
                forall|n: int, m: int| 0 <= n < m < bits.len() ==> bits[n] < bits[m],
                forall|k: int|
                    #[trigger] bit_is_set(notified, k) ==> exists|n: int|
                        0 <= n < bits.len() && bits[n] == k,
                forall|s: int|
                    #[trigger] bit_is_set(notified, s) ==> {
                        &&& start.is_occupied(lo + s)
                        &&& !start.is_completed(lo + s)
                        &&& !start.is_dropped(lo + s)
                        &&& start.is_notified(lo + s) || old(polled).len() > 0
                        &&& start.is_notified(lo + s) || woken_by(
                            records,
                            records.len() as int,
                            lo + s,
                        )
                    },
                old(polled)@.is_prefix_of(polled@),
                forall|n: int| 0 <= n < old(polled).len() ==> (#[trigger] old(polled)[n]) < lo,
                forall|n: int| 0 <= n < i ==> lists_key(polled@, lo + #[trigger] bits[n]),
                forall|n: int|
                    0 <= n < polled.len() ==> (#[trigger] polled[n]) < lo + (if i == 0 {
                        0
                    } else {
                        bits[i - 1] + 1
                    }),
                records.len() <= recs.len(),
                forall|j: int| 0 <= j < records.len() ==> #[trigger] recs[j] == records[j],
                self.recs_inv(
                    &start,
                    polled@,
                    recs,
                    notified,
                    lo,
                    if i < bits.len() {
                        lo + bits[i as int]
                    } else {
                        hi
                    },
                ),
                forall|i: int|
                    #![trigger recs[i]]
                    0 <= i < polled.len() ==> exists|task: &mut F, inner: &mut Context|
                        mut_ref_current(task) == recs[i].before
                            && mut_ref_future(task) == recs[i].after
                            && mut_ref_current(inner).own_waker().addr() == polled[i]
                            && mut_ref_current(inner).woken().len() == 0
                            && mut_ref_future(inner).woken() == recs[i].woken
                            && #[trigger] call_ensures(F::poll, (task, inner), recs[i].result),
            decreases bits.len() - i,
        {
            let ghost seen = polled@;
            let ghost seen_recs = recs;
            let ghost key = lo + bits[i as int];
            let ghost next = if i + 1 < bits.len() {
                lo + bits[i + 1]
            } else {
                hi
            };
            proof {
                if old(polled).len() > 0 {
                    assert(polled[0] == old(polled)[0]);
                }
                assert(bit_is_set(notified, bits[i as int] as int));
                assert forall|s: int| bits[i as int] < s && lo + s < next implies !#[trigger] bit_is_set(
                    notified,
                    s,
                ) by {
                    if bit_is_set(notified, s) {
                        let n = choose|n: int| 0 <= n < bits.len() && bits[n] == s;
                        if n <= i {
                            assert(bits[n] <= bits[i as int]);
                        } else {
                            assert(bits[i + 1] <= bits[n]);
                        }
                    }
                }
                if !start.is_notified(key) {
                    assert forall|j: int| 0 <= j < records.len() implies (#[trigger] records[j]).woken.is_prefix_of(
                    recs[j].woken) by {
                        assert(recs[j] == records[j]);
                    }
                    lemma_woken_by_grows(records, recs, key);
                }
            }
            let polled_now = self.poll_slot(
                page_ix,
                bits[i],
                polled,
                Ghost(start),
                Ghost(recs),
                Ghost(notified),
                Ghost(next),
            );
            proof {
                recs = recs.push(polled_now@);
                assert forall|n: int| 0 <= n < i + 1 implies lists_key(
                    polled@,
                    lo + #[trigger] bits[n],
                ) by {
                    lemma_lists_key_push(seen, (lo + bits[i as int]) as u64, lo + bits[n]);
                }
                assert forall|j: int|
                    #![trigger recs[j]]
                    0 <= j < polled.len() implies exists|task: &mut F, inner: &mut Context|
                    mut_ref_current(task) == recs[j].before && mut_ref_future(task)
                        == recs[j].after && mut_ref_current(inner).own_waker().addr() == polled[j]
                        && mut_ref_current(inner).woken().len() == 0 && mut_ref_future(
                        inner,
                    ).woken() == recs[j].woken && #[trigger] call_ensures(
                        F::poll,
                        (task, inner),
                        recs[j].result,
                    ) by {
                    if j < seen.len() {
                        assert(recs[j] == seen_recs[j]);
                        assert(polled[j] == seen[j]);
                    } else {
                        assert(recs[j] == polled_now@);
                    }
                }
            }
            i += 1;
        }
        let ghost polled_page = *self;
        let dropped = self.pages[page_ix].take_dropped();
        proof {
            assert forall|k: int| #[trigger] self.key_inv(&start, polled@, k, lo, hi, true) by {
                assert(polled_page.key_inv(&start, polled@, k, lo, hi, false));
                if lo <= k < hi && start.is_notified(k) && !start.is_completed(k)
                    && !start.is_dropped(k) {
                    assert(old(self).key_inv(&start, old(polled)@, k, lo, lo, false));
                    assert(bit_is_set(notified, k - lo));
                    let n = choose|n: int| 0 <= n < bits.len() && bits[n] == k - lo;
                    assert(lists_key(polled@, lo + bits[n]));
                }
            }
            assert forall|key: int, a: int|
                lists_key(polled@, key) && polled_page.wake_kept_mid(
                    &start,
                    polled@,
                    key,
                    a,
                    notified,
                    lo,
                    hi,
                ) implies #[trigger] self.wake_kept_mid(&start, polled@, key, a, notified, lo, hi) by {}
            self.lemma_recs_carry(
                &polled_page,
                &start,
                polled@,
                polled@,
                recs,
                recs,
                polled@.len() as int,
                notified,
                lo,
                hi,
                notified,
                lo,
                hi,
            );
            assert forall|a: int| #[trigger] self.is_notified(a) implies start.is_notified(a)
                || woken_by(recs, recs.len() as int, a) by {
                assert(polled_page.is_notified(a));
            }
        }
        proof {
            assert forall|s: int| #[trigger] bit_is_set(dropped, s) implies start.is_dropped(
                lo + s,
            ) by {
                let k = lo + s;
                assert(k / 64 == page_ix && k % 64 == s);
                assert(polled_page.is_dropped(k));
                assert(polled_page.key_inv(&start, polled@, k, lo, hi, false));
            }
        }
        let dropped_bits = set_bits(dropped);
        let mut d: usize = 0;
        while d < dropped_bits.len()
            invariant
                d <= dropped_bits.len(),
                page_ix < self.pages.len(),
                lo == 64 * page_ix,
                hi == lo + 64,
                self.pass_inv(&start, polled@, lo, hi, true),
                self.recs_inv(&start, polled@, recs, notified, lo, hi),
                forall|n: int|
                    0 <= n < dropped_bits.len() ==> bit_is_set(
                        dropped,
                        #[trigger] dropped_bits[n] as int,
                    ),
                forall|s: int| #[trigger] bit_is_set(dropped, s) ==> start.is_dropped(lo + s),
                forall|n: int| 0 <= n < d ==> !self.is_occupied(lo + #[trigger] dropped_bits[n]),
            decreases dropped_bits.len() - d,
        {
            let ghost reclaimed = *self;
            self.reclaim_slot(
                page_ix,
                dropped_bits[d],
                Ghost(start),
                Ghost(polled@),
                Ghost(recs),
                Ghost(notified),
            );
            proof {
                assert forall|n: int| 0 <= n < d + 1 implies !self.is_occupied(
                    lo + #[trigger] dropped_bits[n],
                ) by {
                    if n < d {
                        assert(!reclaimed.is_occupied(lo + dropped_bits[n]));
                        if dropped_bits[n] != dropped_bits[d as int] {
                            assert(self.same_slot(&reclaimed, lo + dropped_bits[n]));
                        }
                    }
                }
            }
            d += 1;
        }
        proof {
            assert forall|k: int| #[trigger] self.key_inv(&start, polled@, k, hi, hi, false) by {
                assert(self.key_inv(&start, polled@, k, lo, hi, true));
                if lo <= k < hi && start.is_dropped(k) {
                    assert(polled_page.key_inv(&start, polled@, k, lo, hi, false));
                    assert(bit_is_set(dropped, k - lo));
                    let n = choose|n: int| 0 <= n < dropped_bits.len() && dropped_bits[n] == k - lo;
                    assert(!self.is_occupied(lo + dropped_bits[n]));
                }
            }
            assert forall|key: int, a: int|
                lists_key(polled@, key) && self.wake_kept_mid(
                    &start,
                    polled@,
                    key,
                    a,
                    notified,
                    lo,
                    hi,
                ) implies #[trigger] self.wake_kept_mid(&start, polled@, key, a, 0, 0, 64) by {}
            self.lemma_recs_carry(
                &*self,
                &start,
                polled@,
                polled@,
                recs,
                recs,
                polled@.len() as int,
                notified,
                lo,
                hi,
                0,
                0,
                64,
            );
        }
        Ghost(recs)
    }

    /// Polls the task in slot `subpage_ix` of page `page_ix` once, marks the
    /// slot completed if the task has finished, and notifies the tasks that
    /// the task woke. Returns the record of the poll.
    fn poll_slot(
        &mut self,
        page_ix: usize,
        subpage_ix: usize,
        polled: &mut Vec<u64>,
        Ghost(start): Ghost<Self>,
        Ghost(records): Ghost<Seq<PollRecord<F>>>,
        Ghost(taken): Ghost<u64>,
        Ghost(next): Ghost<int>,
    ) -> (polled_now: Ghost<PollRecord<F>>)
        requires
            page_ix < old(self).pages.len(),
            subpage_ix < 64,
            old(self).pass_inv(&start, old(polled)@, 64 * page_ix, 64 * page_ix + 64, false),
            start.is_occupied(64 * page_ix + subpage_ix),
            !start.is_completed(64 * page_ix + subpage_ix),
            !start.is_dropped(64 * page_ix + subpage_ix),
            start.is_notified(64 * page_ix + subpage_ix) || (old(polled).len() > 0 && old(
                polled,
            )[0] < 64 * page_ix),
            forall|n: int|
                0 <= n < old(polled).len() ==> (#[trigger] old(polled)[n]) < 64 * page_ix
                    + subpage_ix,
            old(self).recs_inv(
                &start,
                old(polled)@,
                records,
                taken,
                64 * page_ix,
                64 * page_ix + subpage_ix,
            ),
            start.is_notified(64 * page_ix + subpage_ix) || woken_by(
                records,
                records.len() as int,
                64 * page_ix + subpage_ix,
            ),
            64 * page_ix + subpage_ix < next <= 64 * page_ix + 64,
            forall|s: int|
                subpage_ix < s && 64 * page_ix + s < next ==> !#[trigger] bit_is_set(taken, s),
        ensures
            final(self).pass_inv(&start, final(polled)@, 64 * page_ix, 64 * page_ix + 64, false),
            final(polled)@ == old(polled)@.push((64 * page_ix + subpage_ix) as u64),
            final(self).recs_inv(
                &start,
                final(polled)@,
                records.push(polled_now@),
                taken,
                64 * page_ix,
                next,
            ),
            exists|task: &mut F, inner: &mut Context|
                mut_ref_current(task) == polled_now@.before && mut_ref_future(task)
                    == polled_now@.after && mut_ref_current(inner).own_waker().addr() == 64
                    * page_ix + subpage_ix && mut_ref_current(inner).woken().len() == 0
                    && mut_ref_future(inner).woken() == polled_now@.woken
                    && #[trigger] call_ensures(F::poll, (task, inner), polled_now@.result),
    {
        let ghost lo = 64 * page_ix as int;
        let ghost hi = lo + 64;
        let ix = page_ix * WAKER_PAGE_SIZE + subpage_ix;
        let ghost count = records.len() as int;
        proof {
            assert(old(self).key_inv(&start, polled@, ix as int, lo, hi, false));
            assert(old(self).slab[ix as int] is Some);
            assert(!lists_key(polled@, ix as int));
        }
        let waker = self.pages[page_ix].waker(subpage_ix);
        let mut ctx = Context::new(waker);
        let poll_result = match &mut self.slab[ix] {
            Some(task) => task.poll(&mut ctx),
            None => Poll::Pending,
        };
        let ghost before = old(self).task(ix as int);
        let ghost after = self.task(ix as int);
        let ghost left = ctx.woken();
        proof {
            assert(exists|task: &mut F, inner: &mut Context|
                mut_ref_current(task) == before && mut_ref_future(task) == after
                    && mut_ref_current(inner).own_waker().addr() == ix && mut_ref_current(
                    inner,
                ).woken().len() == 0 && mut_ref_future(inner).woken() == left
                    && #[trigger] call_ensures(F::poll, (task, inner), poll_result));
        }
        match poll_result {
            Poll::Ready => self.pages[page_ix].mark_completed(subpage_ix),
            Poll::Pending => (),
        }
        polled.push(ix as u64);
        let ghost silent = PollRecord { before, after, woken: left.take(0), result: poll_result };
        proof {
            self.lemma_one_slot_changed(old(self), ix as int);
            assert forall|k: int| #[trigger] self.key_inv(&start, polled@, k, lo, hi, false) by {
                assert(old(self).key_inv(&start, old(polled)@, k, lo, hi, false));
                lemma_lists_key_push(old(polled)@, ix as u64, k);
                if k != ix {
                    assert(self.same_slot(old(self), k));
                }
            }
            assert(self.wf()) by {
                assert forall|k: int|
                    0 <= k < self.slab.len() && (#[trigger] self.slab[k]) is None implies !self.is_notified(
                    k,
                ) && !self.is_completed(k) && !self.is_dropped(k) by {
                    assert(self.same_slot(old(self), k));
                }
                assert forall|k: int| 0 <= k < self.first_vacant implies (#[trigger] self.slab[k]) is Some by {
                    if k != ix {
                        assert(self.same_slot(old(self), k));
                    }
                }
            }
            // The records so far stay in order.
            assert forall|i: int| 0 <= i < count implies self.task(
                #[trigger] old(polled)[i] as int,
            ) == old(self).task(old(polled)[i] as int) && self.is_completed(old(polled)[i] as int)
                == old(self).is_completed(old(polled)[i] as int) by {
                assert(old(polled)[i] < ix);
                assert(self.same_slot(old(self), old(polled)[i] as int));
                assert(old(self).key_inv(&start, old(polled)@, old(polled)[i] as int, lo, hi, false));
            }
            assert forall|key: int, a: int|
                lists_key(old(polled)@, key) && old(self).wake_kept_mid(
                    &start,
                    old(polled)@,
                    key,
                    a,
                    taken,
                    lo,
                    ix as int,
                ) implies #[trigger] self.wake_kept_mid(&start, polled@, key, a, taken, lo, next) by {
                lemma_lists_key_push(old(polled)@, ix as u64, a);
                let n = choose|n: int| 0 <= n < old(polled).len() && old(polled)[n] == key;
                assert(old(polled)[n] < ix);
                if a != ix {
                    assert(self.same_slot(old(self), a));
                }
            }
            self.lemma_recs_carry(
                old(self),
                &start,
                old(polled)@,
                polled@,
                records,
                records.push(silent),
                count,
                taken,
                lo,
                ix as int,
                taken,
                lo,
                next,
            );
            // The record of this poll.
            if !start.is_notified(ix as int) {
                let (j, n) = choose|j: int, n: int|
                    0 <= j < records.len() && j < records.len() && 0 <= n < records[j].woken.len()
                        && (#[trigger] records[j].woken[n]).addr() == ix;
                assert(records.push(silent)[j].woken[n].addr() == ix);
            }
            assert(self.rec_ok(&start, polled@, records.push(silent), count, taken, lo, next));
            assert forall|a: int| #[trigger] self.is_notified(a) implies start.is_notified(a)
                || woken_by(records.push(silent), count + 1, a) by {
                assert(old(self).is_notified(a)) by {
                    if a != ix {
                        assert(self.same_slot(old(self), a));
                    }
                }
                if !start.is_notified(a) {
                    assert forall|j: int| 0 <= j < records.len() implies (#[trigger] records[j]).woken.is_prefix_of(
                    records.push(silent)[j].woken) by {}
                    lemma_woken_by_grows(records, records.push(silent), a);
                }
            }
        }
        let woken = ctx.take_woken();
        let mut w: usize = 0;
        while w < woken.len()
            invariant
                w <= woken.len(),
                woken@ == left,
                count == records.len(),
                polled@ == old(polled)@.push(ix as u64),
                ix == 64 * page_ix + subpage_ix,
                lo == 64 * page_ix,
                hi == lo + 64,
                self.pass_inv(&start, polled@, lo, hi, false),
                polled.len() > 0,
                start.is_occupied(ix as int),
                !start.is_dropped(ix as int),
                self.task(ix as int) == after,
                self.recs_inv(
                    &start,
                    polled@,
                    records.push(
                        PollRecord { before, after, woken: left.take(w as int), result: poll_result },
                    ),
                    taken,
                    lo,
                    next,
                ),
            decreases woken.len() - w,
        {
            let ghost sleeping = *self;
            let ghost heard = records.push(
                PollRecord { before, after, woken: left.take(w as int), result: poll_result },
            );
            let ghost hears = records.push(
                PollRecord { before, after, woken: left.take(w + 1), result: poll_result },
            );
            self.wake(woken[w]);
            proof {
                let target = woken[w as int].addr();
                assert forall|k: int| #[trigger] self.key_inv(&start, polled@, k, lo, hi, false) by {
                    assert(sleeping.key_inv(&start, polled@, k, lo, hi, false));
                    if k != target {
                        assert(self.same_slot(&sleeping, k));
                    }
                }
                assert forall|i: int| 0 <= i < count implies self.task(#[trigger] polled[i] as int)
                    == sleeping.task(polled[i] as int) && self.is_completed(polled[i] as int)
                    == sleeping.is_completed(polled[i] as int) by {
                    assert(sleeping.key_inv(&start, polled@, polled[i] as int, lo, hi, false));
                    assert(lists_key(polled@, polled[i] as int));
                }
                assert forall|key: int, a: int|
                    lists_key(polled@, key) && sleeping.wake_kept_mid(
                        &start,
                        polled@,
                        key,
                        a,
                        taken,
                        lo,
                        next,
                    ) implies #[trigger] self.wake_kept_mid(&start, polled@, key, a, taken, lo, next) by {
                    if a != target {
                        assert(self.same_slot(&sleeping, a));
                    }
                }
                self.lemma_recs_carry(
                    &sleeping,
                    &start,
                    polled@,
                    polled@,
                    heard,
                    hears,
                    count,
                    taken,
                    lo,
                    next,
                    taken,
                    lo,
                    next,
                );
                // The record of this poll, with one more wake delivered.
                assert(sleeping.rec_ok(&start, polled@, heard, count, taken, lo, next));
                assert forall|n: int| 0 <= n < hears[count].woken.len() implies #[trigger] self.wake_kept_mid(
                    &start,
                    polled@,
                    ix as int,
                    hears[count].woken[n].addr(),
                    taken,
                    lo,
                    next,
                ) by {
                    if n < w {
                        assert(heard[count].woken[n] == hears[count].woken[n]);
                        assert(sleeping.wake_kept_mid(
                            &start,
                            polled@,
                            ix as int,
                            heard[count].woken[n].addr(),
                            taken,
                            lo,
                            next,
                        ));
                    }
                    else {
                        assert(hears[count].woken[n] == woken[w as int]);
                    }
                }
                if !start.is_notified(ix as int) {
                    let (j, n) = choose|j: int, n: int|
                        0 <= j < count && j < heard.len() && 0 <= n < heard[j].woken.len()
                            && (#[trigger] heard[j].woken[n]).addr() == ix;
                    assert(hears[j].woken[n].addr() == ix);
                }
                assert(polled[count] == ix);
                assert(hears[count].before == heard[count].before);
                assert(sleeping.key_inv(&start, polled@, ix as int, lo, hi, false));
                assert(self.task(ix as int) == sleeping.task(ix as int));
                assert(self.is_completed(ix as int) == sleeping.is_completed(ix as int));
                assert(self.rec_ok(&start, polled@, hears, count, taken, lo, next));
                assert forall|a: int| #[trigger] self.is_notified(a) implies start.is_notified(a)
                    || woken_by(hears, count + 1, a) by {
                    if sleeping.is_notified(a) {
                        if !start.is_notified(a) {
                            assert forall|j: int| 0 <= j < heard.len() implies (#[trigger] heard[j]).woken.is_prefix_of(
                            hears[j].woken) by {}
                            lemma_woken_by_grows(heard, hears, a);
                        }
                    } else {
                        assert(a == target);
                        assert(hears[count].woken[w as int].addr() == a);
                    }
                }
            }
            w += 1;
        }
        let ghost record = PollRecord { before, after, woken: left, result: poll_result };
        proof {
            assert(left.take(w as int) =~= left);
        }
        Ghost(record)
    }

    /// Removes the task in slot `subpage_ix` of page `page_ix`, whose handle
    /// was dropped, and resets the slot.
    fn reclaim_slot(
        &mut self,
        page_ix: usize,
        subpage_ix: usize,
        Ghost(start): Ghost<Self>,
        Ghost(polled): Ghost<Seq<u64>>,
        Ghost(records): Ghost<Seq<PollRecord<F>>>,
        Ghost(taken): Ghost<u64>,
    )
        requires
            page_ix < old(self).pages.len(),
            subpage_ix < 64,
            old(self).pass_inv(&start, polled, 64 * page_ix, 64 * page_ix + 64, true),
            old(self).recs_inv(&start, polled, records, taken, 64 * page_ix, 64 * page_ix + 64),
            start.is_dropped(64 * page_ix + subpage_ix),
        ensures
            final(self).pass_inv(&start, polled, 64 * page_ix, 64 * page_ix + 64, true),
            final(self).recs_inv(&start, polled, records, taken, 64 * page_ix, 64 * page_ix + 64),
            !final(self).is_occupied(64 * page_ix + subpage_ix),
            forall|k: int|
                k != 64 * page_ix + subpage_ix ==> #[trigger] final(self).same_slot(old(self), k),
    {
        let ix = page_ix * WAKER_PAGE_SIZE + subpage_ix;
        self.slab[ix] = None;
        self.pages[page_ix].clear(subpage_ix);
        if ix < self.first_vacant {
            self.first_vacant = ix;
        }
        proof {
            let lo = 64 * page_ix as int;
            let hi = lo + 64;
            self.lemma_one_slot_changed(old(self), ix as int);
            assert forall|k: int| #[trigger]
                self.key_inv(&start, polled, k, 64 * page_ix, 64 * page_ix + 64, true) by {
                assert(old(self).key_inv(&start, polled, k, 64 * page_ix, 64 * page_ix + 64, true));
                if k != ix {
                    assert(self.same_slot(old(self), k));
                }
            }
            assert(self.wf()) by {
                assert forall|k: int|
                    0 <= k < self.slab.len() && (#[trigger] self.slab[k]) is None implies !self.is_notified(
                    k,
                ) && !self.is_completed(k) && !self.is_dropped(k) by {
                    if k != ix {
                        assert(self.same_slot(old(self), k));
                    }
                }
            }
            assert forall|i: int| 0 <= i < polled.len() implies self.task(#[trigger] polled[i] as int)
                == old(self).task(polled[i] as int) && self.is_completed(polled[i] as int) == old(
                self,
            ).is_completed(polled[i] as int) by {
                assert(!start.is_dropped(polled[i] as int));
                assert(self.same_slot(old(self), polled[i] as int));
            }
            assert forall|key: int, a: int|
                lists_key(polled, key) && old(self).wake_kept_mid(
                    &start,
                    polled,
                    key,
                    a,
                    taken,
                    lo,
                    hi,
                ) implies #[trigger] self.wake_kept_mid(&start, polled, key, a, taken, lo, hi) by {
                if a != ix {
                    assert(self.same_slot(old(self), a));
                }
            }
            self.lemma_recs_carry(
                old(self),
                &start,
                polled,
                polled,
                records,
                records,
                polled.len() as int,
                taken,
                lo,
                hi,
                taken,
                lo,
                hi,
            );
            assert forall|a: int| #[trigger] self.is_notified(a) implies start.is_notified(a)
                || woken_by(records, records.len() as int, a) by {
                if a != ix {
                    assert(self.same_slot(old(self), a));
                }
                assert(old(self).is_notified(a));
            }
        }
    }

    /// A slot that has any status bit set holds a task.
    pub proof fn lemma_status_needs_task(&self, key: int)
        requires
            self.wf(),
            self.is_notified(key) || self.is_completed(key) || self.is_dropped(key),
        ensures
            self.is_occupied(key),
    {
        assert(self.slab[key] is Some);
    }

    /// A task cannot be taken twice: once it was taken, taking it again is
    /// refused, and so is taking a task after its handle was dropped, until a
    /// new task is stored in the slot.
    pub proof fn lemma_take_and_drop_exclude(&self, before: &Self, key: int)
        requires
            before.wf(),
            self.wf(),
        ensures
            self.removed(before, key) ==> self.take_error(key) == Some(TakeError::Vacant),
            before.is_occupied(key) && self.same_tasks(before, key) && self.is_dropped(key)
                ==> self.take_error(key) == Some(TakeError::Dropped),
    {
    }

    /// If only page `key / 64` differs between two schedulers, and only in
    /// bit `key % 64` of its words, then every slot but `key` is the same in
    /// both.
    proof fn lemma_one_slot_changed(&self, before: &Self, key: int)
        requires
            self.pages.len() == before.pages.len(),
            self.slab.len() == before.slab.len(),
            self.slab.len() == 64 * self.pages.len(),
            forall|k: int| 0 <= k < self.slab.len() && k != key ==> self.slab[k] == before.slab[k],
            forall|p: int|
                0 <= p < self.pages.len() && p != key / 64 ==> self.pages[p] == before.pages[p],
            0 <= key < self.slab.len() ==> {
                let page = self.pages[key / 64];
                let other = before.pages[key / 64];
                &&& page.base() == other.base()
                &&& forall|j: int| j != key % 64 ==> page.is_notified(j) == other.is_notified(j)
                &&& forall|j: int| j != key % 64 ==> page.is_completed(j) == other.is_completed(j)
                &&& forall|j: int| j != key % 64 ==> page.is_dropped(j) == other.is_dropped(j)
            },
        ensures
            forall|k: int| k != key ==> #[trigger] self.same_slot(before, k),
            self.same_elsewhere(before, key),
    {
        assert forall|k: int| k != key implies #[trigger] self.same_slot(before, k) by {
            if 0 <= k < self.slab.len() {
                if 0 <= key < self.slab.len() && k / 64 == key / 64 {
                    assert(k % 64 != key % 64);
                }
            }
        }
        self.lemma_same_slots_elsewhere(before, key);
    }

    /// Slots that are the same one by one are the same taken together.
    proof fn lemma_same_slots_elsewhere(&self, before: &Self, key: int)
        requires
            forall|k: int| k != key ==> #[trigger] self.same_slot(before, k),
        ensures
            self.same_elsewhere(before, key),
    {
        assert forall|k: int| k != key implies #[trigger] self.is_occupied(k) == before.is_occupied(
            k,
        ) by {
            assert(self.same_slot(before, k));
        }
        assert forall|k: int| k != key && before.is_occupied(k) implies #[trigger] self.task(k)
            == before.task(k) by {
            assert(self.same_slot(before, k));
        }
        assert forall|k: int| k != key implies #[trigger] self.is_notified(k) == before.is_notified(
            k,
        ) by {
            assert(self.same_slot(before, k));
        }
        assert forall|k: int| k != key implies #[trigger] self.is_completed(k)
            == before.is_completed(k) by {
            assert(self.same_slot(before, k));
        }
        assert forall|k: int| k != key implies #[trigger] self.is_dropped(k) == before.is_dropped(
            k,
        ) by {
            assert(self.same_slot(before, k));
        }
    }
}

/// A poll pass polls no task twice: no key stands at two places in the list
/// that a pass returns.
pub proof fn lemma_no_task_polled_twice<F: Task>(
    scheduler: &mut Scheduler<F>,
    polled: Vec<u64>,
    i: int,
    j: int,
)
    requires
        call_ensures(Scheduler::<F>::poll, (scheduler,), polled),
        0 <= i < polled.len(),
        0 <= j < polled.len(),
        i != j,
    ensures
        polled[i] != polled[j],
{
    if i < j {
        assert(polled[i] < polled[j]);
    } else {
        assert(polled[j] < polled[i]);
    }
}

/// Whether `key` is one of `keys`.
pub open spec fn lists_key(keys: Seq<u64>, key: int) -> bool {
    exists|i: int| 0 <= i < keys.len() && keys[i] == key
}

/// A list with one more key lists that key and what it listed before.
pub proof fn lemma_lists_key_push(keys: Seq<u64>, added: u64, key: int)
    ensures
        lists_key(keys.push(added), key) == (lists_key(keys, key) || key == added),
{
    let longer = keys.push(added);
    if lists_key(keys, key) {
        let i = choose|i: int| 0 <= i < keys.len() && keys[i] == key;
        assert(longer[i] == key);
    }
    if key == added {
        assert(longer[keys.len() as int] == key);
    }
    if lists_key(longer, key) {
        let i = choose|i: int| 0 <= i < longer.len() && longer[i] == key;
        if i < keys.len() {
            assert(keys[i] == key);
        }
    }
}

} // verus!
