//! A page tracks the scheduling status of 64 tasks in three status words, one
//! bit per task in each: notified, completed and dropped. A page stands at an
//! address that is a multiple of 64, and the wake handle of its slot `ix` is
//! the address `base + ix`. Rounding a wake handle down to a multiple of 64
//! therefore finds its page again, and the remainder finds the slot.

use crate::collections::bits::{
    bit_is_set, bit_mask, lemma_clear_bit, lemma_mask_out, lemma_no_bit_in_zero, lemma_set_bit,
    lemma_test_bit,
};
use crate::sync::{SharedWaker, WakerU64};
use vstd::prelude::*;

verus! {

/// Number of slots in a page: the number of bits in a status word.
pub const WAKER_PAGE_SIZE: usize = 64;

/// Whether `base` can be the address of a page: a multiple of the page size
/// with room for all of the page's slots above it.
pub open spec fn is_page_base(base: int) -> bool {
    base >= 0 && base % 64 == 0 && base + 64 <= usize::MAX
}

/// The status of 64 tasks. The padding brings the page to the size of its
/// address block.
pub struct WakerPage {
    base: usize,
    notified: WakerU64,
    completed: WakerU64,
    dropped: WakerU64,
    waker: SharedWaker,
    _unused: [u8; 24],
}

/// The address of a page.
#[derive(Clone, Copy, Debug, PartialEq, Eq, Structural)]
pub struct WakerPageRef {
    base: usize,
}

/// The wake handle of one slot: the address of the slot inside its page.
#[derive(Clone, Copy, Debug, PartialEq, Eq, Structural)]
pub struct WakerRef {
    addr: usize,
}

impl WakerPage {
    /// The address of the page.
    pub closed spec fn base(&self) -> int {
        self.base as int
    }

    /// The word of slots that were woken and wait to be polled.
    pub closed spec fn notified_bits(&self) -> u64 {
        self.notified@
    }

    /// The word of slots whose task has finished.
    pub closed spec fn completed_bits(&self) -> u64 {
        self.completed@
    }

    /// The word of slots whose handle was discarded.
    pub closed spec fn dropped_bits(&self) -> u64 {
        self.dropped@
    }

    pub open spec fn is_notified(&self, ix: int) -> bool {
        bit_is_set(self.notified_bits(), ix)
    }

    pub open spec fn is_completed(&self, ix: int) -> bool {
        bit_is_set(self.completed_bits(), ix)
    }

    pub open spec fn is_dropped(&self, ix: int) -> bool {
        bit_is_set(self.dropped_bits(), ix)
    }

    pub open spec fn wf(&self) -> bool {
        is_page_base(self.base())
    }

    /// The status of every slot but `ix` is the same in `self` and `other`.
    pub open spec fn same_except(&self, other: &WakerPage, ix: int) -> bool {
        &&& self.base() == other.base()
        &&& forall|j: int|
            j != ix ==> #[trigger] bit_is_set(self.notified_bits(), j) == other.is_notified(j)
        &&& forall|j: int|
            j != ix ==> #[trigger] bit_is_set(self.completed_bits(), j) == other.is_completed(j)
        &&& forall|j: int|
            j != ix ==> #[trigger] bit_is_set(self.dropped_bits(), j) == other.is_dropped(j)
    }

    /// A page at address 0 with no slot notified, completed or dropped.
    pub fn new(waker: SharedWaker) -> (page: WakerPage)
        ensures
            page.wf(),
            page.base() == 0,
            page.notified_bits() == 0,
            page.completed_bits() == 0,
            page.dropped_bits() == 0,
    {
        Self::with_base(waker, 0)
    }

    /// A page at address `base` with no slot notified, completed or dropped.
    pub fn with_base(waker: SharedWaker, base: usize) -> (page: WakerPage)
        requires
            is_page_base(base as int),
        ensures
            page.wf(),
            page.base() == base,
            page.notified_bits() == 0,
            page.completed_bits() == 0,
            page.dropped_bits() == 0,
    {
        WakerPage {
            base,
            notified: WakerU64::new(0),
            completed: WakerU64::new(0),
            dropped: WakerU64::new(0),
            waker,
            _unused: [0u8; 24],
        }
    }

    /// The address of this page.
    pub fn page_ref(&self) -> (page: WakerPageRef)
        ensures
            page.base() == self.base(),
    {
        WakerPageRef { base: self.base }
    }

    /// The wake handle of slot `ix` of this page.
    pub fn waker(&self, ix: usize) -> (waker: WakerRef)
        requires
            self.wf(),
            ix < 64,
        ensures
            waker.addr() == self.base() + ix,
    {
        self.page_ref().waker(ix)
    }

    /// Marks slot `ix` as ready to be polled and pokes the root wake handle,
    /// so that the loop that drives the scheduler polls again.
    pub fn notify(&mut self, ix: usize)
        requires
            ix < 64,
        ensures
            final(self).notified_bits() == old(self).notified_bits() | bit_mask(ix as int),
            forall|j: int| #[trigger]
                bit_is_set(final(self).notified_bits(), j) == (old(self).is_notified(j) || j
                    == ix),
            final(self).completed_bits() == old(self).completed_bits(),
            final(self).dropped_bits() == old(self).dropped_bits(),
            final(self).base() == old(self).base(),
    {
        proof {
            lemma_set_bit(self.notified@, ix as int);
        }
        self.notified.fetch_or(1u64 << (ix as u64));
        self.waker.wake();
    }

    /// Takes the slots that are ready to be polled, and leaves none notified.
    /// A slot that has completed or was dropped is never among those taken,
    /// whether or not it was woken since.
    pub fn take_notified(&mut self) -> (taken: u64)
        ensures
            taken == old(self).notified_bits() & !old(self).completed_bits() & !old(
                self,
            ).dropped_bits(),
            forall|j: int| #[trigger]
                bit_is_set(taken, j) == (old(self).is_notified(j) && !old(self).is_completed(j)
                    && !old(self).is_dropped(j)),
            final(self).notified_bits() == 0,
            forall|j: int| !#[trigger] bit_is_set(final(self).notified_bits(), j),
            final(self).completed_bits() == old(self).completed_bits(),
            final(self).dropped_bits() == old(self).dropped_bits(),
            final(self).base() == old(self).base(),
    {
        let mut notified = self.notified.swap(0);
        proof {
            lemma_mask_out(notified, self.completed@);
            lemma_mask_out(notified & !self.completed@, self.dropped@);
            lemma_no_bit_in_zero();
        }
        notified = notified & !self.completed.load();
        notified = notified & !self.dropped.load();
        notified
    }

    pub fn has_completed(&self, ix: usize) -> (completed: bool)
        requires
            ix < 64,
        ensures
            completed == self.is_completed(ix as int),
    {
        proof {
            lemma_test_bit(self.completed@, ix as int);
        }
        self.completed.load() & (1u64 << (ix as u64)) != 0
    }

    /// Records that the task in slot `ix` has finished.
    pub fn mark_completed(&mut self, ix: usize)
        requires
            ix < 64,
        ensures
            final(self).completed_bits() == old(self).completed_bits() | bit_mask(ix as int),
            forall|j: int| #[trigger]
                bit_is_set(final(self).completed_bits(), j) == (old(self).is_completed(j) || j
                    == ix),
            final(self).notified_bits() == old(self).notified_bits(),
            final(self).dropped_bits() == old(self).dropped_bits(),
            final(self).base() == old(self).base(),
    {
        proof {
            lemma_set_bit(self.completed@, ix as int);
        }
        self.completed.fetch_or(1u64 << (ix as u64));
    }

    /// Records that the handle of slot `ix` was discarded and pokes the root
    /// wake handle, so that the slot is reclaimed soon.
    pub fn mark_dropped(&mut self, ix: usize)
        requires
            ix < 64,
        ensures
            final(self).dropped_bits() == old(self).dropped_bits() | bit_mask(ix as int),
            forall|j: int| #[trigger]
                bit_is_set(final(self).dropped_bits(), j) == (old(self).is_dropped(j) || j
                    == ix),
            final(self).notified_bits() == old(self).notified_bits(),
            final(self).completed_bits() == old(self).completed_bits(),
            final(self).base() == old(self).base(),
    {
        proof {
            lemma_set_bit(self.dropped@, ix as int);
        }
        self.dropped.fetch_or(1u64 << (ix as u64));
        self.waker.wake();
    }

    /// Takes the slots whose handle was discarded, and leaves none dropped.
    pub fn take_dropped(&mut self) -> (taken: u64)
        ensures
            taken == old(self).dropped_bits(),
            final(self).dropped_bits() == 0,
            forall|j: int| !#[trigger] bit_is_set(final(self).dropped_bits(), j),
            final(self).notified_bits() == old(self).notified_bits(),
            final(self).completed_bits() == old(self).completed_bits(),
            final(self).base() == old(self).base(),
    {
        proof {
            lemma_no_bit_in_zero();
        }
        self.dropped.swap(0)
    }

    pub fn was_dropped(&self, ix: usize) -> (dropped: bool)
        requires
            ix < 64,
        ensures
            dropped == self.is_dropped(ix as int),
    {
        proof {
            lemma_test_bit(self.dropped@, ix as int);
        }
        self.dropped.load() & (1u64 << (ix as u64)) != 0
    }

    /// Prepares slot `ix` for a new task: the task is due to be polled, and
    /// has neither completed nor been dropped.
    pub fn initialize(&mut self, ix: usize)
        requires
            ix < 64,
        ensures
            final(self).notified_bits() == old(self).notified_bits() | bit_mask(ix as int),
            final(self).completed_bits() == old(self).completed_bits() & !bit_mask(ix as int),
            final(self).dropped_bits() == old(self).dropped_bits() & !bit_mask(ix as int),
            final(self).is_notified(ix as int),
            !final(self).is_completed(ix as int),
            !final(self).is_dropped(ix as int),
            final(self).same_except(old(self), ix as int),
    {
        proof {
            lemma_set_bit(self.notified@, ix as int);
            lemma_clear_bit(self.completed@, ix as int);
            lemma_clear_bit(self.dropped@, ix as int);
        }
        self.notified.fetch_or(1u64 << (ix as u64));
        self.completed.fetch_and(!(1u64 << (ix as u64)));
        self.dropped.fetch_and(!(1u64 << (ix as u64)));
    }

    /// Resets slot `ix`, which is being taken or reclaimed: it is neither
    /// notified, completed nor dropped.
    pub fn clear(&mut self, ix: usize)
        requires
            ix < 64,
        ensures
            final(self).notified_bits() == old(self).notified_bits() & !bit_mask(ix as int),
            final(self).completed_bits() == old(self).completed_bits() & !bit_mask(ix as int),
            final(self).dropped_bits() == old(self).dropped_bits() & !bit_mask(ix as int),
            !final(self).is_notified(ix as int),
            !final(self).is_completed(ix as int),
            !final(self).is_dropped(ix as int),
            final(self).same_except(old(self), ix as int),
    {
        proof {
            lemma_clear_bit(self.notified@, ix as int);
            lemma_clear_bit(self.completed@, ix as int);
            lemma_clear_bit(self.dropped@, ix as int);
        }
        let mask = !(1u64 << (ix as u64));
        self.notified.fetch_and(mask);
        self.completed.fetch_and(mask);
        self.dropped.fetch_and(mask);
    }
}

impl WakerPageRef {
    pub closed spec fn base(&self) -> int {
        self.base as int
    }

    pub open spec fn wf(&self) -> bool {
        is_page_base(self.base())
    }

    /// The wake handle of slot `local_index` as a bare address.
    pub fn raw_waker(&self, local_index: usize) -> (raw: usize)
        requires
            self.wf(),
            local_index < 64,
        ensures
            raw == self.base() + local_index,
    {
        self.waker(local_index).into_raw_waker()
    }

    /// The wake handle of slot `ix` of the page.
    pub fn waker(&self, ix: usize) -> (waker: WakerRef)
        requires
            self.wf(),
            ix < 64,
        ensures
            waker.addr() == self.base() + ix,
    {
        WakerRef { addr: self.base + ix }
    }
}

impl WakerRef {
    /// The address of the slot this handle wakes.
    pub closed spec fn addr(&self) -> int {
        self.addr as int
    }

    /// The address of the page that holds the slot.
    pub open spec fn page_base(&self) -> int {
        self.addr() - self.addr() % 64
    }

    /// The index of the slot inside its page.
    pub open spec fn offset(&self) -> int {
        self.addr() % 64
    }

    /// The handle that stands at the address `raw`.
    pub fn from_raw(raw: usize) -> (waker: WakerRef)
        ensures
            waker.addr() == raw,
    {
        WakerRef { addr: raw }
    }

    /// The page of the slot, found by rounding the address down to a multiple
    /// of the page size, and the index of the slot inside that page.
    pub fn base_ptr(&self) -> (located: (WakerPageRef, usize))
        ensures
            located.0.base() == self.page_base(),
            located.0.base() % 64 == 0,
            located.1 == self.offset(),
            located.1 < 64,
    {
        let misalignment = self.addr % WAKER_PAGE_SIZE;
        let forward_offset = if misalignment == 0 {
            0
        } else {
            WAKER_PAGE_SIZE - misalignment
        };
        let mut base = self.addr;
        let mut offset: usize = 0;
        if forward_offset != 0 {
            offset = WAKER_PAGE_SIZE - forward_offset;
            base = self.addr - offset;
        }
        (WakerPageRef { base }, offset)
    }

    /// Wakes the slot: marks it notified in `page`, which must be its page.
    pub fn wake_by_ref(&self, page: &mut WakerPage)
        requires
            old(page).base() == self.page_base(),
        ensures
            final(page).notified_bits() == old(page).notified_bits() | bit_mask(self.offset()),
            forall|j: int| #[trigger]
                bit_is_set(final(page).notified_bits(), j) == (old(page).is_notified(j) || j
                    == self.offset()),
            final(page).completed_bits() == old(page).completed_bits(),
            final(page).dropped_bits() == old(page).dropped_bits(),
            final(page).base() == old(page).base(),
    {
        let (_, offset) = self.base_ptr();
        page.notify(offset);
    }

    /// Wakes the slot and gives up the handle.
    pub fn wake(self, page: &mut WakerPage)
        requires
            old(page).base() == self.page_base(),
        ensures
            final(page).notified_bits() == old(page).notified_bits() | bit_mask(self.offset()),
            forall|j: int| #[trigger]
                bit_is_set(final(page).notified_bits(), j) == (old(page).is_notified(j) || j
                    == self.offset()),
            final(page).completed_bits() == old(page).completed_bits(),
            final(page).dropped_bits() == old(page).dropped_bits(),
            final(page).base() == old(page).base(),
    {
        self.wake_by_ref(page)
    }

    /// The handle as a bare address.
    pub fn into_raw_waker(self) -> (raw: usize)
        ensures
            raw == self.addr(),
    {
        self.addr
    }
}

/// Waking a slot that has completed or was dropped does not bring it back:
/// the slot is not among those that the page hands out to be polled. Here
/// `notified`, `completed` and `dropped` are the words of a page, `woken` is
/// the slot that is notified before the notified slots are taken, and `slot`
/// is any slot.
pub proof fn lemma_stale_wake_is_suppressed(
    notified: u64,
    completed: u64,
    dropped: u64,
    woken: int,
    slot: int,
)
    requires
        0 <= woken < 64,
        bit_is_set(completed, slot) || bit_is_set(dropped, slot),
    ensures
        !bit_is_set((notified | bit_mask(woken)) & !completed & !dropped, slot),
{
    lemma_mask_out(notified | bit_mask(woken), completed);
    lemma_mask_out((notified | bit_mask(woken)) & !completed, dropped);
}

/// The wake handle of a slot leads back to the page it was made for and to the
/// slot's index: the address blocks of two pages never overlap.
pub proof fn lemma_waker_finds_its_slot(page: WakerPageRef, ix: int, waker: WakerRef)
    requires
        page.wf(),
        0 <= ix < 64,
        waker.addr() == page.base() + ix,
    ensures
        waker.page_base() == page.base(),
        waker.offset() == ix,
{
}

} // verus!
