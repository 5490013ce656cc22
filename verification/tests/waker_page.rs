use catnip::collections::waker_page::{WakerPage, WakerRef, WAKER_PAGE_SIZE};
use catnip::sync::{SharedWaker, WakerU64};
use std::sync::atomic::{AtomicUsize, Ordering};
use std::sync::Arc;
use std::task::{Wake, Waker};

#[test]
fn test_size() {
    assert_eq!(std::mem::size_of::<WakerPage>(), 64);
}

#[test]
fn test_basic() {
    let waker = SharedWaker::new();
    let mut p = WakerPage::new(waker);

    let q = p.waker(0);
    let r = p.waker(63);
    let s = p.waker(16);

    q.wake(&mut p);
    r.wake(&mut p);

    assert_eq!(p.take_notified(), 1 << 0 | 1 << 63);

    s.wake(&mut p);

    assert_eq!(p.take_notified(), 1 << 16);
}

#[test]
fn page_size_matches_status_word() {
    assert_eq!(WAKER_PAGE_SIZE, 64);
    assert_eq!(WAKER_PAGE_SIZE, u64::BITS as usize);
}

#[test]
fn fresh_page_has_no_status() {
    let mut p = WakerPage::new(SharedWaker::new());
    for ix in 0..64 {
        assert!(!p.has_completed(ix));
        assert!(!p.was_dropped(ix));
    }
    assert_eq!(p.take_notified(), 0);
    assert_eq!(p.take_dropped(), 0);
}

#[test]
fn initialize_makes_slot_due() {
    let mut p = WakerPage::new(SharedWaker::new());
    p.mark_completed(5);
    p.mark_dropped(5);
    p.initialize(5);
    assert!(!p.has_completed(5));
    assert!(!p.was_dropped(5));
    assert_eq!(p.take_notified(), 1 << 5);
}

#[test]
fn take_notified_clears_the_word() {
    let mut p = WakerPage::new(SharedWaker::new());
    p.notify(3);
    p.notify(3);
    p.notify(40);
    assert_eq!(p.take_notified(), (1 << 3) | (1 << 40));
    assert_eq!(p.take_notified(), 0);
}

#[test]
fn completed_slot_is_not_handed_out() {
    let mut p = WakerPage::new(SharedWaker::new());
    p.initialize(1);
    p.initialize(2);
    assert_eq!(p.take_notified(), 0b110);
    p.mark_completed(1);
    // A wake that arrives after completion is suppressed.
    p.notify(1);
    p.notify(2);
    assert_eq!(p.take_notified(), 0b100);
    // The stale wake was cleared, not kept for later.
    assert_eq!(p.take_notified(), 0);
    assert!(p.has_completed(1));
}

#[test]
fn dropped_slot_is_not_handed_out() {
    let mut p = WakerPage::new(SharedWaker::new());
    p.initialize(7);
    p.initialize(8);
    p.mark_dropped(7);
    assert!(p.was_dropped(7));
    assert!(!p.was_dropped(8));
    p.notify(7);
    assert_eq!(p.take_notified(), 1 << 8);
    assert_eq!(p.take_dropped(), 1 << 7);
    assert_eq!(p.take_dropped(), 0);
    assert!(!p.was_dropped(7));
}

#[test]
fn clear_resets_one_slot_only() {
    let mut p = WakerPage::new(SharedWaker::new());
    for ix in [0usize, 31, 63] {
        p.initialize(ix);
        p.mark_completed(ix);
        p.mark_dropped(ix);
    }
    p.clear(31);
    assert!(!p.has_completed(31));
    assert!(!p.was_dropped(31));
    assert!(p.has_completed(0) && p.has_completed(63));
    assert!(p.was_dropped(0) && p.was_dropped(63));
    p.clear(0);
    p.clear(63);
    p.notify(0);
    p.notify(31);
    p.notify(63);
    assert_eq!(p.take_notified(), 1 | (1 << 31) | (1 << 63));
}

#[test]
fn wake_handle_is_page_address_plus_offset() {
    let p = WakerPage::with_base(SharedWaker::new(), 128);
    let page = p.page_ref();
    for ix in [0usize, 1, 17, 63] {
        let waker = p.waker(ix);
        assert_eq!(waker.into_raw_waker(), 128 + ix);
        assert_eq!(page.raw_waker(ix), 128 + ix);
        let (base, offset) = waker.base_ptr();
        assert_eq!(base, page);
        assert_eq!(offset, ix);
    }
}

#[test]
fn base_ptr_rounds_down_to_page() {
    for (addr, base, offset) in [(0usize, 0usize, 0usize), (63, 0, 63), (64, 64, 0), (65, 64, 1), (1000, 960, 40)] {
        let (page, ix) = WakerRef::from_raw(addr).base_ptr();
        assert_eq!(page, WakerPage::with_base(SharedWaker::new(), base).page_ref());
        assert_eq!(ix, offset);
    }
}

#[test]
fn wake_by_ref_notifies_own_slot() {
    let mut p = WakerPage::with_base(SharedWaker::new(), 64);
    let w = p.waker(9);
    w.wake_by_ref(&mut p);
    w.wake_by_ref(&mut p);
    assert_eq!(p.take_notified(), 1 << 9);
}

struct CountingWaker {
    wakes: AtomicUsize,
}

impl Wake for CountingWaker {
    fn wake(self: Arc<Self>) {
        self.wakes.fetch_add(1, Ordering::SeqCst);
    }
}

#[test]
fn notify_pokes_the_root_waker() {
    let counter = Arc::new(CountingWaker { wakes: AtomicUsize::new(0) });
    let root = SharedWaker::new();
    root.register(&Waker::from(counter.clone()));
    let mut p = WakerPage::new(root.clone());
    assert_eq!(counter.wakes.load(Ordering::SeqCst), 0);
    p.notify(2);
    assert_eq!(counter.wakes.load(Ordering::SeqCst), 1);
    // The registered waker is used up by a wake.
    root.register(&Waker::from(counter.clone()));
    p.mark_dropped(2);
    assert_eq!(counter.wakes.load(Ordering::SeqCst), 2);
    root.register(&Waker::from(counter.clone()));
    root.wake();
    assert_eq!(counter.wakes.load(Ordering::SeqCst), 3);
    // Marking a slot completed wakes nobody.
    root.register(&Waker::from(counter.clone()));
    p.mark_completed(2);
    assert_eq!(counter.wakes.load(Ordering::SeqCst), 3);
}

#[test]
fn waker_u64_operations() {
    let mut w = WakerU64::new(0b1010);
    assert_eq!(w.load(), 0b1010);
    w.fetch_or(0b0101);
    assert_eq!(w.load(), 0b1111);
    w.fetch_and(0b0110);
    assert_eq!(w.load(), 0b0110);
    assert_eq!(w.fetch_add(10), 6);
    assert_eq!(w.load(), 16);
    assert_eq!(w.fetch_sub(1), 16);
    assert_eq!(w.load(), 15);
    assert_eq!(w.swap(99), 15);
    assert_eq!(w.load(), 99);
}

#[test]
fn waker_u64_wraps_around() {
    let mut w = WakerU64::new(u64::MAX);
    assert_eq!(w.fetch_add(2), u64::MAX);
    assert_eq!(w.load(), 1);
    assert_eq!(w.fetch_sub(3), 1);
    assert_eq!(w.load(), u64::MAX - 1);
}
