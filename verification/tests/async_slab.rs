use catnip::collections::async_slab::{AsyncSlab, ResultFuture, Work};
use catnip::collections::bits::iter_set_bits;
use catnip::collections::waker_page::WakerRef;
use catnip::scheduler::{Context, Poll};
use std::task::Waker;

/// Produces its number at its poll numbered `finish_at`, and wakes itself
/// until then if `eager` is set.
struct Countdown {
    number: u32,
    polls: usize,
    finish_at: usize,
    eager: bool,
}

impl Countdown {
    fn new(number: u32, finish_at: usize) -> Self {
        Countdown { number, polls: 0, finish_at, eager: false }
    }
}

impl Work for Countdown {
    type Output = u32;

    fn poll(&mut self, ctx: &mut Context) -> Option<u32> {
        self.polls += 1;
        if self.polls >= self.finish_at {
            return Some(self.number);
        }
        if self.eager {
            ctx.wake_by_ref();
        }
        None
    }
}

#[test]
fn set_bits_in_ascending_order() {
    assert_eq!(iter_set_bits(0), Vec::<usize>::new());
    assert_eq!(iter_set_bits(1), vec![0]);
    assert_eq!(iter_set_bits(1 << 63), vec![63]);
    assert_eq!(iter_set_bits(0b1000_0001), vec![0, 7]);
    assert_eq!(iter_set_bits(0x10001), vec![0, 16]);
    assert_eq!(iter_set_bits(u64::MAX), (0..64).collect::<Vec<usize>>());
    assert_eq!(iter_set_bits(0xaaaa_aaaa_aaaa_aaaa), (0..32).map(|i| 2 * i + 1).collect::<Vec<usize>>());
}

#[test]
fn result_future_keeps_the_product() {
    let mut future = ResultFuture::Pending(Countdown::new(9, 2));
    let mut ctx = Context::new(WakerRef::from_raw(0));
    assert_eq!(future.poll(&mut ctx), Poll::Pending);
    assert!(matches!(future, ResultFuture::Pending(_)));
    assert_eq!(future.poll(&mut ctx), Poll::Ready);
    assert!(matches!(future, ResultFuture::Done(9)));
}

#[test]
fn slab_is_empty_at_first() {
    let mut slab: AsyncSlab<Countdown> = AsyncSlab::new();
    assert!(slab.is_empty());
    assert_eq!(slab.len(), 0);
    assert_eq!(slab.check_ready(0), None);
    assert_eq!(slab.poll(Waker::noop()), Vec::<u64>::new());
}

#[test]
fn slab_hands_out_products_once() {
    let mut slab = AsyncSlab::new();
    let quick = slab.insert(Countdown::new(10, 1));
    let slow = slab.insert(Countdown::new(20, 2));
    assert_eq!((quick, slow), (0, 1));
    assert_eq!(slab.len(), 2);
    assert!(!slab.is_empty());
    // Nothing is ready before a poll.
    assert_eq!(slab.check_ready(quick), None);
    assert_eq!(slab.poll(Waker::noop()), vec![0, 1]);
    assert_eq!(slab.check_ready(slow), None);
    assert_eq!(slab.check_ready(quick), Some(10));
    assert_eq!(slab.check_ready(quick), None);
    assert_eq!(slab.len(), 1);
    // The slow one sleeps until it is woken.
    assert_eq!(slab.poll(Waker::noop()), Vec::<u64>::new());
    slab.wake(WakerRef::from_raw(slow));
    assert_eq!(slab.poll(Waker::noop()), vec![1]);
    assert_eq!(slab.check_ready(slow), Some(20));
    assert!(slab.is_empty());
    assert_eq!(slab.check_ready(9999), None);
}

#[test]
fn slab_reuses_slots_and_grows_by_pages() {
    let mut slab = AsyncSlab::new();
    for number in 0..130 {
        assert_eq!(slab.insert(Countdown::new(number, 1)), number as usize);
    }
    assert_eq!(slab.len(), 130);
    assert_eq!(slab.poll(Waker::noop()), (0..130).collect::<Vec<u64>>());
    assert_eq!(slab.check_ready(64), Some(64));
    assert_eq!(slab.check_ready(3), Some(3));
    assert_eq!(slab.insert(Countdown::new(1000, 1)), 3);
    assert_eq!(slab.insert(Countdown::new(1001, 1)), 64);
    assert_eq!(slab.insert(Countdown::new(1002, 1)), 130);
    // Finished work is not polled again; the new work is.
    assert_eq!(slab.poll(Waker::noop()), vec![3, 64, 130]);
    assert_eq!(slab.check_ready(3), Some(1000));
    assert_eq!(slab.check_ready(129), Some(129));
    assert_eq!(slab.len(), 129);
}

#[test]
fn slab_defers_wakes_of_the_page_under_way() {
    let mut slab = AsyncSlab::new();
    let mut eager = Countdown::new(1, 3);
    eager.eager = true;
    let key = slab.insert(eager);
    // The work wakes itself in each poll: one poll per pass all the same.
    assert_eq!(slab.poll(Waker::noop()), vec![0]);
    assert_eq!(slab.check_ready(key), None);
    assert_eq!(slab.poll(Waker::noop()), vec![0]);
    assert_eq!(slab.poll(Waker::noop()), vec![0]);
    assert_eq!(slab.check_ready(key), Some(1));
    assert_eq!(slab.poll(Waker::noop()), Vec::<u64>::new());
    // A wake for a vacant slot is dropped.
    slab.wake(WakerRef::from_raw(key));
    assert_eq!(slab.insert(Countdown::new(2, 5)), key);
    assert_eq!(slab.poll(Waker::noop()), vec![0]);
    assert_eq!(slab.poll(Waker::noop()), Vec::<u64>::new());
}
