use catnip::collections::waker_page::WakerRef;
use catnip::collections::watched::WatchedValue;
use catnip::scheduler::{Context, Operation, Poll, Scheduler, TakeError, Task, MAX_PAGES};
use std::cell::{Cell, RefCell};
use std::rc::Rc;

/// Finishes at its first poll.
struct Immediate {
    id: usize,
}

impl Task for Immediate {
    fn poll(&mut self, _ctx: &mut Context) -> Poll {
        Poll::Ready
    }
}

/// Counts its polls, finishes at the poll numbered `finish_at`, and wakes
/// `wakes` each time, `times` times over.
struct Scripted {
    polls: Rc<Cell<usize>>,
    finish_at: usize,
    wakes: Vec<usize>,
    times: usize,
    wake_self: bool,
}

impl Scripted {
    fn new(polls: &Rc<Cell<usize>>, finish_at: usize) -> Self {
        Scripted { polls: polls.clone(), finish_at, wakes: vec![], times: 1, wake_self: false }
    }
}

impl Task for Scripted {
    fn poll(&mut self, ctx: &mut Context) -> Poll {
        self.polls.set(self.polls.get() + 1);
        for _ in 0..self.times {
            for addr in &self.wakes {
                ctx.wake(WakerRef::from_raw(*addr));
            }
            if self.wake_self {
                ctx.wake_by_ref();
            }
        }
        if self.polls.get() >= self.finish_at {
            Poll::Ready
        } else {
            Poll::Pending
        }
    }
}

fn counter() -> Rc<Cell<usize>> {
    Rc::new(Cell::new(0))
}

#[test]
fn new_scheduler_is_empty() {
    let mut s: Scheduler<Immediate> = Scheduler::new();
    assert_eq!(s.page_count(), 0);
    assert!(s.from_raw_handle(0).is_none());
    assert_eq!(s.poll(), Vec::<u64>::new());
    assert_eq!(s.page_count(), 0);
}

#[test]
fn sixty_five_tasks_complete_in_one_pass() {
    let mut s = Scheduler::new();
    let mut handles = vec![];
    for id in 0..65 {
        handles.push(s.insert(Immediate { id }));
    }
    assert_eq!(s.page_count(), 2);
    for h in &handles {
        assert!(!h.has_completed(&s));
    }
    let polled = s.poll();
    assert_eq!(polled, (0..65).collect::<Vec<u64>>());
    for h in &handles {
        assert!(h.has_completed(&s));
    }
    // Each handle leads to the task it was given for.
    for (id, h) in handles.into_iter().enumerate() {
        assert_eq!(s.take(h).id, id);
    }
    // Nothing is left to poll.
    assert_eq!(s.poll(), Vec::<u64>::new());
}

#[test]
fn insert_uses_first_vacant_slot() {
    let mut s = Scheduler::new();
    let a = s.insert(Immediate { id: 0 });
    let b = s.insert(Immediate { id: 1 });
    let c = s.insert(Immediate { id: 2 });
    assert_eq!(b.into_raw(), 1);
    assert_eq!(c.into_raw(), 2);
    s.poll();
    assert_eq!(s.take(a).id, 0);
    let d = s.insert(Immediate { id: 3 });
    assert_eq!(d.into_raw(), 0);
    let e = s.insert(Immediate { id: 4 });
    assert_eq!(e.into_raw(), 3);
}

#[test]
fn pending_task_is_polled_only_when_woken() {
    let polls = counter();
    let mut s = Scheduler::new();
    let h = s.insert(Scripted::new(&polls, 3));
    assert_eq!(s.poll(), vec![0]);
    assert_eq!(polls.get(), 1);
    // Not woken: not polled.
    assert_eq!(s.poll(), Vec::<u64>::new());
    assert_eq!(s.poll(), Vec::<u64>::new());
    assert_eq!(polls.get(), 1);
    assert!(!h.has_completed(&s));
    s.wake(WakerRef::from_raw(0));
    assert_eq!(s.poll(), vec![0]);
    assert_eq!(polls.get(), 2);
    s.wake(WakerRef::from_raw(0));
    assert_eq!(s.poll(), vec![0]);
    assert_eq!(polls.get(), 3);
    assert!(h.has_completed(&s));
}

#[test]
fn many_wakes_make_one_poll() {
    let polls = counter();
    let mut s = Scheduler::new();
    let _h = s.insert(Scripted::new(&polls, 100));
    s.poll();
    assert_eq!(polls.get(), 1);
    for _ in 0..10 {
        s.wake(WakerRef::from_raw(0));
    }
    assert_eq!(s.poll(), vec![0]);
    assert_eq!(polls.get(), 2);
    assert_eq!(s.poll(), Vec::<u64>::new());
    assert_eq!(polls.get(), 2);
}

#[test]
fn wakes_during_a_pass_wait_for_the_next() {
    let first = counter();
    let second = counter();
    let mut s = Scheduler::new();
    // Task 0 wakes itself and task 1 five times over in each poll.
    let mut t0 = Scripted::new(&first, 100);
    t0.wakes = vec![1];
    t0.times = 5;
    t0.wake_self = true;
    // Task 1 wakes task 0, whose page was visited already.
    let mut t1 = Scripted::new(&second, 100);
    t1.wakes = vec![0];
    t1.times = 3;
    let _h0 = s.insert(t0);
    let _h1 = s.insert(t1);
    assert_eq!(s.poll(), vec![0, 1]);
    assert_eq!((first.get(), second.get()), (1, 1));
    // Both were woken during the pass: each is polled once in the next.
    assert_eq!(s.poll(), vec![0, 1]);
    assert_eq!((first.get(), second.get()), (2, 2));
}

#[test]
fn wake_of_later_page_is_served_in_same_pass() {
    let early = counter();
    let late = counter();
    let mut s = Scheduler::new();
    let mut t0 = Scripted::new(&early, 100);
    t0.wakes = vec![64];
    let _h0 = s.insert(t0);
    let _h1 = s.insert_page(Scripted::new(&late, 100), 1);
    assert_eq!(s.poll(), vec![0, 64]);
    // Task 64 was not due at the start of this pass, but task 0 woke it
    // before its page was reached.
    s.wake(WakerRef::from_raw(0));
    assert_eq!(s.poll(), vec![0, 64]);
    assert_eq!((early.get(), late.get()), (2, 2));
}

#[test]
fn completed_task_is_never_polled_again() {
    let polls = counter();
    let mut s = Scheduler::new();
    let h = s.insert(Scripted::new(&polls, 1));
    assert_eq!(s.poll(), vec![0]);
    assert!(h.has_completed(&s));
    s.wake(WakerRef::from_raw(0));
    s.wake(WakerRef::from_raw(0));
    assert_eq!(s.poll(), Vec::<u64>::new());
    assert_eq!(polls.get(), 1);
    assert!(h.has_completed(&s));
    let task = s.take(h);
    assert_eq!(task.polls.get(), 1);
}

#[test]
fn dropped_task_is_reclaimed_not_polled() {
    let polls = counter();
    let other = counter();
    let mut s = Scheduler::new();
    let h = s.insert(Scripted::new(&polls, 5));
    let _k = s.insert(Scripted::new(&other, 5));
    s.drop_handle(h);
    // Dropping does not remove the task at once.
    assert!(s.from_raw_handle(0).is_some());
    assert_eq!(s.poll(), vec![1]);
    assert_eq!(polls.get(), 0);
    // The pass reclaimed the slot.
    assert!(s.from_raw_handle(0).is_none());
    assert!(s.from_raw_handle(1).is_some());
    // The slot is free for the next task.
    let fresh = s.insert(Scripted::new(&polls, 5));
    assert_eq!(fresh.into_raw(), 0);
    assert_eq!(s.poll(), vec![0]);
    assert_eq!(polls.get(), 1);
}

#[test]
fn take_is_refused_unless_due() {
    let polls = counter();
    let mut s = Scheduler::new();
    let pending = s.insert(Scripted::new(&polls, 2));
    let done = s.insert(Scripted::new(&counter(), 1));
    let dropped = s.insert(Scripted::new(&counter(), 1));
    s.poll();
    // Not finished yet.
    assert!(matches!(s.try_take(pending), Err(TakeError::Pending)));
    // Dropped, though finished.
    let dropped_key = dropped.into_raw();
    s.drop_handle(s.from_raw_handle(dropped_key).unwrap());
    assert!(matches!(
        s.try_take(s.from_raw_handle(dropped_key).unwrap()),
        Err(TakeError::Dropped)
    ));
    // Dropping twice changes nothing more.
    s.drop_handle(s.from_raw_handle(dropped_key).unwrap());
    // Finished and held: taken, once.
    let done_key = done.into_raw();
    assert!(s.try_take(s.from_raw_handle(done_key).unwrap()).is_ok());
    assert!(s.from_raw_handle(done_key).is_none());
    // The refusals and the take left the other tasks alone.
    let pending = s.from_raw_handle(0).unwrap();
    assert!(!pending.has_completed(&s));
    s.wake(WakerRef::from_raw(0));
    assert_eq!(s.poll(), vec![0]);
    assert!(pending.has_completed(&s));
    assert!(s.try_take(pending).is_ok());
    // The dropped slot was reclaimed by the pass.
    assert!(s.from_raw_handle(dropped_key).is_none());
}

#[test]
fn take_of_unknown_key_is_refused() {
    let mut s = Scheduler::new();
    let h = s.insert(Immediate { id: 7 });
    s.poll();
    let mut other: Scheduler<Immediate> = Scheduler::new();
    // A handle of another scheduler finds nothing here.
    assert!(!h.has_completed(&other));
    assert!(matches!(other.try_take(h), Err(TakeError::Vacant)));
    assert_eq!(s.take(s.from_raw_handle(0).unwrap()).id, 7);
    assert!(s.from_raw_handle(0).is_none());
    assert!(s.from_raw_handle(64).is_none());
    assert!(s.from_raw_handle(u64::MAX).is_none());
}

#[test]
fn wake_of_vacant_slot_changes_nothing() {
    let mut s: Scheduler<Immediate> = Scheduler::new();
    s.wake(WakerRef::from_raw(0));
    s.wake(WakerRef::from_raw(12345));
    let h = s.insert(Immediate { id: 0 });
    s.wake(WakerRef::from_raw(5));
    s.wake(WakerRef::from_raw(64));
    assert_eq!(s.poll(), vec![0]);
    // No stale wake is waiting for the task that takes slot 5 later.
    for id in 1..6 {
        s.insert(Immediate { id });
    }
    assert_eq!(s.poll(), vec![1, 2, 3, 4, 5]);
    assert!(h.has_completed(&s));
}

#[test]
fn lanes_select_pages() {
    let mut s = Scheduler::new();
    let high = s.insert_page(Immediate { id: 1 }, 2);
    assert_eq!(s.page_count(), 3);
    let low = s.insert_page(Immediate { id: 0 }, 0);
    let mid = s.insert_page(Immediate { id: 2 }, 1);
    assert_eq!(s.page_count(), 3);
    let (high, low, mid) = (high.into_raw(), low.into_raw(), mid.into_raw());
    assert_eq!((low, mid, high), (0, 64, 128));
    // Lower lanes are polled first, whatever the order of insertion.
    assert_eq!(s.poll(), vec![0, 64, 128]);
    assert_eq!(s.take(s.from_raw_handle(high).unwrap()).id, 1);
    assert_eq!(s.take(s.from_raw_handle(low).unwrap()).id, 0);
    assert_eq!(s.take(s.from_raw_handle(mid).unwrap()).id, 2);
}

#[test]
fn lanes_never_share_a_slot() {
    let mut s = Scheduler::new();
    let mut keys = vec![];
    // Lane 0 overflows into the page where lane 1 starts.
    for id in 0..70 {
        keys.push((s.insert(Immediate { id }).into_raw(), id));
    }
    for id in 70..140 {
        keys.push((s.insert_page(Immediate { id }, 1).into_raw(), id));
    }
    let mut seen: Vec<u64> = keys.iter().map(|(k, _)| *k).collect();
    seen.sort();
    seen.dedup();
    assert_eq!(seen.len(), 140);
    assert!(keys[70..].iter().all(|(k, _)| *k >= 64));
    // The first vacant slot of lane 1 came after the six tasks of lane 0 in
    // its page.
    assert_eq!(keys[70].0, 70);
    let polled = s.poll();
    assert_eq!(polled, seen);
    for (key, id) in keys {
        assert_eq!(s.take(s.from_raw_handle(key).unwrap()).id, id);
    }
}

#[test]
fn largest_lane_is_below_page_limit() {
    assert_eq!(MAX_PAGES, 0x3ff_ffff);
    assert!((MAX_PAGES as u64 + 1) * 64 <= u32::MAX as u64 + 1);
}

/// Waits for a watched value to become `target`.
struct Watcher {
    cell: Rc<RefCell<WatchedValue<u32>>>,
    target: u32,
    polls: Rc<Cell<usize>>,
}

impl Task for Watcher {
    fn poll(&mut self, ctx: &mut Context) -> Poll {
        self.polls.set(self.polls.get() + 1);
        if self.cell.borrow_mut().watch(ctx.waker()) == self.target {
            Poll::Ready
        } else {
            Poll::Pending
        }
    }
}

fn deliver(s: &mut Scheduler<Watcher>, woken: Vec<WakerRef>) -> usize {
    let n = woken.len();
    for w in woken {
        s.wake(w);
    }
    n
}

#[test]
fn watcher_is_polled_once_per_write() {
    let cell = Rc::new(RefCell::new(WatchedValue::new(0u32)));
    let polls = counter();
    let mut s = Scheduler::new();
    let h = s.insert(Watcher { cell: cell.clone(), target: 9, polls: polls.clone() });
    assert_eq!(s.poll(), vec![0]);
    assert_eq!(polls.get(), 1);
    // Nothing was written: the task sleeps.
    assert_eq!(s.poll(), Vec::<u64>::new());
    assert_eq!(polls.get(), 1);
    // A write of the value that is already there is a write.
    let woken = cell.borrow_mut().set(0);
    assert_eq!(deliver(&mut s, woken), 1);
    assert_eq!(s.poll(), vec![0]);
    assert_eq!(polls.get(), 2);
    // The same value again: one more wake, one more poll.
    let woken = cell.borrow_mut().set(0);
    assert_eq!(deliver(&mut s, woken), 1);
    assert_eq!(s.poll(), vec![0]);
    assert_eq!(polls.get(), 3);
    // Two writes before the next pass: the second finds nobody watching.
    let woken = cell.borrow_mut().set(5);
    assert_eq!(deliver(&mut s, woken), 1);
    let woken = cell.borrow_mut().set(9);
    assert_eq!(deliver(&mut s, woken), 0);
    assert_eq!(s.poll(), vec![0]);
    assert_eq!(polls.get(), 4);
    assert!(h.has_completed(&s));
    assert_eq!(cell.borrow().get(), 9);
}

#[test]
fn watch_registers_a_task_once() {
    let mut cell = WatchedValue::new(1u8);
    let a = WakerRef::from_raw(3);
    let b = WakerRef::from_raw(70);
    assert_eq!(cell.watch(a), 1);
    assert_eq!(cell.watch(b), 1);
    assert_eq!(cell.watch(a), 1);
    cell.set_without_notify(2);
    assert_eq!(cell.get(), 2);
    assert_eq!(cell.set(3), vec![a, b]);
    assert_eq!(cell.set(4), vec![]);
    assert_eq!(cell.get(), 4);
}

#[test]
fn operation_polls_its_task() {
    let polls = counter();
    let mut s: Scheduler<Operation<Immediate, Scripted, Scripted>> = Scheduler::new();
    let tcp = s.insert(Operation::Tcp(Immediate { id: 1 }));
    let udp = s.insert(Operation::Udp(Scripted::new(&polls, 2)));
    let background = s.insert(Operation::Background(Scripted::new(&polls, 100)));
    assert_eq!(s.poll(), vec![0, 1, 2]);
    assert_eq!(polls.get(), 2);
    assert!(tcp.has_completed(&s));
    assert!(!udp.has_completed(&s));
    assert!(!background.has_completed(&s));
    s.wake(WakerRef::from_raw(1));
    assert_eq!(s.poll(), vec![1]);
    assert!(udp.has_completed(&s));
    assert!(matches!(s.take(tcp), Operation::Tcp(Immediate { id: 1 })));
}
