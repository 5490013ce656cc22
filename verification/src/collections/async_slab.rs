//! A store of pieces of work that keeps what each of them produces until it
//! is asked for. The work is polled like the tasks of the scheduler: a piece
//! is polled when it was woken, and its wake handle is its key.

use crate::collections::bits::{
    bit_is_set, bit_mask, iter_set_bits, lemma_and_zero, lemma_no_bit_in_zero,
};
use crate::collections::waker_page::{WakerPage, WakerRef, WAKER_PAGE_SIZE};
use crate::scheduler::{
    lemma_lists_key_push, lemma_woken_by_grows, lists_key, woken_by, Context, Poll, PollRecord,
    MAX_PAGES,
};
use crate::sync::SharedWaker;
use std::task::Waker;
use vstd::prelude::*;

verus! {

/// A piece of work that produces a value when it finishes.
pub trait Work {
    /// What the work produces.
    type Output;

    /// Advances the work as far as it can go without waiting, and returns
    /// what it has produced if it has finished.
    fn poll(&mut self, ctx: &mut Context) -> Option<Self::Output>;
}

/// A piece of work, or what it has produced.
pub enum ResultFuture<F: Work> {
    Pending(F),
    Done(F::Output),
}

impl<F: Work> ResultFuture<F> {
    /// Polls the work, which must not have finished before, once. Where the
    /// poll produces nothing, the work stays, as the poll has left it. Where
    /// it produces a value, that value is kept in place of the work. The
    /// context afterwards is what the poll of the work has made of it.
    pub fn poll(&mut self, ctx: &mut Context) -> (poll: Poll)
        requires
            *old(self) is Pending,
        ensures
            poll == Poll::Ready <==> *final(self) is Done,
            poll == Poll::Pending <==> *final(self) is Pending,
            exists|work: &mut F, inner: &mut Context, produced: Option<F::Output>|
                mut_ref_current(work) == old(self)->Pending_0
                    && mut_ref_current(inner) == *old(ctx)
                    && mut_ref_future(inner) == *final(ctx)
                    && #[trigger] call_ensures(F::poll, (work, inner), produced)
                    && *final(self) == (match produced {
                    None => ResultFuture::<F>::Pending(mut_ref_future(work)),
                    Some(out) => ResultFuture::<F>::Done(out),
                }),
    {
        let result = match self {
            ResultFuture::Pending(f) => f.poll(ctx),
            ResultFuture::Done(_) => None,
        };
        match result {
            None => Poll::Pending,
            Some(out) => {
                *self = ResultFuture::Done(out);
                Poll::Ready
            },
        }
    }
}

/// How many of `slots` are taken.
pub open spec fn count_taken<T>(slots: Seq<Option<T>>) -> nat
    decreases slots.len(),
{
    if slots.len() == 0 {
        0
    } else {
        count_taken(slots.drop_last()) + if slots.last() is Some {
            1nat
        } else {
            0nat
        }
    }
}

proof fn lemma_count_update<T>(slots: Seq<Option<T>>, i: int, slot: Option<T>)
    requires
        0 <= i < slots.len(),
    ensures
        count_taken(slots.update(i, slot)) + (if slots[i] is Some {
            1nat
        } else {
            0nat
        }) == count_taken(slots) + (if slot is Some {
            1nat
        } else {
            0nat
        }),
        count_taken(slots) <= slots.len(),
    decreases slots.len(),
{
    let updated = slots.update(i, slot);
    if i == slots.len() - 1 {
        assert(updated.drop_last() =~= slots.drop_last());
        lemma_count_bound(slots.drop_last());
    } else {
        assert(updated.drop_last() =~= slots.drop_last().update(i, slot));
        lemma_count_update(slots.drop_last(), i, slot);
    }
}

proof fn lemma_count_bound<T>(slots: Seq<Option<T>>)
    ensures
        count_taken(slots) <= slots.len(),
    decreases slots.len(),
{
    if slots.len() > 0 {
        lemma_count_bound(slots.drop_last());
    }
}

proof fn lemma_count_push_vacant<T>(slots: Seq<Option<T>>)
    ensures
        count_taken(slots.push(None)) == count_taken(slots),
{
    assert(slots.push(None).drop_last() =~= slots);
}

/// The store.
pub struct AsyncSlab<F: Work> {
    slab: Vec<Option<ResultFuture<F>>>,
    pages: Vec<WakerPage>,
    len: usize,
    root_waker: SharedWaker,
}

impl<F: Work> AsyncSlab<F> {
    /// The number of pages: the store has room for 64 pieces of work in each.
    pub closed spec fn num_pages(&self) -> int {
        self.pages.len() as int
    }

    /// How many pieces of work are stored, finished or not.
    pub closed spec fn count(&self) -> nat {
        count_taken(self.slab@)
    }

    /// Whether a piece of work is stored under `key`.
    pub closed spec fn contains(&self, key: int) -> bool {
        0 <= key < self.slab.len() && self.slab[key] is Some
    }

    /// What is stored under `key`.
    pub closed spec fn entry(&self, key: int) -> ResultFuture<F>
        recommends
            self.contains(key),
    {
        self.slab[key]->0
    }

    /// Whether the work under `key` has finished and its product waits.
    pub open spec fn is_ready(&self, key: int) -> bool {
        self.contains(key) && self.entry(key) is Done
    }

    /// Whether the work under `key` was woken and waits to be polled.
    pub closed spec fn is_notified(&self, key: int) -> bool {
        0 <= key < 64 * self.pages.len() && self.pages[key / 64].is_notified(key % 64)
    }

    /// Whether the page of `key` has the slot marked as finished.
    closed spec fn is_marked(&self, key: int) -> bool {
        0 <= key < 64 * self.pages.len() && self.pages[key / 64].is_completed(key % 64)
    }

    /// The store has one slot for each bit of each page, page `p` stands at
    /// address `64 * p`, no slot is marked dropped, a slot without work has
    /// no status bit set, and a slot is marked as finished exactly when it
    /// holds a product.
    pub closed spec fn wf(&self) -> bool {
        &&& self.slab.len() == 64 * self.pages.len()
        &&& self.pages.len() <= MAX_PAGES
        &&& self.len == count_taken(self.slab@)
        &&& forall|p: int|
            0 <= p < self.pages.len() ==> (#[trigger] self.pages[p]).base() == 64 * p
                && self.pages[p].dropped_bits() == 0
        &&& forall|k: int|
            0 <= k < self.slab.len() ==> match #[trigger] self.slab[k] {
                None => !self.is_notified(k) && !self.is_marked(k),
                Some(entry) => entry is Done <==> self.is_marked(k),
            }
    }

    /// Every slot but `key` holds the same in `self` and in `before`, and is
    /// due in the one if it is due in the other.
    pub open spec fn same_elsewhere(&self, before: &Self, key: int) -> bool {
        &&& forall|k: int| k != key ==> #[trigger] self.contains(k) == before.contains(k)
        &&& forall|k: int| k != key && before.contains(k) ==> #[trigger] self.entry(k) == before.entry(k)
        &&& forall|k: int| k != key ==> #[trigger] self.is_notified(k) == before.is_notified(k)
    }

    /// A store without pages and without work.
    pub fn new() -> (store: Self)
        ensures
            store.wf(),
            store.num_pages() == 0,
            store.count() == 0,
            forall|k: int| !store.contains(k),
    {
        AsyncSlab { slab: Vec::new(), pages: Vec::new(), len: 0, root_waker: SharedWaker::new() }
    }

    /// Appends one page, and 64 empty slots to the store.
    fn push_page(&mut self)
        requires
            old(self).wf(),
            old(self).pages.len() < MAX_PAGES,
        ensures
            final(self).wf(),
            final(self).pages.len() == old(self).pages.len() + 1,
            final(self).count() == old(self).count(),
            final(self).same_elsewhere(old(self), -1),
    {
        let base = self.pages.len() * WAKER_PAGE_SIZE;
        let page = WakerPage::with_base(self.root_waker.clone(), base);
        proof {
            lemma_no_bit_in_zero();
        }
        self.pages.push(page);
        let mut added: usize = 0;
        while added < WAKER_PAGE_SIZE
            invariant
                added <= 64,
                self.pages.len() == old(self).pages.len() + 1,
                self.pages.len() <= MAX_PAGES,
                self.len == old(self).len,
                self.slab.len() == old(self).slab.len() + added,
                old(self).slab.len() == 64 * old(self).pages.len(),
                count_taken(self.slab@) == count_taken(old(self).slab@),
                forall|k: int| 0 <= k < old(self).slab.len() ==> self.slab[k] == old(self).slab[k],
                forall|k: int| old(self).slab.len() <= k < self.slab.len() ==> self.slab[k] is None,
                forall|p: int|
                    0 <= p < old(self).pages.len() ==> self.pages[p] == old(self).pages[p],
                self.pages[old(self).pages.len() as int].base() == 64 * old(self).pages.len(),
                self.pages[old(self).pages.len() as int].notified_bits() == 0,
                self.pages[old(self).pages.len() as int].completed_bits() == 0,
                self.pages[old(self).pages.len() as int].dropped_bits() == 0,
            decreases 64 - added,
        {
            proof {
                lemma_count_push_vacant(self.slab@);
            }
            self.slab.push(None);
            added += 1;
        }
    }

    /// What storing `item` does to the store `before`: the work goes to slot
    /// `key`, the first vacant one, where it is due to be polled, and nothing
    /// else changes.
    pub open spec fn inserted(&self, before: &Self, key: int, item: F) -> bool {
        &&& 0 <= key
        &&& !before.contains(key)
        &&& forall|j: int| 0 <= j < key ==> before.contains(j)
        &&& self.contains(key)
        &&& self.entry(key) == ResultFuture::Pending(item)
        &&& self.is_notified(key)
        &&& self.same_elsewhere(before, key)
        &&& self.count() == before.count() + 1
        &&& self.num_pages() == if key / 64 < before.num_pages() {
            before.num_pages()
        } else {
            key / 64 + 1
        }
    }

    /// Stores a piece of work in the first vacant slot and returns its key.
    /// The work is due to be polled.
    pub fn insert(&mut self, item: F) -> (key: usize)
        requires
            old(self).wf(),
            old(self).num_pages() < MAX_PAGES,
        ensures
            final(self).wf(),
            final(self).inserted(old(self), key as int, item),
    {
        let mut key: usize = 0;
        while key < self.slab.len() && self.slab[key].is_some()
            invariant
                self.wf(),
                key <= self.slab.len(),
                forall|j: int| 0 <= j < key ==> self.contains(j),
            decreases self.slab.len() - key,
        {
            key += 1;
        }
        if key >= self.pages.len() * WAKER_PAGE_SIZE {
            self.push_page();
        }
        let ghost before = *self;
        proof {
            lemma_count_update(self.slab@, key as int, Some(ResultFuture::Pending(item)));
            assert(before.contains(key as int) == old(self).contains(key as int));
            assert(before.slab[key as int] is None);
            lemma_and_zero(!bit_mask(key as int % 64));
        }
        self.slab[key] = Some(ResultFuture::Pending(item));
        self.len = self.len + 1;
        self.pages[key / WAKER_PAGE_SIZE].initialize(key % WAKER_PAGE_SIZE);
        proof {
            assert(self.slab@ =~= before.slab@.update(
                key as int,
                Some(ResultFuture::Pending(item)),
            ));
            self.lemma_one_slot_changed(&before, key as int);
            assert(before.same_elsewhere(old(self), -1));
            assert forall|k: int| k != key implies #[trigger] self.contains(k) == old(self).contains(
                k,
            ) by {
                assert(before.contains(k) == old(self).contains(k));
            }
            assert forall|k: int| k != key && old(self).contains(k) implies #[trigger] self.entry(k)
                == old(self).entry(k) by {
                assert(before.contains(k) == old(self).contains(k));
                assert(before.entry(k) == old(self).entry(k));
            }
            assert forall|k: int| k != key implies #[trigger] self.is_notified(k) == old(
                self,
            ).is_notified(k) by {
                assert(before.is_notified(k) == old(self).is_notified(k));
            }
            assert(forall|j: int| 0 <= j < key ==> before.contains(j) == old(self).contains(j));
            assert(before.contains(key as int) == old(self).contains(key as int));
        }
        key
    }

    /// How many pieces of work are stored, finished or not.
    pub fn len(&self) -> (len: usize)
        requires
            self.wf(),
        ensures
            len == self.count(),
    {
        self.len
    }

    /// Whether no work is stored.
    pub fn is_empty(&self) -> (empty: bool)
        requires
            self.wf(),
        ensures
            empty == (self.count() == 0),
    {
        self.len == 0
    }

    /// Takes what the work under `ix` has produced, if it has finished. The
    /// slot is free for other work then. Nothing changes where no work is
    /// stored under `ix` or the work has not finished.
    pub fn check_ready(&mut self, ix: usize) -> (product: Option<F::Output>)
        requires
            old(self).wf(),
        ensures
            final(self).wf(),
            product is Some <==> old(self).is_ready(ix as int),
            match product {
                Some(out) => {
                    &&& old(self).entry(ix as int) == ResultFuture::<F>::Done(out)
                    &&& !final(self).contains(ix as int)
                    &&& !final(self).is_notified(ix as int)
                    &&& final(self).same_elsewhere(old(self), ix as int)
                    &&& final(self).count() + 1 == old(self).count()
                    &&& final(self).num_pages() == old(self).num_pages()
                },
                None => *final(self) == *old(self),
            },
    {
        if ix >= self.slab.len() {
            return None;
        }
        let page_ix = ix / WAKER_PAGE_SIZE;
        let subpage_ix = ix % WAKER_PAGE_SIZE;
        let ready = self.pages[page_ix].has_completed(subpage_ix);
        if !ready {
            return None;
        }
        proof {
            assert(self.slab[ix as int] is Some);
            lemma_count_update(self.slab@, ix as int, None);
            lemma_and_zero(!bit_mask(subpage_ix as int));
        }
        let taken = self.slab[ix].take();
        self.len = self.len - 1;
        self.pages[page_ix].clear(subpage_ix);
        proof {
            assert(self.slab@ =~= old(self).slab@.update(ix as int, None));
            self.lemma_one_slot_changed(old(self), ix as int);
        }
        match taken {
            Some(ResultFuture::Done(out)) => Some(out),
            _ => None,
        }
    }

    /// What a poll pass that started from `before` and polled the work listed
    /// in `polled` has done to slot `key`. No work is added or removed. Work
    /// that was due and not finished was polled. Work is finished if it was
    /// before, with the same product, or if it was polled in this pass and
    /// finished. Work that was not polled is as it was. No work is due after
    /// the pass unless some work was polled, which may have woken it.
    pub open spec fn after_poll(&self, before: &Self, polled: Seq<u64>, key: int) -> bool {
        &&& self.contains(key) == before.contains(key)
        &&& before.is_notified(key) && before.contains(key) && !before.is_ready(key) ==> lists_key(
            polled,
            key,
        )
        &&& self.is_ready(key) ==> before.is_ready(key) || lists_key(polled, key)
        &&& self.contains(key) && !lists_key(polled, key) ==> self.entry(key) == before.entry(key)
        &&& self.is_notified(key) ==> polled.len() > 0
    }

    /// Whether a wake of the work under `woken`, made by the work under `key`
    /// while it was polled in a pass that polled the work listed in
    /// `polled`, was kept: unless the slot holds nothing after the pass, the
    /// work is due, or it was polled later in the pass, or it has finished.
    pub open spec fn wake_kept(&self, polled: Seq<u64>, key: int, woken: int) -> bool {
        self.contains(woken) ==> self.is_notified(woken) || self.is_ready(woken) || (key < woken
            && lists_key(polled, woken))
    }

    /// Whether `records[i]` tells what the pass that started from `before`
    /// did with the work under `polled[i]`: the record begins with the entry
    /// as it was and ends with the entry as it is, every wake that the work
    /// made was kept, and the work was polled for a reason: it was due when
    /// the pass began, or work polled before it in the pass woke it.
    pub open spec fn poll_fits(
        &self,
        before: &Self,
        polled: Seq<u64>,
        records: Seq<PollRecord<ResultFuture<F>>>,
        i: int,
    ) -> bool {
        let key = polled[i] as int;
        let record = records[i];
        &&& record.before == before.entry(key)
        &&& record.after == self.entry(key)
        &&& forall|n: int|
            0 <= n < record.woken.len() ==> self.wake_kept(
                polled,
                key,
                (#[trigger] record.woken[n]).addr(),
            )
        &&& !before.is_notified(key) ==> woken_by(records, i, key)
    }

    /// Whether `records` tell, one for each key of `polled`, what the pass
    /// that started from `before` did with the work it polled.
    pub open spec fn polls_fit(
        &self,
        before: &Self,
        polled: Seq<u64>,
        records: Seq<PollRecord<ResultFuture<F>>>,
    ) -> bool {
        &&& records.len() == polled.len()
        &&& forall|i: int|
            0 <= i < polled.len() ==> #[trigger] self.poll_fits(before, polled, records, i)
    }

    /// One poll pass. `waker` is woken when work is woken from now on, so
    /// that the caller knows when to poll again. The pass visits the pages
    /// in ascending order, takes from each the work that is due and not
    /// finished, and polls each piece once, in ascending order of the keys.
    /// Work that is woken while its page is visited, or after, waits for the
    /// next pass.
    ///
    /// Returns the keys of the work it polled, in the order in which it
    /// polled them. Each listed entry is what one call of
    /// [`ResultFuture::poll`] has made of it, on a fresh context that
    /// carries the wake handle of the work. A wake that the work made in
    /// that call is kept: the woken work is due after the pass unless it was
    /// polled later in the pass or has finished. Work is polled only for a
    /// reason: it was due when the pass began, or work polled before it in
    /// this pass woke it.
    pub fn poll(&mut self, waker: &Waker) -> (polled: Vec<u64>)
        requires
            old(self).wf(),
        ensures
            final(self).wf(),
            final(self).num_pages() == old(self).num_pages(),
            final(self).count() == old(self).count(),
            forall|i: int, j: int| 0 <= i < j < polled.len() ==> polled[i] < polled[j],
            forall|i: int|
                0 <= i < polled.len() ==> {
                    &&& old(self).contains(#[trigger] polled[i] as int)
                    &&& !old(self).is_ready(polled[i] as int)
                    &&& old(self).is_notified(polled[i] as int) || polled[0] / 64 < polled[i] / 64
                },
            forall|k: int| #[trigger] final(self).after_poll(old(self), polled@, k),
            exists|records: Seq<PollRecord<ResultFuture<F>>>|
                #![trigger final(self).polls_fit(old(self), polled@, records)]
                final(self).polls_fit(old(self), polled@, records) && forall|i: int|
                    #![trigger records[i]]
                    0 <= i < polled.len() ==> exists|
                        entry: &mut ResultFuture<F>,
                        inner: &mut Context,
                    |
                        mut_ref_current(entry) == records[i].before
                            && mut_ref_future(entry) == records[i].after
                            && mut_ref_current(inner).own_waker().addr() == polled[i]
                            && mut_ref_current(inner).woken().len() == 0
                            && mut_ref_future(inner).woken() == records[i].woken
                            && #[trigger] call_ensures(
                            ResultFuture::<F>::poll,
                            (entry, inner),
                            records[i].result,
                        ),
    {
        self.root_waker.register(waker);
        let mut polled: Vec<u64> = Vec::new();
        let ghost start = *self;
        let ghost mut records: Seq<PollRecord<ResultFuture<F>>> = Seq::empty();
        proof {
            assert forall|k: int| #[trigger] self.key_inv(&start, polled@, k, 0, 0) by {}
        }
        let mut page_ix: usize = 0;
        while page_ix < self.pages.len()
            invariant
                page_ix <= self.pages.len(),
                self.pass_inv(&start, polled@, 64 * page_ix, 64 * page_ix),
                self.recs_inv(&start, polled@, records, 0, 0, 64),
                forall|i: int|
                    #![trigger records[i]]
                    0 <= i < polled.len() ==> exists|
                        entry: &mut ResultFuture<F>,
                        inner: &mut Context,
                    |
                        mut_ref_current(entry) == records[i].before
                            && mut_ref_future(entry) == records[i].after
                            && mut_ref_current(inner).own_waker().addr() == polled[i]
                            && mut_ref_current(inner).woken().len() == 0
                            && mut_ref_future(inner).woken() == records[i].woken
                            && #[trigger] call_ensures(
                            ResultFuture::<F>::poll,
                            (entry, inner),
                            records[i].result,
                        ),
            decreases self.pages.len() - page_ix,
        {
            let grown = self.poll_page(page_ix, &mut polled, Ghost(start), Ghost(records));
            proof {
                records = grown@;
            }
            page_ix += 1;
        }
        proof {
            assert forall|k: int| #[trigger] self.after_poll(&start, polled@, k) by {
                assert(self.key_inv(&start, polled@, k, 64 * page_ix, 64 * page_ix));
            }
            assert forall|i: int| 0 <= i < polled.len() implies #[trigger] self.poll_fits(
                &start,
                polled@,
                records,
                i,
            ) by {
                assert(self.rec_ok(&start, polled@, records, i, 0, 0, 64));
                let key = polled[i] as int;
                let record = records[i];
                assert forall|n: int| 0 <= n < record.woken.len() implies self.wake_kept(
                    polled@,
                    key,
                    (#[trigger] record.woken[n]).addr(),
                ) by {
                    let a = record.woken[n].addr();
                    assert(self.wake_kept_mid(polled@, key, a, 0, 0, 64));
                }
            }
            assert(self.polls_fit(&start, polled@, records));
        }
        polled
    }

    /// Whether a wake of the work under `woken`, made by the work under `key`
    /// earlier in the pass, is kept so far. In the middle of a pass the
    /// woken work may also be of the page under way, taken to be polled,
    /// with its turn still to come: a slot from `bound` on whose bit is set
    /// in `taken`.
    closed spec fn wake_kept_mid(
        &self,
        polled: Seq<u64>,
        key: int,
        woken: int,
        taken: u64,
        lo: int,
        bound: int,
    ) -> bool {
        self.contains(woken) ==> {
            ||| self.is_notified(woken)
            ||| self.is_ready(woken)
            ||| key < woken && lists_key(polled, woken)
            ||| lo <= woken < lo + 64 && bound <= woken && bit_is_set(taken, woken - lo)
        }
    }

    /// What holds of `records[i]` in the middle of a pass.
    closed spec fn rec_ok(
        &self,
        start: &Self,
        polled: Seq<u64>,
        records: Seq<PollRecord<ResultFuture<F>>>,
        i: int,
        taken: u64,
        lo: int,
        bound: int,
    ) -> bool {
        let key = polled[i] as int;
        let record = records[i];
        &&& record.before == start.entry(key)
        &&& record.after == self.entry(key)
        &&& forall|n: int|
            0 <= n < record.woken.len() ==> #[trigger] self.wake_kept_mid(
                polled,
                key,
                record.woken[n].addr(),
                taken,
                lo,
                bound,
            )
        &&& !start.is_notified(key) ==> woken_by(records, i, key)
    }

    /// What holds of the records in the middle of a pass.
    closed spec fn recs_inv(
        &self,
        start: &Self,
        polled: Seq<u64>,
        records: Seq<PollRecord<ResultFuture<F>>>,
        taken: u64,
        lo: int,
        bound: int,
    ) -> bool {
        &&& records.len() == polled.len()
        &&& forall|i: int|
            0 <= i < polled.len() ==> #[trigger] self.rec_ok(
                start,
                polled,
                records,
                i,
                taken,
                lo,
                bound,
            )
        &&& forall|a: int| #[trigger]
            self.is_notified(a) ==> start.is_notified(a) || woken_by(
                records,
                records.len() as int,
                a,
            )
    }

    /// The first `m` records stay in order through a step of a pass that
    /// leaves the entries they tell of alone and keeps the wakes that were
    /// kept.
    proof fn lemma_recs_carry(
        &self,
        prev: &Self,
        start: &Self,
        polled_prev: Seq<u64>,
        polled: Seq<u64>,
        records_prev: Seq<PollRecord<ResultFuture<F>>>,
        records: Seq<PollRecord<ResultFuture<F>>>,
        m: int,
        taken_prev: u64,
        lo_prev: int,
        bound_prev: int,
        taken: u64,
        lo: int,
        bound: int,
    )
        requires
            0 <= m <= polled_prev.len(),
            m <= polled.len(),
            m <= records.len(),
            m <= records_prev.len(),
            forall|i: int| 0 <= i < m ==> polled[i] == polled_prev[i],
            forall|i: int| 0 <= i < m ==> records[i] == records_prev[i],
            forall|i: int|
                0 <= i < m ==> #[trigger] prev.rec_ok(
                    start,
                    polled_prev,
                    records_prev,
                    i,
                    taken_prev,
                    lo_prev,
                    bound_prev,
                ),
            forall|i: int|
                0 <= i < m ==> self.entry(#[trigger] polled_prev[i] as int) == prev.entry(
                    polled_prev[i] as int,
                ),
            forall|key: int, a: int|
                lists_key(polled_prev, key) && prev.wake_kept_mid(
                    polled_prev,
                    key,
                    a,
                    taken_prev,
                    lo_prev,
                    bound_prev,
                ) ==> #[trigger] self.wake_kept_mid(polled, key, a, taken, lo, bound),
        ensures
            forall|i: int|
                0 <= i < m ==> #[trigger] self.rec_ok(start, polled, records, i, taken, lo, bound),
    {
        assert forall|i: int| 0 <= i < m implies #[trigger] self.rec_ok(
            start,
            polled,
            records,
            i,
            taken,
            lo,
            bound,
        ) by {
            assert(prev.rec_ok(start, polled_prev, records_prev, i, taken_prev, lo_prev, bound_prev));
            let key = polled_prev[i] as int;
            let record = records_prev[i];
            assert(polled_prev[i] == key);
            assert(lists_key(polled_prev, key));
            assert forall|n: int| 0 <= n < record.woken.len() implies #[trigger] self.wake_kept_mid(
                polled,
                key,
                record.woken[n].addr(),
                taken,
                lo,
                bound,
            ) by {
                assert(prev.wake_kept_mid(
                    polled_prev,
                    key,
                    record.woken[n].addr(),
                    taken_prev,
                    lo_prev,
                    bound_prev,
                ));
            }
            if woken_by(records_prev, i, key) {
                let (j, n) = choose|j: int, n: int|
                    0 <= j < i && j < records_prev.len() && 0 <= n < records_prev[j].woken.len()
                        && (#[trigger] records_prev[j].woken[n]).addr() == key;
                assert(records[j].woken[n].addr() == key);
            }
        }
    }

    /// What holds of slot `key` in the middle of a poll pass that started from
    /// `start`: the slots below `lo` are finished with, those from `hi` on
    /// have not been visited, and the page between them is being polled.
    closed spec fn key_inv(&self, start: &Self, polled: Seq<u64>, key: int, lo: int, hi: int) -> bool {
        &&& self.contains(key) == start.contains(key)
        &&& self.contains(key) && !lists_key(polled, key) ==> self.entry(key) == start.entry(key)
        &&& self.is_ready(key) ==> start.is_ready(key) || lists_key(polled, key)
        &&& key < lo ==> (start.is_notified(key) && start.contains(key) && !start.is_ready(key)
            ==> lists_key(polled, key))
        &&& key < hi ==> (self.is_notified(key) ==> polled.len() > 0)
        &&& key >= hi ==> {
            &&& start.is_notified(key) ==> self.is_notified(key)
            &&& self.is_notified(key) ==> start.is_notified(key) || polled.len() > 0
        }
    }

    /// What holds in the middle of a poll pass that started from `start`.
    closed spec fn pass_inv(&self, start: &Self, polled: Seq<u64>, lo: int, hi: int) -> bool {
        &&& self.wf()
        &&& start.wf()
        &&& self.pages.len() == start.pages.len()
        &&& self.len == start.len
        &&& forall|i: int, j: int| 0 <= i < j < polled.len() ==> polled[i] < polled[j]
        &&& forall|i: int|
            0 <= i < polled.len() ==> {
                &&& (#[trigger] polled[i]) < hi
                &&& start.contains(polled[i] as int)
                &&& !start.is_ready(polled[i] as int)
                &&& start.is_notified(polled[i] as int) || polled[0] / 64 < polled[i] / 64
            }
        &&& forall|k: int| #[trigger] self.key_inv(start, polled, k, lo, hi)
    }

    /// Visits page `page_ix`: polls the work that is due there. Returns the
    /// records of the pass, with those of this page added.
    fn poll_page(
        &mut self,
        page_ix: usize,
        polled: &mut Vec<u64>,
        Ghost(start): Ghost<Self>,
        Ghost(records): Ghost<Seq<PollRecord<ResultFuture<F>>>>,
    ) -> (grown: Ghost<Seq<PollRecord<ResultFuture<F>>>>)
        requires
            page_ix < old(self).pages.len(),
            old(self).pass_inv(&start, old(polled)@, 64 * page_ix, 64 * page_ix),
            old(self).recs_inv(&start, old(polled)@, records, 0, 0, 64),
            forall|i: int|
                #![trigger records[i]]
                0 <= i < old(polled).len() ==> exists|
                    entry: &mut ResultFuture<F>,
                    inner: &mut Context,
                |
                    mut_ref_current(entry) == records[i].before
                        && mut_ref_future(entry) == records[i].after
                        && mut_ref_current(inner).own_waker().addr() == old(polled)[i]
                        && mut_ref_current(inner).woken().len() == 0
                        && mut_ref_future(inner).woken() == records[i].woken
                        && #[trigger] call_ensures(
                        ResultFuture::<F>::poll,
                        (entry, inner),
                        records[i].result,
                    ),
        ensures
            final(self).pass_inv(&start, final(polled)@, 64 * page_ix + 64, 64 * page_ix + 64),
            final(self).recs_inv(&start, final(polled)@, grown@, 0, 0, 64),
            forall|i: int|
                #![trigger grown@[i]]
                0 <= i < final(polled).len() ==> exists|
                    entry: &mut ResultFuture<F>,
                    inner: &mut Context,
                |
                    mut_ref_current(entry) == grown@[i].before
                        && mut_ref_future(entry) == grown@[i].after
                        && mut_ref_current(inner).own_waker().addr() == final(polled)[i]
                        && mut_ref_current(inner).woken().len() == 0
                        && mut_ref_future(inner).woken() == grown@[i].woken
                        && #[trigger] call_ensures(
                        ResultFuture::<F>::poll,
                        (entry, inner),
                        grown@[i].result,
                    ),
    {
        let ghost lo = 64 * page_ix as int;
        let ghost hi = lo + 64;
        let notified_bitset = self.pages[page_ix].take_notified();
        proof {
            lemma_no_bit_in_zero();
            assert forall|k: int| #[trigger] self.key_inv(&start, polled@, k, lo, hi) by {
                assert(old(self).key_inv(&start, polled@, k, lo, lo));
            }
            assert forall|s: int| #[trigger] bit_is_set(notified_bitset, s) implies {
                &&& start.contains(lo + s)
                &&& !start.is_ready(lo + s)
                &&& start.is_notified(lo + s) || old(polled).len() > 0
                &&& start.is_notified(lo + s) || woken_by(records, records.len() as int, lo + s)
            } by {
                let k = lo + s;
                assert(k / 64 == page_ix && k % 64 == s);
                assert(old(self).is_notified(k));
                assert(old(self).slab[k] is Some);
                assert(old(self).key_inv(&start, polled@, k, lo, lo));
            }
            assert forall|a: int| #[trigger] self.is_notified(a) implies start.is_notified(a)
                || woken_by(records, records.len() as int, a) by {
                assert(old(self).is_notified(a));
            }
        }
        let bits = iter_set_bits(notified_bitset);
        let ghost mut recs = records;
        proof {
            let first = if 0 < bits.len() {
                lo + bits[0]
            } else {
                hi
            };
            assert forall|key: int, a: int|
                lists_key(polled@, key) && old(self).wake_kept_mid(
                    polled@,
                    key,
                    a,
                    0,
                    0,
                    64,
                ) implies #[trigger] self.wake_kept_mid(polled@, key, a, notified_bitset, lo, first) by {
                if self.contains(a) && old(self).is_notified(a) && !self.is_notified(a) {
                    assert(a / 64 == page_ix && a % 64 == a - lo);
                    assert(old(self).slab[a] is Some);
                    if bit_is_set(notified_bitset, a - lo) {
                        let n = choose|n: int| 0 <= n < bits.len() && bits[n] == a - lo;
                        if n > 0 {
                            assert(bits[0] < bits[n]);
                        }
                    }
                }
            }
            self.lemma_recs_carry(
                old(self),
                &start,
                polled@,
                polled@,
                records,
                records,
                polled@.len() as int,
                0,
                0,
                64,
                notified_bitset,
                lo,
                first,
            );
        }
        let mut i: usize = 0;
        while i < bits.len()
            invariant
                i <= bits.len(),
                page_ix < self.pages.len(),
                lo == 64 * page_ix,
                hi == lo + 64,
                self.pass_inv(&start, polled@, lo, hi),
                forall|n: int|
                    0 <= n < bits.len() ==> bit_is_set(notified_bitset, #[trigger] bits[n] as int),
                forall|n: int, m: int| 0 <= n < m < bits.len() ==> bits[n] < bits[m],
                forall|k: int|
                    #[trigger] bit_is_set(notified_bitset, k) ==> exists|n: int|
                        0 <= n < bits.len() && bits[n] == k,
                forall|s: int|
                    #[trigger] bit_is_set(notified_bitset, s) ==> {
                        &&& start.contains(lo + s)
                        &&& !start.is_ready(lo + s)
                        &&& start.is_notified(lo + s) || old(polled).len() > 0
                        &&& start.is_notified(lo + s) || woken_by(
                            records,
                            records.len() as int,
                            lo + s,
                        )
                    },
                old(polled)@.is_prefix_of(polled@),
                forall|n: int| 0 <= n < old(polled).len() ==> (#[trigger] old(polled)[n]) < lo,
                forall|n: int| 0 <= n < i ==> lists_key(polled@, lo + #[trigger] bits[n]),
                forall|n: int|
                    0 <= n < polled.len() ==> (#[trigger] polled[n]) < lo + (if i == 0 {
                        0
                    } else {
                        bits[i - 1] + 1
                    }),
                records.len() <= recs.len(),
                forall|j: int| 0 <= j < records.len() ==> #[trigger] recs[j] == records[j],
                self.recs_inv(
                    &start,
                    polled@,
                    recs,
                    notified_bitset,
                    lo,
                    if i < bits.len() {
                        lo + bits[i as int]
                    } else {
                        hi
                    },
                ),
                forall|i: int|
                    #![trigger recs[i]]
                    0 <= i < polled.len() ==> exists|
                        entry: &mut ResultFuture<F>,
                        inner: &mut Context,
                    |
                        mut_ref_current(entry) == recs[i].before
                            && mut_ref_future(entry) == recs[i].after
                            && mut_ref_current(inner).own_waker().addr() == polled[i]
                            && mut_ref_current(inner).woken().len() == 0
                            && mut_ref_future(inner).woken() == recs[i].woken
                            && #[trigger] call_ensures(
                            ResultFuture::<F>::poll,
                            (entry, inner),
                            recs[i].result,
                        ),
            decreases bits.len() - i,
        {
            let ghost seen = polled@;
            let ghost seen_recs = recs;
            let ghost key = lo + bits[i as int];
            let ghost next = if i + 1 < bits.len() {
                lo + bits[i + 1]
            } else {
                hi
            };
            proof {
                if old(polled).len() > 0 {
                    assert(polled[0] == old(polled)[0]);
                }
                assert(bit_is_set(notified_bitset, bits[i as int] as int));
                assert forall|s: int| bits[i as int] < s && lo + s < next implies !#[trigger] bit_is_set(
                    notified_bitset,
                    s,
                ) by {
                    if bit_is_set(notified_bitset, s) {
                        let n = choose|n: int| 0 <= n < bits.len() && bits[n] == s;
                        if n <= i {
                            assert(bits[n] <= bits[i as int]);
                        } else {
                            assert(bits[i + 1] <= bits[n]);
                        }
                    }
                }
                if !start.is_notified(key) {
                    assert forall|j: int| 0 <= j < records.len() implies (#[trigger] records[j]).woken.is_prefix_of(
                    recs[j].woken) by {
                        assert(recs[j] == records[j]);
                    }
                    lemma_woken_by_grows(records, recs, key);
                }
            }
            let polled_now = self.poll_slot(
                page_ix,
                bits[i],
                polled,
                Ghost(start),
                Ghost(recs),
                Ghost(notified_bitset),
                Ghost(next),
            );
            proof {
                recs = recs.push(polled_now@);
                assert forall|n: int| 0 <= n < i + 1 implies lists_key(
                    polled@,
                    lo + #[trigger] bits[n],
                ) by {
                    lemma_lists_key_push(seen, (lo + bits[i as int]) as u64, lo + bits[n]);
                }
                assert forall|j: int|
                    #![trigger recs[j]]
                    0 <= j < polled.len() implies exists|
                    entry: &mut ResultFuture<F>,
                    inner: &mut Context,
                |
                    mut_ref_current(entry) == recs[j].before && mut_ref_future(entry)
                        == recs[j].after && mut_ref_current(inner).own_waker().addr() == polled[j]
                        && mut_ref_current(inner).woken().len() == 0 && mut_ref_future(
                        inner,
                    ).woken() == recs[j].woken && #[trigger] call_ensures(
                        ResultFuture::<F>::poll,
                        (entry, inner),
                        recs[j].result,
                    ) by {
                    if j < seen.len() {
                        assert(recs[j] == seen_recs[j]);
                        assert(polled[j] == seen[j]);
                    } else {
                        assert(recs[j] == polled_now@);
                    }
                }
            }
            i += 1;
        }
        proof {
            assert forall|k: int| #[trigger] self.key_inv(&start, polled@, k, hi, hi) by {
                assert(self.key_inv(&start, polled@, k, lo, hi));
                if lo <= k < hi && start.is_notified(k) && start.contains(k) && !start.is_ready(k) {
                    assert(old(self).key_inv(&start, old(polled)@, k, lo, lo));
                    assert(old(self).slab[k] is Some);
                    assert(!lists_key(old(polled)@, k));
                    assert(k / 64 == page_ix && k % 64 == k - lo);
                    lemma_no_bit_in_zero();
                    assert(bit_is_set(notified_bitset, k - lo));
                    let n = choose|n: int| 0 <= n < bits.len() && bits[n] == k - lo;
                    assert(lists_key(polled@, lo + bits[n]));
                }
            }
            assert forall|key: int, a: int|
                lists_key(polled@, key) && self.wake_kept_mid(
                    polled@,
                    key,
                    a,
                    notified_bitset,
                    lo,
                    hi,
                ) implies #[trigger] self.wake_kept_mid(polled@, key, a, 0, 0, 64) by {}
            self.lemma_recs_carry(
                &*self,
                &start,
                polled@,
                polled@,
                recs,
                recs,
                polled@.len() as int,
                notified_bitset,
                lo,
                hi,
                0,
                0,
                64,
            );
        }
        Ghost(recs)
    }

    /// Polls the work in slot `subpage_ix` of page `page_ix` once, marks the
    /// slot as finished if the work has finished, and notifies the work that
    /// it woke. Returns the record of the poll.
    fn poll_slot(
        &mut self,
        page_ix: usize,
        subpage_ix: usize,
        polled: &mut Vec<u64>,
        Ghost(start): Ghost<Self>,
        Ghost(records): Ghost<Seq<PollRecord<ResultFuture<F>>>>,
        Ghost(taken): Ghost<u64>,
        Ghost(next): Ghost<int>,
    ) -> (polled_now: Ghost<PollRecord<ResultFuture<F>>>)
        requires
            page_ix < old(self).pages.len(),
            subpage_ix < 64,
            old(self).pass_inv(&start, old(polled)@, 64 * page_ix, 64 * page_ix + 64),
            start.contains(64 * page_ix + subpage_ix),
            !start.is_ready(64 * page_ix + subpage_ix),
            start.is_notified(64 * page_ix + subpage_ix) || (old(polled).len() > 0 && old(
                polled,
            )[0] < 64 * page_ix),
            forall|n: int|
                0 <= n < old(polled).len() ==> (#[trigger] old(polled)[n]) < 64 * page_ix
                    + subpage_ix,
            old(self).recs_inv(
                &start,
                old(polled)@,
                records,
                taken,
                64 * page_ix,
                64 * page_ix + subpage_ix,
            ),
            start.is_notified(64 * page_ix + subpage_ix) || woken_by(
                records,
                records.len() as int,
                64 * page_ix + subpage_ix,
            ),
            64 * page_ix + subpage_ix < next <= 64 * page_ix + 64,
            forall|s: int|
                subpage_ix < s && 64 * page_ix + s < next ==> !#[trigger] bit_is_set(taken, s),
        ensures
            final(self).pass_inv(&start, final(polled)@, 64 * page_ix, 64 * page_ix + 64),
            final(polled)@ == old(polled)@.push((64 * page_ix + subpage_ix) as u64),
            final(self).recs_inv(
                &start,
                final(polled)@,
                records.push(polled_now@),
                taken,
                64 * page_ix,
                next,
            ),
            exists|entry: &mut ResultFuture<F>, inner: &mut Context|
                mut_ref_current(entry) == polled_now@.before && mut_ref_future(entry)
                    == polled_now@.after && mut_ref_current(inner).own_waker().addr() == 64
                    * page_ix + subpage_ix && mut_ref_current(inner).woken().len() == 0
                    && mut_ref_future(inner).woken() == polled_now@.woken
                    && #[trigger] call_ensures(
                    ResultFuture::<F>::poll,
                    (entry, inner),
                    polled_now@.result,
                ),
    {
        let ghost lo = 64 * page_ix as int;
        let ghost hi = lo + 64;
        let ix = page_ix * WAKER_PAGE_SIZE + subpage_ix;
        let ghost count = records.len() as int;
        proof {
            assert(old(self).key_inv(&start, polled@, ix as int, lo, hi));
            assert(old(self).slab[ix as int] is Some);
            assert(!lists_key(polled@, ix as int));
        }
        let waker = self.pages[page_ix].waker(subpage_ix);
        let mut ctx = Context::new(waker);
        let poll_result = match &mut self.slab[ix] {
            Some(entry) => entry.poll(&mut ctx),
            None => Poll::Pending,
        };
        let ghost before = old(self).entry(ix as int);
        let ghost after = self.entry(ix as int);
        let ghost left = ctx.woken();
        proof {
            assert(exists|entry: &mut ResultFuture<F>, inner: &mut Context|
                mut_ref_current(entry) == before && mut_ref_future(entry) == after
                    && mut_ref_current(inner).own_waker().addr() == ix && mut_ref_current(
                    inner,
                ).woken().len() == 0 && mut_ref_future(inner).woken() == left
                    && #[trigger] call_ensures(
                    ResultFuture::<F>::poll,
                    (entry, inner),
                    poll_result,
                ));
        }
        match poll_result {
            Poll::Ready => self.pages[page_ix].mark_completed(subpage_ix),
            Poll::Pending => (),
        }
        polled.push(ix as u64);
        let ghost silent = PollRecord { before, after, woken: left.take(0), result: poll_result };
        proof {
            assert(self.slab@ =~= old(self).slab@.update(ix as int, self.slab[ix as int]));
            lemma_count_update(old(self).slab@, ix as int, self.slab[ix as int]);
            self.lemma_one_slot_changed(old(self), ix as int);
            assert forall|k: int| #[trigger] self.key_inv(&start, polled@, k, lo, hi) by {
                assert(old(self).key_inv(&start, old(polled)@, k, lo, hi));
                lemma_lists_key_push(old(polled)@, ix as u64, k);
            }
            // The records so far stay in order.
            assert forall|i: int| 0 <= i < count implies self.entry(
                #[trigger] old(polled)[i] as int,
            ) == old(self).entry(old(polled)[i] as int) by {
                assert(old(polled)[i] < ix);
                assert(old(self).key_inv(&start, old(polled)@, old(polled)[i] as int, lo, hi));
            }
            assert forall|key: int, a: int|
                lists_key(old(polled)@, key) && old(self).wake_kept_mid(
                    old(polled)@,
                    key,
                    a,
                    taken,
                    lo,
                    ix as int,
                ) implies #[trigger] self.wake_kept_mid(polled@, key, a, taken, lo, next) by {
                lemma_lists_key_push(old(polled)@, ix as u64, a);
                let n = choose|n: int| 0 <= n < old(polled).len() && old(polled)[n] == key;
                assert(old(polled)[n] < ix);
                if a != ix && self.contains(a) {
                    assert(self.entry(a) == old(self).entry(a));
                    assert(self.is_notified(a) == old(self).is_notified(a));
                }
            }
            self.lemma_recs_carry(
                old(self),
                &start,
                old(polled)@,
                polled@,
                records,
                records.push(silent),
                count,
                taken,
                lo,
                ix as int,
                taken,
                lo,
                next,
            );
            // The record of this poll.
            if !start.is_notified(ix as int) {
                let (j, n) = choose|j: int, n: int|
                    0 <= j < records.len() && j < records.len() && 0 <= n < records[j].woken.len()
                        && (#[trigger] records[j].woken[n]).addr() == ix;
                assert(records.push(silent)[j].woken[n].addr() == ix);
            }
            assert(self.rec_ok(&start, polled@, records.push(silent), count, taken, lo, next));
            assert forall|a: int| #[trigger] self.is_notified(a) implies start.is_notified(a)
                || woken_by(records.push(silent), count + 1, a) by {
                assert(old(self).is_notified(a));
                if !start.is_notified(a) {
                    assert forall|j: int| 0 <= j < records.len() implies (#[trigger] records[j]).woken.is_prefix_of(
                    records.push(silent)[j].woken) by {}
                    lemma_woken_by_grows(records, records.push(silent), a);
                }
            }
        }
        let woken = ctx.take_woken();
        let mut w: usize = 0;
        while w < woken.len()
            invariant
                w <= woken.len(),
                woken@ == left,
                count == records.len(),
                polled@ == old(polled)@.push(ix as u64),
                ix == 64 * page_ix + subpage_ix,
                lo == 64 * page_ix,
                hi == lo + 64,
                self.pass_inv(&start, polled@, lo, hi),
                polled.len() > 0,
                start.contains(ix as int),
                self.entry(ix as int) == after,
                self.recs_inv(
                    &start,
                    polled@,
                    records.push(
                        PollRecord { before, after, woken: left.take(w as int), result: poll_result },
                    ),
                    taken,
                    lo,
                    next,
                ),
            decreases woken.len() - w,
        {
            let ghost sleeping = *self;
            let ghost heard = records.push(
                PollRecord { before, after, woken: left.take(w as int), result: poll_result },
            );
            let ghost hears = records.push(
                PollRecord { before, after, woken: left.take(w + 1), result: poll_result },
            );
            self.wake(woken[w]);
            proof {
                let target = woken[w as int].addr();
                assert forall|k: int| #[trigger] self.key_inv(&start, polled@, k, lo, hi) by {
                    assert(sleeping.key_inv(&start, polled@, k, lo, hi));
                }
                assert forall|i: int| 0 <= i < count implies self.entry(#[trigger] polled[i] as int)
                    == sleeping.entry(polled[i] as int) by {
                    assert(sleeping.key_inv(&start, polled@, polled[i] as int, lo, hi));
                }
                assert forall|key: int, a: int|
                    lists_key(polled@, key) && sleeping.wake_kept_mid(
                        polled@,
                        key,
                        a,
                        taken,
                        lo,
                        next,
                    ) implies #[trigger] self.wake_kept_mid(polled@, key, a, taken, lo, next) by {
                    if self.contains(a) {
                        assert(self.entry(a) == sleeping.entry(a));
                    }
                }
                self.lemma_recs_carry(
                    &sleeping,
                    &start,
                    polled@,
                    polled@,
                    heard,
                    hears,
                    count,
                    taken,
                    lo,
                    next,
                    taken,
                    lo,
                    next,
                );
                // The record of this poll, with one more wake delivered.
                assert(sleeping.rec_ok(&start, polled@, heard, count, taken, lo, next));
                assert forall|n: int| 0 <= n < hears[count].woken.len() implies #[trigger] self.wake_kept_mid(
                    polled@,
                    ix as int,
                    hears[count].woken[n].addr(),
                    taken,
                    lo,
                    next,
                ) by {
                    if n < w {
                        assert(heard[count].woken[n] == hears[count].woken[n]);
                        assert(sleeping.wake_kept_mid(
                            polled@,
                            ix as int,
                            heard[count].woken[n].addr(),
                            taken,
                            lo,
                            next,
                        ));
                    } else {
                        assert(hears[count].woken[n] == woken[w as int]);
                    }
                }
                if !start.is_notified(ix as int) {
                    let (j, n) = choose|j: int, n: int|
                        0 <= j < count && j < heard.len() && 0 <= n < heard[j].woken.len()
                            && (#[trigger] heard[j].woken[n]).addr() == ix;
                    assert(hears[j].woken[n].addr() == ix);
                }
                assert(polled[count] == ix);
                assert(hears[count].before == heard[count].before);
                assert(sleeping.key_inv(&start, polled@, ix as int, lo, hi));
                assert(self.entry(ix as int) == sleeping.entry(ix as int));
                assert(self.rec_ok(&start, polled@, hears, count, taken, lo, next));
                assert forall|a: int| #[trigger] self.is_notified(a) implies start.is_notified(a)
                    || woken_by(hears, count + 1, a) by {
                    if sleeping.is_notified(a) {
                        if !start.is_notified(a) {
                            assert forall|j: int| 0 <= j < heard.len() implies (#[trigger] heard[j]).woken.is_prefix_of(
                            hears[j].woken) by {}
                            lemma_woken_by_grows(heard, hears, a);
                        }
                    } else {
                        assert(a == target);
                        assert(hears[count].woken[w as int].addr() == a);
                    }
                }
            }
            w += 1;
        }
        let ghost record = PollRecord { before, after, woken: left, result: poll_result };
        proof {
            assert(left.take(w as int) =~= left);
        }
        Ghost(record)
    }

    /// Wakes the work that `waker` stands for: it is polled in the next pass
    /// over its page. Nothing changes if no work is stored in the slot.
    pub fn wake(&mut self, waker: WakerRef)
        requires
            old(self).wf(),
        ensures
            final(self).wf(),
            final(self).num_pages() == old(self).num_pages(),
            final(self).count() == old(self).count(),
            final(self).contains(waker.addr()) == old(self).contains(waker.addr()),
            final(self).contains(waker.addr()) ==> final(self).entry(waker.addr()) == old(
                self,
            ).entry(waker.addr()),
            final(self).same_elsewhere(old(self), waker.addr()),
            final(self).is_notified(waker.addr()) == (old(self).is_notified(waker.addr()) || old(
                self,
            ).contains(waker.addr())),
    {
        let key = waker.into_raw_waker();
        if key < self.slab.len() && self.slab[key].is_some() {
            waker.wake_by_ref(&mut self.pages[key / WAKER_PAGE_SIZE]);
        }
        proof {
            self.lemma_one_slot_changed(old(self), key as int);
        }
    }

    /// If only page `key / 64` differs between two stores, and only in bit
    /// `key % 64` of its words, then every slot but `key` is the same in
    /// both.
    proof fn lemma_one_slot_changed(&self, before: &Self, key: int)
        requires
            self.pages.len() == before.pages.len(),
            self.slab.len() == before.slab.len(),
            self.slab.len() == 64 * self.pages.len(),
            forall|k: int| 0 <= k < self.slab.len() && k != key ==> self.slab[k] == before.slab[k],
            forall|p: int|
                0 <= p < self.pages.len() && p != key / 64 ==> self.pages[p] == before.pages[p],
            0 <= key < self.slab.len() ==> {
                let page = self.pages[key / 64];
                let other = before.pages[key / 64];
                &&& page.base() == other.base()
                &&& forall|j: int| j != key % 64 ==> page.is_notified(j) == other.is_notified(j)
                &&& forall|j: int| j != key % 64 ==> page.is_completed(j) == other.is_completed(j)
            },
        ensures
            self.same_elsewhere(before, key),
            forall|k: int| k != key ==> #[trigger] self.is_marked(k) == before.is_marked(k),
    {
        assert forall|k: int| k != key implies #[trigger] self.is_notified(k) == before.is_notified(
            k,
        ) by {
            if 0 <= k < self.slab.len() && 0 <= key < self.slab.len() && k / 64 == key / 64 {
                assert(k % 64 != key % 64);
            }
        }
        assert forall|k: int| k != key implies #[trigger] self.is_marked(k) == before.is_marked(
            k,
        ) by {
            if 0 <= k < self.slab.len() && 0 <= key < self.slab.len() && k / 64 == key / 64 {
                assert(k % 64 != key % 64);
            }
        }
    }
}

} // verus!
