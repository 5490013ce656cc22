//! The queue of datagrams that have arrived for a bound port.

use crate::collections::waker_page::WakerRef;
use crate::protocols::ipv4::Endpoint;
use std::collections::VecDeque;
use vstd::prelude::*;

verus! {

/// Datagrams that wait to be popped, oldest first, each with the endpoint it
/// came from if that is known, and the wake handle of the task that waits
/// for the next one.
pub struct Listener<T> {
    buf: VecDeque<(Option<Endpoint>, T)>,
    waker: Option<WakerRef>,
}

impl<T> Listener<T> {
    /// The datagrams that wait, oldest first.
    pub closed spec fn view(&self) -> Seq<(Option<Endpoint>, T)> {
        self.buf@
    }

    /// The wake handle of the task that waits for a datagram.
    pub closed spec fn waiting(&self) -> Option<WakerRef> {
        self.waker
    }

    /// Creates a new listener.
    pub fn new(buf: VecDeque<(Option<Endpoint>, T)>, waker: Option<WakerRef>) -> (listener: Self)
        ensures
            listener@ == buf@,
            listener.waiting() == waker,
    {
        Self { buf, waker }
    }

    /// The number of datagrams that wait.
    pub fn len(&mut self) -> (len: usize)
        ensures
            len == old(self)@.len(),
            final(self)@ == old(self)@,
            final(self).waiting() == old(self).waiting(),
    {
        self.buf.len()
    }

    /// Pushes data to the target listener.
    pub fn push_data(&mut self, endpoint: Option<Endpoint>, data: T)
        ensures
            final(self)@ == old(self)@.push((endpoint, data)),
            final(self).waiting() == old(self).waiting(),
    {
        self.buf.push_back((endpoint, data));
    }

    /// Pops data from the target listener.
    pub fn pop_data(&mut self) -> (data: Option<(Option<Endpoint>, T)>)
        ensures
            final(self).waiting() == old(self).waiting(),
            match data {
                None => old(self)@.len() == 0 && final(self)@ == old(self)@,
                Some(first) => old(self)@.len() > 0 && first == old(self)@[0] && final(self)@
                    == old(self)@.skip(1),
            },
    {
        let data = self.buf.pop_front();
        proof {
            if data is Some {
                assert(self.buf@ =~= old(self)@.skip(1));
            }
        }
        data
    }

    /// Pops the oldest datagram. Where none waits, the task of `waker` is
    /// left to be woken when one arrives.
    pub fn poll_pop(&mut self, waker: WakerRef) -> (data: Option<(Option<Endpoint>, T)>)
        ensures
            match data {
                Some(first) => {
                    &&& old(self)@.len() > 0
                    &&& first == old(self)@[0]
                    &&& final(self)@ == old(self)@.skip(1)
                    &&& final(self).waiting() == old(self).waiting()
                },
                None => {
                    &&& old(self)@.len() == 0
                    &&& final(self)@ == old(self)@
                    &&& final(self).waiting() == Some(waker)
                },
            },
    {
        let data = self.pop_data();
        if data.is_some() {
            return data;
        }
        self.put_waker(Some(waker));
        None
    }

    /// Pops all datagrams that wait, oldest first. Where none waits, the
    /// task of `waker` is left to be woken when one arrives.
    pub fn poll_pop_batch(&mut self, waker: WakerRef) -> (data: Option<Vec<(Option<Endpoint>, T)>>)
        ensures
            match data {
                Some(all) => {
                    &&& old(self)@.len() > 0
                    &&& all@ == old(self)@
                    &&& final(self)@.len() == 0
                    &&& final(self).waiting() == old(self).waiting()
                },
                None => {
                    &&& old(self)@.len() == 0
                    &&& final(self)@ == old(self)@
                    &&& final(self).waiting() == Some(waker)
                },
            },
    {
        let l_len = self.len();
        if l_len > 0 {
            let mut bufs: Vec<(Option<Endpoint>, T)> = Vec::with_capacity(l_len);
            let mut popped: usize = 0;
            while popped < l_len
                invariant
                    popped <= l_len,
                    l_len == old(self)@.len(),
                    self.waiting() == old(self).waiting(),
                    bufs@ == old(self)@.take(popped as int),
                    self@ == old(self)@.skip(popped as int),
                decreases l_len - popped,
            {
                if let Some(r) = self.pop_data() {
                    bufs.push(r);
                    proof {
                        assert(bufs@ =~= old(self)@.take(popped + 1));
                        assert(self@ =~= old(self)@.skip(popped + 1));
                    }
                }
                popped += 1;
            }
            proof {
                assert(bufs@ =~= old(self)@);
            }
            return Some(bufs);
        }
        self.put_waker(Some(waker));
        None
    }

    /// Takes the waker of the target listener.
    pub fn take_waker(&mut self) -> (waker: Option<WakerRef>)
        ensures
            waker == old(self).waiting(),
            final(self).waiting() is None,
            final(self)@ == old(self)@,
    {
        self.waker.take()
    }

    /// Places a waker in the target listener.
    pub fn put_waker(&mut self, waker: Option<WakerRef>)
        ensures
            final(self).waiting() == waker,
            final(self)@ == old(self)@,
    {
        self.waker = waker;
    }
}

impl<T> Default for Listener<T> {
    /// A listener without datagrams and without a task that waits.
    fn default() -> (listener: Self)
        ensures
            listener@.len() == 0,
            listener.waiting() is None,
    {
        Self { buf: VecDeque::new(), waker: None }
    }
}

} // verus!
