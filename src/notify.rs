//! A one-shot rendezvous: wakers queue up in arrival order, and the
//! registration that brings the count to a given total releases them all.
use vstd::prelude::*;

verus! {

pub struct Notify<W> {
    waiters: Vec<W>,
}

impl<W> View for Notify<W> {
    type V = Seq<W>;

    /// Queued wakers, in arrival order.
    closed spec fn view(&self) -> Seq<W> {
        self.waiters@
    }
}

impl<W> Notify<W> {
    pub fn new() -> (n: Self)
        ensures
            n@ == Seq::<W>::empty(),
    {
        Notify { waiters: Vec::new() }
    }

    /// Queues `waker` as registration `_id`. When the queue then holds at
    /// least `total` wakers, all of them are returned, first come first, for
    /// the caller to wake, and the queue starts over empty.
    pub fn register_and_maybe_wake_all(&mut self, _id: usize, total: usize, waker: W) -> (r: Vec<W>)
        ensures
            ({
                let all = old(self)@.push(waker);
                if all.len() >= total {
                    r@ == all && final(self)@ == Seq::<W>::empty()
                } else {
                    r@ == Seq::<W>::empty() && final(self)@ == all
                }
            }),
    {
        self.waiters.push(waker);
        if self.waiters.len() >= total {
            let mut out: Vec<W> = Vec::new();
            core::mem::swap(&mut out, &mut self.waiters);
            out
        } else {
            Vec::new()
        }
    }

    /// Drops every queued waker.
    pub fn reset(&mut self)
        ensures
            final(self)@ == Seq::<W>::empty(),
    {
        self.waiters = Vec::new();
    }
}

} // verus!
