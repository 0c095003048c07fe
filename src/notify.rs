//! Fan-out of closed notebook headers: each subscriber has a bounded buffer,
//! and a full buffer drops the message instead of holding up the notary.
use vstd::prelude::*;

verus! {

/// What became of one message offered to a subscriber.
#[derive(Clone, Copy, Debug, PartialEq, Eq, Structural)]
pub enum SendOutcome {
    Delivered,
    /// The subscriber is slow and its buffer is full: the message is dropped.
    Dropped,
    /// The subscriber went away: stop sending to it.
    Closed,
}

/// One subscriber's bounded buffer.
pub struct SubscriberBuffer<T> {
    pub capacity: usize,
    pub queue: Vec<T>,
    pub closed: bool,
}

impl<T> SubscriberBuffer<T> {
    pub fn new(capacity: usize) -> (r: SubscriberBuffer<T>)
        ensures
            r.capacity == capacity,
            r.queue@.len() == 0,
            !r.closed,
    {
        SubscriberBuffer { capacity, queue: Vec::new(), closed: false }
    }

    /// Offers a message without ever waiting.
    pub fn try_send(&mut self, item: T) -> (r: SendOutcome)
        ensures
            final(self).capacity == old(self).capacity,
            final(self).closed == old(self).closed,
            old(self).closed ==> r == SendOutcome::Closed && final(self).queue@ == old(self).queue@,
            !old(self).closed && old(self).queue@.len() >= old(self).capacity ==> r == SendOutcome::Dropped
                && final(self).queue@ == old(self).queue@,
            !old(self).closed && old(self).queue@.len() < old(self).capacity ==> r == SendOutcome::Delivered
                && final(self).queue@ == old(self).queue@.push(item),
    {
        if self.closed {
            return SendOutcome::Closed;
        }
        if self.queue.len() >= self.capacity {
            return SendOutcome::Dropped;
        }
        self.queue.push(item);
        SendOutcome::Delivered
    }

    /// Takes the oldest message, if any.
    pub fn receive(&mut self) -> (r: Option<T>)
        ensures
            final(self).capacity == old(self).capacity,
            final(self).closed == old(self).closed,
            old(self).queue@.len() == 0 ==> r is None && final(self).queue@ == old(self).queue@,
            old(self).queue@.len() > 0 ==> r == Some(old(self).queue@[0]) && final(self).queue@ == old(self).queue@.drop_first(),
    {
        if self.queue.len() == 0 {
            return None;
        }
        let item = self.queue.remove(0);
        assert(self.queue@ =~= old(self).queue@.drop_first());
        Some(item)
    }

    /// The subscriber leaves.
    pub fn close(&mut self)
        ensures
            final(self).closed,
            final(self).capacity == old(self).capacity,
            final(self).queue@ == old(self).queue@,
    {
        self.closed = true;
    }
}

} // verus!
