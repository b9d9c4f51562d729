use vstd::prelude::*;

use crate::message::MsgView;
use crate::message::QuickwitLogMessage;
use crate::message::msg_views;

verus! {

/// What one attempt to take an envelope from the queue found: the oldest
/// envelope, nothing yet (the worker would wait), or a closed and drained
/// queue (the worker's sole shutdown signal).
pub enum DequeueOutcome {
    Item(QuickwitLogMessage),
    Pending,
    Closed,
}

/// The bounded hand-off channel from the capture path to the background
/// worker: first in, first out, with a fixed capacity. Enqueueing never
/// blocks; a full queue drops the envelope.
pub struct EnvelopeQueue {
    items: Vec<QuickwitLogMessage>,
    capacity: usize,
    closed: bool,
}

impl EnvelopeQueue {
    /// The queued envelopes, oldest first.
    pub closed spec fn contents(self) -> Seq<MsgView> {
        msg_views(self.items@)
    }

    /// The fixed capacity the queue was created with.
    pub closed spec fn cap(self) -> int {
        self.capacity as int
    }

    /// Whether the producer side has been dropped.
    pub closed spec fn is_closed(self) -> bool {
        self.closed
    }

    pub open spec fn wf(self) -> bool {
        self.contents().len() <= self.cap()
    }

    pub fn new(capacity: usize) -> (r: Self)
        ensures
            r.wf(),
            r.contents() =~= Seq::<MsgView>::empty(),
            r.cap() == capacity,
            !r.is_closed(),
    {
        EnvelopeQueue { items: Vec::new(), capacity, closed: false }
    }

    /// Offer an envelope without blocking: accepted and appended unless
    /// the queue is full or closed, in which case it is dropped silently.
    pub fn try_enqueue(&mut self, msg: QuickwitLogMessage) -> (accepted: bool)
        requires
            old(self).wf(),
        ensures
            final(self).wf(),
            final(self).cap() == old(self).cap(),
            final(self).is_closed() == old(self).is_closed(),
            accepted == (!old(self).is_closed() && old(self).contents().len() < old(self).cap()),
            accepted ==> final(self).contents() =~= old(self).contents().push(msg@),
            !accepted ==> final(self).contents() == old(self).contents(),
    {
        if self.closed || self.items.len() >= self.capacity {
            return false;
        }
        self.items.push(msg);
        proof {
            assert(self.contents() =~= old(self).contents().push(msg@));
        }
        true
    }

    /// Take the oldest envelope. An empty open queue reports `Pending`
    /// (the worker would suspend); an empty closed queue reports `Closed`.
    /// Envelopes still queued when the queue closes are handed out first.
    pub fn dequeue(&mut self) -> (r: DequeueOutcome)
        requires
            old(self).wf(),
        ensures
            final(self).wf(),
            final(self).cap() == old(self).cap(),
            final(self).is_closed() == old(self).is_closed(),
            old(self).contents().len() > 0 ==> (r matches DequeueOutcome::Item(m) && m@ == old(
                self,
            ).contents()[0] && final(self).contents() =~= old(self).contents().drop_first()),
            old(self).contents().len() == 0 ==> final(self).contents() == old(self).contents() && r
                == (if old(self).is_closed() {
                DequeueOutcome::Closed
            } else {
                DequeueOutcome::Pending
            }),
    {
        if self.items.len() > 0 {
            let m = self.items.remove(0);
            proof {
                assert(self.contents() =~= old(self).contents().drop_first());
            }
            DequeueOutcome::Item(m)
        } else if self.closed {
            DequeueOutcome::Closed
        } else {
            DequeueOutcome::Pending
        }
    }

    /// Drop the producer side: no envelope is accepted afterwards, and
    /// once drained the queue reports `Closed`.
    pub fn close(&mut self)
        requires
            old(self).wf(),
        ensures
            final(self).wf(),
            final(self).cap() == old(self).cap(),
            final(self).contents() == old(self).contents(),
            final(self).is_closed(),
    {
        self.closed = true;
    }

    /// How many envelopes wait in the queue.
    pub fn len(&self) -> (n: usize)
        ensures
            n == self.contents().len(),
    {
        self.items.len()
    }

    /// The fixed capacity the queue was created with.
    pub fn capacity(&self) -> (n: usize)
        ensures
            n == self.cap(),
    {
        self.capacity
    }
}

} // verus!
