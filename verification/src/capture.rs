//! The live capture bridge.
//!
//! In live capture the samples come from a callback that must never block,
//! and the recognizer is run by one worker. Between the two stands a bounded
//! queue: the callback offers each captured window and returns at once,
//! whether the window was taken or not; the worker takes the windows out in
//! the order in which they were taken in, and stops when the queue is closed
//! and empty. For monitoring there is a slot that holds the latest window
//! only. Neither type locks or waits: a caller that shares one between
//! threads puts it behind its own lock.

use std::collections::VecDeque;
use vstd::prelude::*;

verus! {

/// What became of a window that was offered to the queue.
#[derive(Clone, Copy, Debug, PartialEq, Eq, Structural)]
pub enum Offer {
    /// The window stands at the back of the queue.
    Enqueued,
    /// The queue was full; the window is lost and counted.
    Dropped,
    /// The queue was closed; the window is lost.
    Rejected,
}

/// What the worker gets when it asks the queue for a window.
#[derive(Debug, PartialEq, Eq)]
pub enum Poll {
    /// The oldest window of the queue.
    Chunk(Vec<i16>),
    /// The queue is empty and open: a window may still come.
    Wait,
    /// The queue is empty and closed: no window will come.
    Done,
}

/// A bounded first-in, first-out queue of captured windows.
#[derive(Debug)]
pub struct CaptureQueue {
    slots: VecDeque<Vec<i16>>,
    capacity: usize,
    closed: bool,
    dropped: u64,
}

impl View for CaptureQueue {
    type V = Seq<Vec<i16>>;

    closed spec fn view(&self) -> Seq<Vec<i16>> {
        self.slots@
    }
}

impl CaptureQueue {
    /// Largest number of windows that the queue holds.
    pub closed spec fn spec_capacity(&self) -> usize {
        self.capacity
    }

    /// Whether the queue has been closed.
    pub closed spec fn spec_closed(&self) -> bool {
        self.closed
    }

    /// Number of windows lost to a full queue, as far as a `u64` counts.
    pub closed spec fn spec_dropped(&self) -> u64 {
        self.dropped
    }

    /// The queue is within its bound: it has room for at least one window
    /// and holds no more windows than its capacity. A new queue is, and every
    /// operation keeps it so.
    pub open spec fn is_bounded(&self) -> bool {
        0 < self.spec_capacity() && self@.len() <= self.spec_capacity()
    }

    /// An empty, open queue, or nothing for a capacity of zero.
    pub fn new(capacity: usize) -> (queue: Option<CaptureQueue>)
        ensures
            queue is Some <==> capacity > 0,
            queue matches Some(q) ==> {
                &&& q.is_bounded()
                &&& q@ == Seq::<Vec<i16>>::empty()
                &&& q.spec_capacity() == capacity
                &&& !q.spec_closed()
                &&& q.spec_dropped() == 0
            },
    {
        if capacity == 0 {
            None
        } else {
            Some(CaptureQueue { slots: VecDeque::new(), capacity, closed: false, dropped: 0 })
        }
    }

    /// Largest number of windows that the queue holds.
    pub fn capacity(&self) -> (n: usize)
        ensures
            n == self.spec_capacity(),
    {
        self.capacity
    }

    /// Number of windows in the queue.
    pub fn len(&self) -> (n: usize)
        ensures
            n == self@.len(),
    {
        self.slots.len()
    }

    /// Whether the queue has been closed.
    pub fn is_closed(&self) -> (b: bool)
        ensures
            b == self.spec_closed(),
    {
        self.closed
    }

    /// Number of windows lost to a full queue.
    pub fn dropped(&self) -> (n: u64)
        ensures
            n == self.spec_dropped(),
    {
        self.dropped
    }

    /// Offers a captured window. An open queue with room takes it in at the
    /// back. A full queue loses it and counts the loss. A closed queue loses
    /// it. The queue is otherwise unchanged, and the call never waits.
    pub fn offer(&mut self, chunk: Vec<i16>) -> (r: Offer)
        ensures
            old(self).is_bounded() ==> final(self).is_bounded(),
            final(self).spec_capacity() == old(self).spec_capacity(),
            final(self).spec_closed() == old(self).spec_closed(),
            r == if old(self).spec_closed() {
                Offer::Rejected
            } else if old(self)@.len() >= old(self).spec_capacity() {
                Offer::Dropped
            } else {
                Offer::Enqueued
            },
            final(self)@ == if r == Offer::Enqueued {
                old(self)@.push(chunk)
            } else {
                old(self)@
            },
            final(self).spec_dropped() == if r == Offer::Dropped && old(self).spec_dropped()
                < u64::MAX {
                (old(self).spec_dropped() + 1) as u64
            } else {
                old(self).spec_dropped()
            },
    {
        if self.closed {
            Offer::Rejected
        } else if self.slots.len() >= self.capacity {
            if self.dropped < u64::MAX {
                self.dropped = self.dropped + 1;
            }
            Offer::Dropped
        } else {
            self.slots.push_back(chunk);
            Offer::Enqueued
        }
    }

    /// Takes the oldest window out of the queue. An empty queue says whether
    /// to wait for more or to stop.
    pub fn poll(&mut self) -> (r: Poll)
        ensures
            old(self).is_bounded() ==> final(self).is_bounded(),
            final(self).spec_capacity() == old(self).spec_capacity(),
            final(self).spec_closed() == old(self).spec_closed(),
            final(self).spec_dropped() == old(self).spec_dropped(),
            r == if old(self)@.len() > 0 {
                Poll::Chunk(old(self)@[0])
            } else if old(self).spec_closed() {
                Poll::Done
            } else {
                Poll::Wait
            },
            final(self)@ == if old(self)@.len() > 0 {
                old(self)@.subrange(1, old(self)@.len() as int)
            } else {
                old(self)@
            },
    {
        match self.slots.pop_front() {
            Some(chunk) => Poll::Chunk(chunk),
            None => {
                if self.closed {
                    Poll::Done
                } else {
                    Poll::Wait
                }
            },
        }
    }

    /// Closes the queue at the end of the stream. What is in the queue stays
    /// to be taken out; nothing more is taken in.
    pub fn close(&mut self)
        ensures
            final(self).spec_closed(),
            final(self)@ == old(self)@,
            final(self).spec_capacity() == old(self).spec_capacity(),
            final(self).spec_dropped() == old(self).spec_dropped(),
    {
        self.closed = true;
    }
}

/// The slot for live monitoring: it holds the window that was put in last
/// and not yet taken out, and no other.
#[derive(Debug)]
pub struct MonitorSlot {
    latest: Option<Vec<i16>>,
}

impl View for MonitorSlot {
    type V = Option<Vec<i16>>;

    closed spec fn view(&self) -> Option<Vec<i16>> {
        self.latest
    }
}

impl MonitorSlot {
    /// An empty slot.
    pub fn new() -> (slot: MonitorSlot)
        ensures
            slot@ == None::<Vec<i16>>,
    {
        MonitorSlot { latest: None }
    }

    /// Puts a window into the slot and says whether a window that nobody
    /// took out was overwritten by it.
    pub fn publish(&mut self, chunk: Vec<i16>) -> (overwrote: bool)
        ensures
            final(self)@ == Some(chunk),
            overwrote == old(self)@ is Some,
    {
        let overwrote = self.latest.is_some();
        self.latest = Some(chunk);
        overwrote
    }

    /// Takes the window out of the slot, if there is one, and leaves the slot
    /// empty.
    pub fn take(&mut self) -> (chunk: Option<Vec<i16>>)
        ensures
            chunk == old(self)@,
            final(self)@ == None::<Vec<i16>>,
    {
        let mut out: Option<Vec<i16>> = None;
        std::mem::swap(&mut self.latest, &mut out);
        out
    }
}

} // verus!
