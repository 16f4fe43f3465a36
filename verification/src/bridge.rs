//! Event-to-stream bridge: the FIFO queue that carries events from a platform
//! callback to a pulling consumer, and the advertisement snapshot it delivers.

use vstd::prelude::*;
use crate::address::BluetoothAddress;

verus! {

/// An immutable snapshot of one received BLE advertisement: the sender's
/// address and the signal strength it was seen with.
#[derive(Clone, Copy, Debug)]
pub struct Advertisement {
    pub address: BluetoothAddress,
    pub signal_strength: i16,
}

impl Advertisement {
    pub fn new(address: BluetoothAddress, signal_strength: i16) -> (r: Advertisement)
        ensures
            r.address == address,
            r.signal_strength == signal_strength,
    {
        Advertisement { address, signal_strength }
    }

    /// The MAC address of the device which sent this advertisement.
    pub fn address(&self) -> (r: BluetoothAddress)
        ensures
            r == self.address,
    {
        self.address
    }

    /// Device signal strength as seen for this advertisement, in dBm.
    pub fn signal_strength(&self) -> (r: i16)
        ensures
            r == self.signal_strength,
    {
        self.signal_strength
    }
}

/// The queue at the heart of the event-to-stream bridge.  A platform callback
/// enqueues each event at the tail; the consumer dequeues from the head, so
/// delivery order equals callback invocation order.  Once the consumer is
/// gone the queue is closed: later events are dropped, never reordered.
pub struct EventQueue<T> {
    items: Vec<T>,
    closed: bool,
}

impl<T> EventQueue<T> {
    /// The events currently queued, oldest first.
    pub closed spec fn events(self) -> Seq<T> {
        self.items@
    }

    /// Whether the consumer side has gone away.
    pub closed spec fn is_closed(self) -> bool {
        self.closed
    }

    /// An open, empty queue.
    pub fn new() -> (r: EventQueue<T>)
        ensures
            r.events() == Seq::<T>::empty(),
            !r.is_closed(),
    {
        EventQueue { items: Vec::new(), closed: false }
    }

    /// Enqueue one event at the tail.  On a closed queue the event is dropped;
    /// the producer callback never fails either way.
    pub fn push(&mut self, t: T)
        ensures
            final(self).events() == if old(self).is_closed() {
                old(self).events()
            } else {
                old(self).events().push(t)
            },
            final(self).is_closed() == old(self).is_closed(),
    {
        if !self.closed {
            self.items.push(t);
        }
    }

    /// Dequeue the oldest event, or report that none is queued.  `None` here
    /// means "nothing available now": the consumer decides whether to block
    /// for more or to give up because the source is closed.
    pub fn pop(&mut self) -> (r: Option<T>)
        ensures
            old(self).events().len() > 0 ==> {
                &&& r matches Some(t) && t == old(self).events()[0]
                &&& final(self).events() == old(self).events().drop_first()
            },
            old(self).events().len() == 0 ==> {
                &&& r is None
                &&& final(self).events() == old(self).events()
            },
            final(self).is_closed() == old(self).is_closed(),
    {
        if self.items.len() > 0 {
            let t = self.items.remove(0);
            Some(t)
        } else {
            None
        }
    }

    /// The number of events queued.
    pub fn len(&self) -> (r: usize)
        ensures
            r == self.events().len(),
    {
        self.items.len()
    }

    /// Mark the consumer side gone; queued events stay until drained.
    pub fn close(&mut self)
        ensures
            final(self).is_closed(),
            final(self).events() == old(self).events(),
    {
        self.closed = true;
    }
}

/// Events enqueued in order are dequeued in the same order: after pushing
/// `a`, `b`, `c` onto a queue holding `q`, the head positions `q.len()`,
/// `q.len() + 1` and `q.len() + 2` hold `a`, `b` and `c`, so a single
/// consumer draining the queue sees them in submission order.
pub proof fn lemma_fifo_order<T>(q: Seq<T>, a: T, b: T, c: T)
    ensures
        ({
            let s = q.push(a).push(b).push(c);
            &&& s.len() == q.len() + 3
            &&& s[q.len() as int] == a
            &&& s[q.len() as int + 1] == b
            &&& s[q.len() as int + 2] == c
        }),
{
}

/// A single consumer of a queue that held only `a`, `b`, `c` dequeues exactly
/// `a`, then `b`, then `c`, and then finds the queue empty.
pub proof fn lemma_fifo_drain<T>(a: T, b: T, c: T)
    ensures
        ({
            let s = Seq::<T>::empty().push(a).push(b).push(c);
            &&& s[0] == a
            &&& s.drop_first()[0] == b
            &&& s.drop_first().drop_first()[0] == c
            &&& s.drop_first().drop_first().drop_first() == Seq::<T>::empty()
        }),
{
    let s = Seq::<T>::empty().push(a).push(b).push(c);
    assert(s.drop_first() =~= seq![b, c]);
    assert(s.drop_first().drop_first() =~= seq![c]);
    assert(s.drop_first().drop_first().drop_first() =~= Seq::<T>::empty());
}

} // verus!
