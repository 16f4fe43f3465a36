//! Characteristic I/O state machine: a buffered byte stream over one GATT
//! characteristic.  At construction the handle commits to one of two
//! data-acquisition strategies — notification-fed when the characteristic
//! supports notify, polling otherwise — and every read drains an internal
//! FIFO byte buffer.  The platform round-trips themselves (the uncached read,
//! the value write, the notify configuration writes) are performed outside;
//! this state machine decides which call to make and accounts for every byte
//! that comes back.

use vstd::prelude::*;
use crate::capability::Capability;
use crate::capability::CharacteristicProperties;

verus! {

/// How the next read obtains new data, decided from the feed mode and the
/// buffer.
#[derive(Clone, Copy, Debug, PartialEq, Eq, Structural)]
pub enum FetchPlan {
    /// Block up to [`NOTIFY_TIMEOUT_MS`] for a notification payload.
    AwaitNotify,
    /// Take an already-queued notification payload, without blocking.
    PollNotify,
    /// Issue exactly one uncached platform read and wait for it.
    UncachedRead,
    /// Serve the read from the buffer alone.
    NoFetch,
}

/// How long a notification-fed read with an empty buffer waits for a payload
/// before returning empty-handed, in milliseconds.
pub const NOTIFY_TIMEOUT_MS: u64 = 1000;

/// The state of one characteristic I/O handle: the capability set observed at
/// construction (if the platform delivered one), the feed mode fixed for the
/// handle's lifetime, and the bytes retrieved but not yet delivered.
pub struct CharacteristicIO {
    properties: Option<CharacteristicProperties>,
    notify_fed: bool,
    buf: Vec<u8>,
}

/// The bytes a payload contributes: its contents, or nothing when no payload
/// arrived.
pub open spec fn incoming_bytes(incoming: Option<Vec<u8>>) -> Seq<u8> {
    match incoming {
        Some(d) => d@,
        None => Seq::<u8>::empty(),
    }
}

/// What a read delivers: the first `max` of the buffered bytes followed by the
/// incoming payload, or all of them when fewer are held.
pub open spec fn read_returned(buffered: Seq<u8>, incoming: Seq<u8>, max: nat) -> Seq<u8> {
    let total = buffered + incoming;
    if max <= total.len() {
        total.take(max as int)
    } else {
        total
    }
}

/// What a read leaves buffered: everything it did not deliver, in order.
pub open spec fn read_left(buffered: Seq<u8>, incoming: Seq<u8>, max: nat) -> Seq<u8> {
    let total = buffered + incoming;
    if max <= total.len() {
        total.skip(max as int)
    } else {
        Seq::<u8>::empty()
    }
}

impl CharacteristicIO {
    /// The capability set observed at construction, if any.
    pub closed spec fn props(self) -> Option<CharacteristicProperties> {
        self.properties
    }

    /// Whether this handle is fed by a notify subscription.
    pub closed spec fn notify_fed(self) -> bool {
        self.notify_fed
    }

    /// The bytes retrieved but not yet delivered to the caller, oldest first.
    pub closed spec fn buffered(self) -> Seq<u8> {
        self.buf@
    }

    /// Reading is allowed: either the platform delivered no capability set to
    /// check against, or the set contains READ.  Reading against a known set
    /// without READ is a programming error, not an I/O error.
    pub open spec fn can_read(self) -> bool {
        match self.props() {
            Some(p) => p.has(Capability::Read),
            None => true,
        }
    }

    /// Writing is allowed: either no capability set was delivered, or the set
    /// contains WRITE.
    pub open spec fn can_write(self) -> bool {
        match self.props() {
            Some(p) => p.has(Capability::Write),
            None => true,
        }
    }

    /// The feed mode a handle over these properties commits to.
    pub open spec fn wf(self) -> bool {
        self.notify_fed() == (self.props() matches Some(p) && p.has(Capability::Notify))
    }

    /// Create the state for one I/O handle.  The handle is notification-fed
    /// exactly when the observed capabilities contain NOTIFY; the caller then
    /// owes one "enable notify" configuration write and a callback that feeds
    /// each payload back in.
    pub fn new(properties: Option<CharacteristicProperties>) -> (r: CharacteristicIO)
        ensures
            r.props() == properties,
            r.wf(),
            r.buffered() == Seq::<u8>::empty(),
    {
        let notify_fed = match properties {
            Some(p) => p.contains(Capability::Notify),
            None => false,
        };
        CharacteristicIO { properties, notify_fed, buf: Vec::new() }
    }

    /// Whether this handle is fed by a notify subscription.
    pub fn is_notify_fed(&self) -> (r: bool)
        ensures
            r == self.notify_fed(),
    {
        self.notify_fed
    }

    /// Whether a read may be issued on this handle.
    pub fn readable(&self) -> (r: bool)
        ensures
            r == self.can_read(),
    {
        match &self.properties {
            Some(p) => p.contains(Capability::Read),
            None => true,
        }
    }

    /// Whether a write may be issued on this handle.
    pub fn writable(&self) -> (r: bool)
        ensures
            r == self.can_write(),
    {
        match &self.properties {
            Some(p) => p.contains(Capability::Write),
            None => true,
        }
    }

    /// The fetch the next read must perform.  Notification-fed: wait (up to
    /// the timeout) only when the buffer is empty, otherwise drain the queue
    /// opportunistically.  Poll-fed: issue one uncached read only when the
    /// buffer is empty.
    pub open spec fn fetch_plan_spec(self) -> FetchPlan {
        if self.notify_fed() {
            if self.buffered().len() == 0 {
                FetchPlan::AwaitNotify
            } else {
                FetchPlan::PollNotify
            }
        } else {
            if self.buffered().len() == 0 {
                FetchPlan::UncachedRead
            } else {
                FetchPlan::NoFetch
            }
        }
    }

    /// Decide the fetch for the next read.
    pub fn fetch_plan(&self) -> (r: FetchPlan)
        requires
            self.can_read(),
        ensures
            r == self.fetch_plan_spec(),
    {
        if self.notify_fed {
            if self.buf.len() == 0 {
                FetchPlan::AwaitNotify
            } else {
                FetchPlan::PollNotify
            }
        } else {
            if self.buf.len() == 0 {
                FetchPlan::UncachedRead
            } else {
                FetchPlan::NoFetch
            }
        }
    }

    /// Complete one read: append whatever the fetch brought in, then deliver
    /// at most `max` bytes from the front of the buffer, removing them.  An
    /// empty result does not mean end-of-stream, only that no data was
    /// available within the wait policy.
    pub fn read(&mut self, incoming: Option<Vec<u8>>, max: usize) -> (r: Vec<u8>)
        requires
            old(self).can_read(),
        ensures
            r@ == read_returned(old(self).buffered(), incoming_bytes(incoming), max as nat),
            final(self).buffered() == read_left(
                old(self).buffered(),
                incoming_bytes(incoming),
                max as nat,
            ),
            final(self).props() == old(self).props(),
            final(self).notify_fed() == old(self).notify_fed(),
    {
        if let Some(mut data) = incoming {
            self.buf.append(&mut data);
        }
        let ghost total = old(self).buffered() + incoming_bytes(incoming);
        proof {
            assert(self.buf@ =~= total);
        }
        let n = if max <= self.buf.len() {
            max
        } else {
            self.buf.len()
        };
        let mut out: Vec<u8> = Vec::new();
        let mut i: usize = 0;
        while i < n
            invariant
                i <= n,
                n <= self.buf.len(),
                self.buf@ == total,
                out@ == total.take(i as int),
            decreases n - i,
        {
            out.push(self.buf[i]);
            proof {
                assert(out@ =~= total.take(i + 1 as int));
            }
            i += 1;
        }
        let mut rest: Vec<u8> = Vec::new();
        let mut j: usize = n;
        while j < self.buf.len()
            invariant
                n <= j <= self.buf.len(),
                self.buf@ == total,
                rest@ == total.subrange(n as int, j as int),
            decreases self.buf.len() - j,
        {
            rest.push(self.buf[j]);
            proof {
                assert(rest@ =~= total.subrange(n as int, j + 1 as int));
            }
            j += 1;
        }
        self.buf = rest;
        proof {
            if max as nat <= total.len() {
                assert(out@ =~= read_returned(old(self).buffered(), incoming_bytes(incoming), max as nat));
                assert(self.buf@ =~= read_left(old(self).buffered(), incoming_bytes(incoming), max as nat));
            } else {
                assert(out@ =~= total);
                assert(self.buf@ =~= Seq::<u8>::empty());
            }
        }
        out
    }

    /// Stage one write: the exact bytes handed over, unbuffered and whole, for
    /// the platform write that follows.  A handle whose known capabilities
    /// lack WRITE must never reach that platform call, so writing then is a
    /// precondition violation, not an error result.  On success the caller
    /// reports the full length written.
    pub fn write(&self, data: &Vec<u8>) -> (r: Vec<u8>)
        requires
            self.can_write(),
        ensures
            r@ == data@,
    {
        let mut out: Vec<u8> = Vec::new();
        let mut i: usize = 0;
        while i < data.len()
            invariant
                i <= data.len(),
                out@ == data@.take(i as int),
            decreases data.len() - i,
        {
            out.push(data[i]);
            proof {
                assert(out@ =~= data@.take(i + 1 as int));
            }
            i += 1;
        }
        proof {
            assert(out@ =~= data@);
        }
        out
    }

    /// Flush is a no-op: writes are never buffered.  Like a write, it is only
    /// allowed where writing is.
    pub fn flush(&self)
        requires
            self.can_write(),
    {
    }

    /// Decide the teardown work owed when this handle is released: `true`
    /// exactly when the handle is notification-fed, in which case the caller
    /// owes one "disable notify" configuration write, whatever happened to the
    /// reads in between.
    pub fn release_plan(&self) -> (r: bool)
        ensures
            r == self.notify_fed(),
    {
        self.notify_fed
    }
}

/// A poll-fed read on an empty buffer issues exactly one uncached fetch and
/// returns the first `max` bytes of what it brought, leaving the remainder
/// buffered for the next read.
pub proof fn lemma_poll_fed_read(io: CharacteristicIO, fetched: Seq<u8>, max: nat)
    requires
        !io.notify_fed(),
        io.buffered().len() == 0,
    ensures
        io.fetch_plan_spec() == FetchPlan::UncachedRead,
        max <= fetched.len() ==> read_returned(io.buffered(), fetched, max) == fetched.take(
            max as int,
        ),
        max <= fetched.len() ==> read_left(io.buffered(), fetched, max) == fetched.skip(max as int),
        max > fetched.len() ==> read_returned(io.buffered(), fetched, max) == fetched,
        max > fetched.len() ==> read_left(io.buffered(), fetched, max) == Seq::<u8>::empty(),
{
    assert(io.buffered() + fetched =~= fetched);
}

/// A notification-fed read on an empty buffer waits for at most one timeout
/// window; when no payload arrives within it, the read returns zero bytes and
/// the buffer stays empty.
pub proof fn lemma_notify_fed_timeout(io: CharacteristicIO, max: nat)
    requires
        io.notify_fed(),
        io.buffered().len() == 0,
    ensures
        io.fetch_plan_spec() == FetchPlan::AwaitNotify,
        read_returned(io.buffered(), Seq::<u8>::empty(), max) == Seq::<u8>::empty(),
        read_left(io.buffered(), Seq::<u8>::empty(), max) == Seq::<u8>::empty(),
{
    assert(io.buffered() + Seq::<u8>::empty() =~= Seq::<u8>::empty());
}

/// Releasing a notification-fed handle always owes exactly one disable-notify
/// write: the release decision is the feed mode itself, the feed mode is
/// fixed at construction by the observed capabilities, and reads preserve it.
pub proof fn lemma_notify_teardown(io: CharacteristicIO)
    requires
        io.wf(),
    ensures
        io.notify_fed() <==> (io.props() matches Some(p) && p.has(Capability::Notify)),
{
}

/// A characteristic whose known capabilities lack WRITE admits no write at
/// all: the write precondition fails, so no verified caller reaches the
/// platform write.
pub proof fn lemma_write_gate(io: CharacteristicIO, p: CharacteristicProperties)
    requires
        io.props() == Some(p),
        !p.has(Capability::Write),
    ensures
        !io.can_write(),
{
}

} // verus!
