use vstd::prelude::*;

verus! {

/// Capacity of a consumer's outbox: how many payloads may sit between the
/// fan-out pass and the writer before backpressure kicks in.
pub const OUTBOX_CAPACITY: usize = 1024;

/// The outcome of a non-blocking enqueue onto a consumer's outbox.
#[derive(PartialEq, Eq, Structural)]
pub enum SendOutcome {
    /// The payload was accepted and now awaits the writer.
    Accepted,
    /// The outbox is at capacity; nothing was enqueued.
    Full,
    /// The writer is gone and the outbox takes no more payloads.
    Closed,
}

/// The abstract value of an [`Outbox`]: the payloads awaiting the writer, in
/// the order they were accepted, the capacity bound, and whether the writer
/// side is gone.
pub struct OutboxView {
    pub items: Seq<Seq<u8>>,
    pub cap: int,
    pub closed: bool,
}

/// A bounded FIFO of payload bytes awaiting a consumer's writer. Accepting a
/// payload appends it; the writer takes payloads from the head, so payloads
/// leave in the order they were accepted.
pub struct Outbox {
    items: std::collections::VecDeque<Vec<u8>>,
    cap: usize,
    closed: bool,
}

impl View for Outbox {
    type V = OutboxView;

    closed spec fn view(&self) -> OutboxView {
        OutboxView {
            items: self.items@.map_values(|p: Vec<u8>| p@),
            cap: self.cap as int,
            closed: self.closed,
        }
    }
}

/// What a non-blocking enqueue does to an outbox value: refused when closed,
/// refused when at capacity, appended otherwise.
pub open spec fn spec_try_send(o: OutboxView, payload: Seq<u8>) -> (OutboxView, SendOutcome) {
    if o.closed {
        (o, SendOutcome::Closed)
    } else if o.items.len() >= o.cap {
        (o, SendOutcome::Full)
    } else {
        (OutboxView { items: o.items.push(payload), ..o }, SendOutcome::Accepted)
    }
}

impl Outbox {
    /// The outbox never holds more than its capacity.
    pub open spec fn wf(&self) -> bool {
        self@.items.len() <= self@.cap
    }

    /// Creates an open, empty outbox with the given capacity.
    pub fn new(cap: usize) -> (o: Outbox)
        ensures
            o.wf(),
            o@.items =~= Seq::<Seq<u8>>::empty(),
            o@.cap == cap,
            !o@.closed,
    {
        Outbox { items: std::collections::VecDeque::new(), cap, closed: false }
    }

    /// Non-blocking enqueue of one payload.
    pub fn try_send(&mut self, payload: Vec<u8>) -> (r: SendOutcome)
        requires
            old(self).wf(),
        ensures
            final(self).wf(),
            (final(self)@, r) == spec_try_send(old(self)@, payload@),
    {
        if self.closed {
            SendOutcome::Closed
        } else if self.items.len() >= self.cap {
            SendOutcome::Full
        } else {
            self.items.push_back(payload);
            proof {
                assert(self@.items =~= old(self)@.items.push(payload@));
                assert((self@, SendOutcome::Accepted) == spec_try_send(old(self)@, payload@));
            }
            SendOutcome::Accepted
        }
    }

    /// Takes the payload at the head, as the writer does before putting it on
    /// the wire.
    pub fn pop(&mut self) -> (r: Option<Vec<u8>>)
        requires
            old(self).wf(),
        ensures
            final(self).wf(),
            final(self)@.cap == old(self)@.cap,
            final(self)@.closed == old(self)@.closed,
            old(self)@.items.len() == 0 ==> r is None && final(self)@.items == old(self)@.items,
            old(self)@.items.len() > 0 ==> {
                &&& r is Some
                &&& r.unwrap()@ == old(self)@.items[0]
                &&& final(self)@.items =~= old(self)@.items.subrange(
                    1,
                    old(self)@.items.len() as int,
                )
            },
    {
        let r = self.items.pop_front();
        proof {
            if old(self)@.items.len() == 0 {
                assert(final(self)@.items =~= old(self)@.items);
            } else {
                assert(final(self)@.items =~= old(self)@.items.subrange(
                    1,
                    old(self)@.items.len() as int,
                ));
            }
        }
        r
    }

    /// Marks the writer as gone: every later enqueue is refused with
    /// `Closed`.
    pub fn close(&mut self)
        requires
            old(self).wf(),
        ensures
            final(self).wf(),
            final(self)@.items == old(self)@.items,
            final(self)@.cap == old(self)@.cap,
            final(self)@.closed,
    {
        self.closed = true;
    }

    /// The number of payloads awaiting the writer.
    pub fn len(&self) -> (r: usize)
        ensures
            r == self@.items.len(),
    {
        self.items.len()
    }

    /// Whether the writer side is gone.
    pub fn is_closed(&self) -> (r: bool)
        ensures
            r == self@.closed,
    {
        self.closed
    }
}

/// Payloads leave a consumer in the order they were accepted: after two
/// accepted enqueues, the earlier payload stands before the later one, and
/// ahead of both stands exactly what was already waiting.
pub proof fn lemma_outbox_fifo(o: OutboxView, p1: Seq<u8>, p2: Seq<u8>)
    requires
        spec_try_send(o, p1).1 == SendOutcome::Accepted,
        spec_try_send(spec_try_send(o, p1).0, p2).1 == SendOutcome::Accepted,
    ensures
        ({
            let after = spec_try_send(spec_try_send(o, p1).0, p2).0;
            &&& after.items =~= o.items + seq![p1, p2]
            &&& after.items[o.items.len() as int] == p1
            &&& after.items[o.items.len() as int + 1] == p2
        }),
{
    let after = spec_try_send(spec_try_send(o, p1).0, p2).0;
    assert(after.items =~= o.items + seq![p1, p2]);
}

/// The abstract value of a [`Client`]: its prefetch ceiling, its in-flight
/// count, and its outbox.
pub struct ClientView {
    pub prefetch: u32,
    pub in_flight: u32,
    pub outbox: OutboxView,
}

/// Per-consumer state: the prefetch ceiling, the count of dispatched but
/// unacknowledged messages, and the bounded outbox feeding the writer.
pub struct Client {
    prefetch: u32,
    in_flight: u32,
    outbox: Outbox,
}

impl View for Client {
    type V = ClientView;

    closed spec fn view(&self) -> ClientView {
        ClientView { prefetch: self.prefetch, in_flight: self.in_flight, outbox: self.outbox@ }
    }
}

impl Client {
    /// The credit invariant: never more in flight than the prefetch ceiling
    /// allows, and the outbox within its bound.
    pub open spec fn wf(&self) -> bool {
        &&& self@.in_flight <= self@.prefetch
        &&& self@.outbox.items.len() <= self@.outbox.cap
    }

    /// Creates a consumer with the given prefetch ceiling, no messages in
    /// flight, and an empty outbox of [`OUTBOX_CAPACITY`] payloads.
    pub fn new(prefetch: u32) -> (c: Client)
        ensures
            c.wf(),
            c@.prefetch == prefetch,
            c@.in_flight == 0,
            c@.outbox.items =~= Seq::<Seq<u8>>::empty(),
            c@.outbox.cap == OUTBOX_CAPACITY,
            !c@.outbox.closed,
    {
        Client { prefetch, in_flight: 0, outbox: Outbox::new(OUTBOX_CAPACITY) }
    }

    /// Takes one unit of credit if any is free: succeeds exactly when the
    /// in-flight count is below the prefetch ceiling, and then raises it by
    /// one.
    pub fn try_acquire(&mut self) -> (r: bool)
        requires
            old(self).wf(),
        ensures
            final(self).wf(),
            r == (old(self)@.in_flight < old(self)@.prefetch),
            r ==> final(self)@.in_flight == old(self)@.in_flight + 1,
            !r ==> final(self)@.in_flight == old(self)@.in_flight,
            final(self)@.prefetch == old(self)@.prefetch,
            final(self)@.outbox == old(self)@.outbox,
    {
        if self.in_flight < self.prefetch {
            self.in_flight = self.in_flight + 1;
            true
        } else {
            false
        }
    }

    /// Returns one unit of credit, saturating at zero.
    pub fn release(&mut self)
        requires
            old(self).wf(),
        ensures
            final(self).wf(),
            old(self)@.in_flight > 0 ==> final(self)@.in_flight == old(self)@.in_flight - 1,
            old(self)@.in_flight == 0 ==> final(self)@.in_flight == 0,
            final(self)@.prefetch == old(self)@.prefetch,
            final(self)@.outbox == old(self)@.outbox,
    {
        if self.in_flight > 0 {
            self.in_flight = self.in_flight - 1;
        }
    }

    /// The payload handed to the outbox: the message bytes, unchanged.
    pub fn build_payload(text: &Vec<u8>) -> (r: Vec<u8>)
        ensures
            r@ == text@,
    {
        let mut r: Vec<u8> = Vec::new();
        let mut i: usize = 0;
        while i < text.len()
            invariant
                i <= text@.len(),
                r@ =~= text@.subrange(0, i as int),
            decreases text@.len() - i,
        {
            r.push(text[i]);
            i = i + 1;
        }
        proof {
            assert(r@ =~= text@);
        }
        r
    }

    /// Non-blocking enqueue of one payload onto this consumer's outbox.
    pub fn try_send(&mut self, payload: Vec<u8>) -> (r: SendOutcome)
        requires
            old(self).wf(),
        ensures
            final(self).wf(),
            (final(self)@.outbox, r) == spec_try_send(old(self)@.outbox, payload@),
            final(self)@.prefetch == old(self)@.prefetch,
            final(self)@.in_flight == old(self)@.in_flight,
    {
        self.outbox.try_send(payload)
    }

    /// The writer takes the payload at the head of the outbox.
    pub fn pop_outbox(&mut self) -> (r: Option<Vec<u8>>)
        requires
            old(self).wf(),
        ensures
            final(self).wf(),
            final(self)@.prefetch == old(self)@.prefetch,
            final(self)@.in_flight == old(self)@.in_flight,
            final(self)@.outbox.cap == old(self)@.outbox.cap,
            final(self)@.outbox.closed == old(self)@.outbox.closed,
            old(self)@.outbox.items.len() == 0 ==> r is None && final(self)@.outbox.items == old(
                self,
            )@.outbox.items,
            old(self)@.outbox.items.len() > 0 ==> {
                &&& r is Some
                &&& r.unwrap()@ == old(self)@.outbox.items[0]
                &&& final(self)@.outbox.items =~= old(self)@.outbox.items.subrange(
                    1,
                    old(self)@.outbox.items.len() as int,
                )
            },
    {
        self.outbox.pop()
    }

    /// Marks this consumer's writer as gone.
    pub fn close_outbox(&mut self)
        requires
            old(self).wf(),
        ensures
            final(self).wf(),
            final(self)@.prefetch == old(self)@.prefetch,
            final(self)@.in_flight == old(self)@.in_flight,
            final(self)@.outbox.items == old(self)@.outbox.items,
            final(self)@.outbox.cap == old(self)@.outbox.cap,
            final(self)@.outbox.closed,
    {
        self.outbox.close()
    }

    /// The prefetch ceiling.
    pub fn prefetch(&self) -> (r: u32)
        ensures
            r == self@.prefetch,
    {
        self.prefetch
    }

    /// The count of dispatched but unacknowledged messages.
    pub fn in_flight(&self) -> (r: u32)
        ensures
            r == self@.in_flight,
    {
        self.in_flight
    }

    /// The number of payloads awaiting this consumer's writer.
    pub fn outbox_len(&self) -> (r: usize)
        ensures
            r == self@.outbox.items.len(),
    {
        self.outbox.len()
    }

    /// Whether this consumer's writer is gone.
    pub fn outbox_closed(&self) -> (r: bool)
        ensures
            r == self@.outbox.closed,
    {
        self.outbox.is_closed()
    }
}

/// A consumer with a prefetch ceiling of `K` never has more than `K` unacked
/// messages outstanding, and one with a ceiling of zero never acquires
/// credit at all.
pub proof fn lemma_prefetch_cap(c: Client)
    requires
        c.wf(),
    ensures
        c@.in_flight <= c@.prefetch,
        c@.prefetch == 0 ==> c@.in_flight == 0,
{
}

} // verus!
