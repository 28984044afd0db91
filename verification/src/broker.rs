use vstd::prelude::*;

use crate::client::{Client, ClientView, OutboxView, SendOutcome, OUTBOX_CAPACITY};
use crate::in_progress::InProgressBuffer;
use crate::message::{Message, MessageView};
use crate::numparse::{dec_value, is_dec_u32, parse_u32};
use crate::queue::Queue;
use crate::registry::Registry;
use crate::xmlscan::{decode_utf8, extract_attr, first_tag, spec_attr, spec_first_tag};

verus! {

/// Default capacity hint for the queue and the in-progress buffer.
pub const DEFAULT_BUFFER_SIZE: usize = 10_000;

/// How many deliveries one consumer may take in a single fan-out pass, so a
/// slow consumer cannot monopolize it.
pub const MAX_BURST_PER_CLIENT: usize = 64;

/// Per-connection reader state: the peer address and whether a `subscribe`
/// frame has turned the connection into a registered consumer (taking the
/// write half with it).
pub struct ConnState {
    pub addr: u64,
    pub registered: bool,
}

/// The abstract value of a classified frame.
pub enum FrameView {
    Subscribe { prefetch: u32 },
    Send { refer: Seq<char>, bytes: Seq<u8> },
    Ack { refer: Seq<char> },
    Pong,
    UnknownTag,
    NoRootTag,
    NotUtf8,
    MissingAttribute,
    BadPrefetch,
}

/// A control frame as the dispatcher classifies it: one of the four
/// recognized elements with its required attribute, or the reason the frame
/// is skipped.
pub enum Frame {
    /// `subscribe` with a well-formed `prefetch` attribute.
    Subscribe { prefetch: u32 },
    /// `send` with its `refer` attribute and the frame's own bytes, which
    /// become the message payload.
    Send { refer: String, bytes: Vec<u8> },
    /// `ack` with its `refer` attribute.
    Ack { refer: String },
    /// `pong`: a liveness no-op.
    Pong,
    /// A root element other than the four recognized ones.
    UnknownTag,
    /// No root element in the frame.
    NoRootTag,
    /// The frame bytes are not valid UTF-8.
    NotUtf8,
    /// `subscribe` without `prefetch`, or `send`/`ack` without `refer`.
    MissingAttribute,
    /// `subscribe` whose `prefetch` is not a decimal `u32`.
    BadPrefetch,
}

impl View for Frame {
    type V = FrameView;

    open spec fn view(&self) -> FrameView {
        match self {
            Frame::Subscribe { prefetch } => FrameView::Subscribe { prefetch: *prefetch },
            Frame::Send { refer, bytes } => FrameView::Send { refer: refer@, bytes: bytes@ },
            Frame::Ack { refer } => FrameView::Ack { refer: refer@ },
            Frame::Pong => FrameView::Pong,
            Frame::UnknownTag => FrameView::UnknownTag,
            Frame::NoRootTag => FrameView::NoRootTag,
            Frame::NotUtf8 => FrameView::NotUtf8,
            Frame::MissingAttribute => FrameView::MissingAttribute,
            Frame::BadPrefetch => FrameView::BadPrefetch,
        }
    }
}

/// How a frame's bytes classify: not UTF-8, no root tag, one of the four
/// recognized elements (with their attribute rules), or an unknown tag.
pub open spec fn spec_classify(bytes: Seq<u8>) -> FrameView {
    if !vstd::utf8::valid_utf8(bytes) {
        FrameView::NotUtf8
    } else {
        let s = vstd::utf8::decode_utf8(bytes);
        match spec_first_tag(s) {
            None => FrameView::NoRootTag,
            Some(tag) => if tag == "subscribe"@ {
                match spec_attr(s, "prefetch"@) {
                    None => FrameView::MissingAttribute,
                    Some(p) => if is_dec_u32(p) {
                        FrameView::Subscribe { prefetch: dec_value(p) as u32 }
                    } else {
                        FrameView::BadPrefetch
                    },
                }
            } else if tag == "send"@ {
                match spec_attr(s, "refer"@) {
                    None => FrameView::MissingAttribute,
                    Some(r) => FrameView::Send { refer: r, bytes },
                }
            } else if tag == "ack"@ {
                match spec_attr(s, "refer"@) {
                    None => FrameView::MissingAttribute,
                    Some(r) => FrameView::Ack { refer: r },
                }
            } else if tag == "pong"@ {
                FrameView::Pong
            } else {
                FrameView::UnknownTag
            },
        }
    }
}

/// Whether two strings hold the same characters.
fn str_is(s: &String, lit: &str) -> (r: bool)
    ensures
        r == (s@ == lit@),
{
    let o: String = lit.to_owned();
    s.eq(&o)
}

/// Classifies one frame's bytes: decodes them as UTF-8, finds the root
/// element, and reads the attribute the element requires.
pub fn classify_frame(bytes: Vec<u8>) -> (f: Frame)
    ensures
        f@ == spec_classify(bytes@),
        bytes@.len() == 0 ==> f@ is NoRootTag,
{
    proof {
        if bytes@.len() == 0 {
            assert(vstd::utf8::valid_utf8(bytes@));
            assert(vstd::utf8::decode_utf8(bytes@).len() == 0);
        }
    }
    let s = match decode_utf8(&bytes) {
        None => { return Frame::NotUtf8 },
        Some(s) => s,
    };
    let tag = match first_tag(s.as_str()) {
        None => { return Frame::NoRootTag },
        Some(t) => t,
    };
    if str_is(&tag, "subscribe") {
        match extract_attr(s.as_str(), "prefetch") {
            None => Frame::MissingAttribute,
            Some(p) => match parse_u32(p.as_str()) {
                None => Frame::BadPrefetch,
                Some(v) => Frame::Subscribe { prefetch: v },
            },
        }
    } else if str_is(&tag, "send") {
        match extract_attr(s.as_str(), "refer") {
            None => Frame::MissingAttribute,
            Some(r) => Frame::Send { refer: r, bytes },
        }
    } else if str_is(&tag, "ack") {
        match extract_attr(s.as_str(), "refer") {
            None => Frame::MissingAttribute,
            Some(r) => Frame::Ack { refer: r },
        }
    } else if str_is(&tag, "pong") {
        Frame::Pong
    } else {
        Frame::UnknownTag
    }
}

/// The consumer state a fresh `subscribe` creates.
pub open spec fn fresh_client(prefetch: u32) -> ClientView {
    ClientView {
        prefetch,
        in_flight: 0,
        outbox: OutboxView { items: Seq::empty(), cap: OUTBOX_CAPACITY as int, closed: false },
    }
}

/// A consumer's state after one credit is returned, saturating at zero.
pub open spec fn released(c: ClientView) -> ClientView {
    ClientView {
        in_flight: if c.in_flight > 0 {
            (c.in_flight - 1) as u32
        } else {
            0
        },
        ..c
    }
}

/// What one classified frame does to the broker state and the connection:
/// `subscribe` registers a fresh consumer unless the connection already is
/// one; `send` enqueues; `ack` removes from the in-progress buffer and, when
/// something was removed, releases one credit of the acking connection's
/// consumer; everything else changes nothing.
pub open spec fn spec_apply(
    f: FrameView,
    q: Seq<MessageView>,
    ip: Map<Seq<char>, MessageView>,
    reg: Map<u64, ClientView>,
    conn: ConnState,
) -> (Seq<MessageView>, Map<Seq<char>, MessageView>, Map<u64, ClientView>, ConnState) {
    match f {
        FrameView::Subscribe { prefetch } => if conn.registered {
            (q, ip, reg, conn)
        } else {
            (
                q,
                ip,
                reg.insert(conn.addr, fresh_client(prefetch)),
                ConnState { registered: true, ..conn },
            )
        },
        FrameView::Send { refer, bytes } => (
            q.push(MessageView { id: refer, text: bytes }),
            ip,
            reg,
            conn,
        ),
        FrameView::Ack { refer } => if ip.contains_key(refer) {
            (
                q,
                ip.remove(refer),
                if reg.contains_key(conn.addr) {
                    reg.insert(conn.addr, released(reg[conn.addr]))
                } else {
                    reg
                },
                conn,
            )
        } else {
            (q, ip, reg, conn)
        },
        _ => (q, ip, reg, conn),
    }
}

/// One message is accounted for: still pending in the queue, or dispatched
/// and tracked in the in-progress buffer under its id.
pub open spec fn holds_message(
    q: Seq<MessageView>,
    ip: Map<Seq<char>, MessageView>,
    m: MessageView,
) -> bool {
    q.contains(m) || (ip.contains_key(m.id) && ip[m.id] == m)
}

/// Reference ids do not collide: no id twice in the queue, no queued id also
/// dispatched, and the in-progress buffer keyed by its entries' own ids.
pub open spec fn ids_unique(q: Seq<MessageView>, ip: Map<Seq<char>, MessageView>) -> bool {
    &&& forall|i: int, j: int| 0 <= i < j < q.len() ==> q[i].id != q[j].id
    &&& forall|i: int| 0 <= i < q.len() ==> !ip.contains_key(#[trigger] q[i].id)
    &&& forall|id: Seq<char>| ip.contains_key(id) ==> ip[id].id == id
}

/// An id never seen before: not on any queued message and not dispatched.
pub open spec fn fresh_id(
    id: Seq<char>,
    q: Seq<MessageView>,
    ip: Map<Seq<char>, MessageView>,
) -> bool {
    &&& forall|i: int| 0 <= i < q.len() ==> (#[trigger] q[i].id) != id
    &&& !ip.contains_key(id)
}

/// The broker engine's shared state: the pending-message queue, the
/// in-progress buffer of dispatched-but-unacknowledged messages, and the
/// consumer registry.
pub struct Broker {
    pub queue: Queue,
    pub in_progress: InProgressBuffer,
    pub registry: Registry,
}

impl Broker {
    /// All three parts are well-formed.
    pub open spec fn wf(&self) -> bool {
        &&& self.queue.wf()
        &&& self.in_progress.wf()
        &&& self.registry.wf()
        &&& self.registry@.dom().finite()
    }

    /// A broker with nothing queued, nothing dispatched, and no consumers,
    /// sized for `buffer_size` pending and dispatched messages.
    pub fn new(buffer_size: usize) -> (b: Broker)
        ensures
            b.wf(),
            b.queue@ =~= Seq::<MessageView>::empty(),
            b.in_progress@ =~= Map::<Seq<char>, MessageView>::empty(),
            b.registry@ =~= Map::<u64, ClientView>::empty(),
            b.queue.spec_capacity() == buffer_size,
            ids_unique(b.queue@, b.in_progress@),
    {
        Broker {
            queue: Queue::new(buffer_size),
            in_progress: InProgressBuffer::new(buffer_size),
            registry: Registry::new(),
        }
    }

    /// Applies one classified frame from the given connection.
    pub fn apply_frame(&mut self, conn: &mut ConnState, frame: Frame)
        requires
            old(self).wf(),
            old(self).queue@.len() < usize::MAX,
        ensures
            final(self).wf(),
            ({
                let post = spec_apply(
                    frame@,
                    old(self).queue@,
                    old(self).in_progress@,
                    old(self).registry@,
                    *old(conn),
                );
                &&& final(self).queue@ =~= post.0
                &&& final(self).in_progress@ =~= post.1
                &&& final(self).registry@ =~= post.2
                &&& *final(conn) == post.3
            }),
            ids_unique(old(self).queue@, old(self).in_progress@) && match frame@ {
                FrameView::Send { refer, .. } => fresh_id(
                    refer,
                    old(self).queue@,
                    old(self).in_progress@,
                ),
                _ => true,
            } ==> ids_unique(final(self).queue@, final(self).in_progress@),
    {
        match frame {
            Frame::Subscribe { prefetch } => {
                if !conn.registered {
                    let client = Client::new(prefetch);
                    proof {
                        assert(client@ == fresh_client(prefetch));
                    }
                    self.registry.insert(conn.addr, client);
                    conn.registered = true;
                }
            },
            Frame::Send { refer, bytes } => {
                let m = Message::new(bytes, refer);
                self.queue.add(m);
            },
            Frame::Ack { refer } => {
                let removed = self.in_progress.remove(refer.as_str());
                if removed.is_some() {
                    self.registry.release_at(conn.addr);
                }
            },
            _ => {},
        }
    }

    /// Reads one frame's bytes from a connection: classifies them and applies
    /// the result, exactly as [`Broker::apply_frame`] describes.
    pub fn handle_frame(&mut self, conn: &mut ConnState, bytes: Vec<u8>)
        requires
            old(self).wf(),
            old(self).queue@.len() < usize::MAX,
        ensures
            final(self).wf(),
            ({
                let post = spec_apply(
                    spec_classify(bytes@),
                    old(self).queue@,
                    old(self).in_progress@,
                    old(self).registry@,
                    *old(conn),
                );
                &&& final(self).queue@ =~= post.0
                &&& final(self).in_progress@ =~= post.1
                &&& final(self).registry@ =~= post.2
                &&& *final(conn) == post.3
            }),
            ids_unique(old(self).queue@, old(self).in_progress@) && match spec_classify(bytes@) {
                FrameView::Send { refer, .. } => fresh_id(
                    refer,
                    old(self).queue@,
                    old(self).in_progress@,
                ),
                _ => true,
            } ==> ids_unique(final(self).queue@, final(self).in_progress@),
            bytes@.len() == 0 ==> final(self).queue@ == old(self).queue@ && final(self).in_progress@ == old(self).in_progress@ && final(self).registry@ == old(self).registry@ && *final(conn) == *old(conn),
    {
        let frame = classify_frame(bytes);
        self.apply_frame(conn, frame);
    }

    /// A registered connection going away takes its consumer out of the
    /// registry; the queue and the in-progress buffer keep what they hold, so
    /// messages already dispatched to that consumer stay in the in-progress
    /// buffer.
    pub fn conn_closed(&mut self, conn: &ConnState) -> (removed: bool)
        requires
            old(self).wf(),
        ensures
            final(self).wf(),
            final(self).queue == old(self).queue,
            final(self).in_progress == old(self).in_progress,
            !conn.registered ==> final(self).registry@ == old(self).registry@,
            conn.registered ==> final(self).registry@ =~= old(self).registry@.remove(conn.addr)
                && removed == old(self).registry@.contains_key(conn.addr),
    {
        if conn.registered {
            self.registry.remove(conn.addr)
        } else {
            false
        }
    }

    /// A consumer's writer has failed: its outbox takes no more payloads, so
    /// the next fan-out attempt at it observes `Closed`.
    pub fn writer_failed(&mut self, addr: u64)
        requires
            old(self).wf(),
        ensures
            final(self).wf(),
            final(self).queue == old(self).queue,
            final(self).in_progress == old(self).in_progress,
            !old(self).registry@.contains_key(addr) ==> final(self).registry@ == old(self).registry@,
            old(self).registry@.contains_key(addr) ==> final(self).registry@ =~= old(self).registry@.insert(
                addr,
                ClientView {
                    outbox: OutboxView { closed: true, ..old(self).registry@[addr].outbox },
                    ..old(self).registry@[addr]
                },
            ),
    {
        self.registry.close_outbox_at(addr);
    }

    /// The admin view: how many messages are pending in the queue.
    pub fn queue_size(&self) -> (r: usize)
        requires
            self.wf(),
        ensures
            r == self.queue@.len(),
    {
        self.queue.size()
    }

    /// Reclaims capacity from sparsely populated containers: the queue and
    /// the in-progress buffer each keep their contents, and a queue holding
    /// nothing at its configured capacity hint is left exactly as it was.
    pub fn maintenance_tick(&mut self, min_cap: usize)
        requires
            old(self).wf(),
        ensures
            final(self).wf(),
            final(self).queue@ =~= old(self).queue@,
            final(self).in_progress@ == old(self).in_progress@,
            final(self).registry == old(self).registry,
            old(self).queue.spec_capacity() <= 2 * old(self).queue@.len() ==> final(self).queue.spec_capacity() == old(self).queue.spec_capacity(),
            old(self).queue.spec_capacity() > 2 * old(self).queue@.len() ==> final(self).queue.spec_capacity() == crate::queue::max3(
                old(self).queue.spec_capacity() / 2,
                min_cap as int,
                old(self).queue@.len() as int,
            ),
            old(self).queue@.len() == 0 && old(self).queue.spec_capacity() <= min_cap ==> final(self).queue.spec_capacity() == min_cap || final(self).queue.spec_capacity() == old(self).queue.spec_capacity(),
    {
        self.queue.shrink_if_sparse(min_cap);
        self.in_progress.shrink_if_sparse(min_cap);
    }
}


/// A consumer able to take a delivery right now: spare credit and an open,
/// non-full outbox.
pub open spec fn qualifying(c: ClientView) -> bool {
    &&& c.in_flight < c.prefetch
    &&& !c.outbox.closed
    &&& c.outbox.items.len() < c.outbox.cap
}

/// Messages are accounted for the same way in two broker states: pending or
/// dispatched in the one exactly when pending or dispatched in the other.
pub open spec fn same_messages(
    q1: Seq<MessageView>,
    ip1: Map<Seq<char>, MessageView>,
    q2: Seq<MessageView>,
    ip2: Map<Seq<char>, MessageView>,
) -> bool {
    forall|m: MessageView| #[trigger] holds_message(q1, ip1, m) <==> #[trigger] holds_message(
        q2,
        ip2,
        m,
    )
}

/// Membership in a non-empty sequence is membership at the head or in the
/// tail.
proof fn lemma_head_tail(q: Seq<MessageView>)
    requires
        q.len() > 0,
    ensures
        forall|m: MessageView| #[trigger] q.contains(m) <==> (m == q[0] || q.subrange(
            1,
            q.len() as int,
        ).contains(m)),
{
    let tail = q.subrange(1, q.len() as int);
    assert forall|m: MessageView| #[trigger] q.contains(m) implies (m == q[0] || tail.contains(
        m,
    )) by {
        let i = choose|i: int| 0 <= i < q.len() && q[i] == m;
        if i > 0 {
            assert(tail[i - 1] == m);
        }
    }
    assert forall|m: MessageView| (m == q[0] || tail.contains(m)) implies #[trigger] q.contains(
        m,
    ) by {
        if m == q[0] {
            assert(q[0] == m);
        } else {
            let i = choose|i: int| 0 <= i < tail.len() && tail[i] == m;
            assert(q[i + 1] == m);
        }
    }
}

/// Appending at the tail what was taken from the head accounts for the same
/// messages.
proof fn lemma_requeue_same(q: Seq<MessageView>)
    requires
        q.len() > 0,
    ensures
        forall|m: MessageView| #[trigger] q.contains(m) <==> q.subrange(
            1,
            q.len() as int,
        ).push(q[0]).contains(m),
{
    lemma_head_tail(q);
    let tail = q.subrange(1, q.len() as int);
    let requeued = tail.push(q[0]);
    assert forall|m: MessageView| #[trigger] q.contains(m) implies requeued.contains(m) by {
        if m == q[0] {
            assert(requeued[tail.len() as int] == m);
        } else {
            let i = choose|i: int| 0 <= i < tail.len() && tail[i] == m;
            assert(requeued[i] == m);
        }
    }
    assert forall|m: MessageView| #[trigger] requeued.contains(m) implies q.contains(m) by {
        let i = choose|i: int| 0 <= i < requeued.len() && requeued[i] == m;
        if i < tail.len() {
            assert(tail[i] == m);
        }
    }
}

impl Broker {
    /// Up to [`MAX_BURST_PER_CLIENT`] deliveries to one consumer: take a
    /// credit, pop the queue's head, track it in the in-progress buffer, and
    /// hand its payload to the outbox. `Full` and `Closed` roll the delivery
    /// back (untrack, return the credit, re-enqueue at the tail) and end the
    /// burst; `Closed` also reports the consumer as gone. While reference ids
    /// do not collide, no message is lost or duplicated: each stays pending
    /// or dispatched. A consumer with spare credit and a non-full, open
    /// outbox takes at least one message from a non-empty queue.
    pub fn deliver_burst(&mut self, addr: u64) -> (closed: bool)
        requires
            old(self).wf(),
            old(self).registry@.contains_key(addr),
        ensures
            final(self).wf(),
            final(self).registry@.dom() =~= old(self).registry@.dom(),
            forall|a: u64|
                a != addr && old(self).registry@.contains_key(a) ==> final(self).registry@[a]
                    == old(self).registry@[a],
            ({
                let c0 = old(self).registry@[addr];
                let c1 = final(self).registry@[addr];
                &&& c1.prefetch == c0.prefetch
                &&& c1.outbox.cap == c0.outbox.cap
                &&& c1.outbox.closed == c0.outbox.closed
                &&& c0.outbox.items.is_prefix_of(c1.outbox.items)
                &&& final(self).queue@.len() + c1.outbox.items.len() == old(self).queue@.len()
                    + c0.outbox.items.len()
            }),
            ids_unique(old(self).queue@, old(self).in_progress@) ==> ids_unique(
                final(self).queue@,
                final(self).in_progress@,
            ) && same_messages(
                old(self).queue@,
                old(self).in_progress@,
                final(self).queue@,
                final(self).in_progress@,
            ),
            ({
                let c0 = old(self).registry@[addr];
                (old(self).queue@.len() > 0 && c0.in_flight < c0.prefetch && !c0.outbox.closed
                    && c0.outbox.items.len() < c0.outbox.cap) ==> final(self).registry@[addr].outbox.items.len() > c0.outbox.items.len()
            }),
            closed ==> old(self).registry@[addr].outbox.closed,
    {
        let ghost q0 = old(self).queue@;
        let ghost ip0 = old(self).in_progress@;
        let ghost reg0 = old(self).registry@;
        let ghost c0 = reg0[addr];
        let ghost pcond = q0.len() > 0 && c0.in_flight < c0.prefetch && !c0.outbox.closed
            && c0.outbox.items.len() < c0.outbox.cap;
        let mut n: usize = 0;
        let mut done: bool = false;
        let mut closed_flag: bool = false;
        while n < MAX_BURST_PER_CLIENT && !done
            invariant
                self.wf(),
                reg0.contains_key(addr),
                c0 == reg0[addr],
                pcond == (q0.len() > 0 && c0.in_flight < c0.prefetch && !c0.outbox.closed
                    && c0.outbox.items.len() < c0.outbox.cap),
                self.registry@.dom() =~= reg0.dom(),
                self.registry@.contains_key(addr),
                forall|a: u64| a != addr && reg0.contains_key(a) ==> self.registry@[a] == reg0[a],
                ({
                    let c = self.registry@[addr];
                    &&& c.prefetch == c0.prefetch
                    &&& c.outbox.cap == c0.outbox.cap
                    &&& c.outbox.closed == c0.outbox.closed
                    &&& c0.outbox.items.is_prefix_of(c.outbox.items)
                    &&& self.queue@.len() + c.outbox.items.len() == q0.len()
                        + c0.outbox.items.len()
                }),
                ids_unique(q0, ip0) ==> ids_unique(self.queue@, self.in_progress@)
                    && same_messages(q0, ip0, self.queue@, self.in_progress@),
                pcond ==> ((n == 0 && !done && self.registry@[addr] == c0 && self.queue@ == q0)
                    || self.registry@[addr].outbox.items.len() > c0.outbox.items.len()),
                closed_flag ==> c0.outbox.closed,
            decreases (if done { 0int } else { 1int }), MAX_BURST_PER_CLIENT - n,
        {
            let ghost q_pre = self.queue@;
            let ghost ip_pre = self.in_progress@;
            let ghost reg_pre = self.registry@;
            if !self.registry.try_acquire_at(addr) {
                done = true;
            } else {
                proof {
                    self.queue.lemma_size_bound();
                }
                let popped = self.queue.pop_front();
                match popped {
                    None => {
                        self.registry.release_at(addr);
                        done = true;
                        proof {
                            assert(self.registry@ =~= reg_pre);
                        }
                    },
                    Some(msg) => {
                        let mid = msg.id().clone();
                        self.in_progress.insert(msg.clone());
                        let payload = crate::client::Client::build_payload(msg.text());
                        proof {
                            lemma_head_tail(q_pre);
                            assert(msg@ == q_pre[0]);
                            if ids_unique(q0, ip0) {
                                assert(!ip_pre.contains_key(mid@));
                            }
                        }
                        let ghost q_mid = self.queue@;
                        let ghost ip_mid = self.in_progress@;
                        let outcome = self.registry.try_send_at(addr, payload);
                        match outcome {
                            SendOutcome::Accepted => {
                                proof {
                                    let c = self.registry@[addr];
                                    assert(c.outbox.items =~= reg_pre[addr].outbox.items.push(
                                        payload@,
                                    ));
                                    assert(c0.outbox.items.is_prefix_of(c.outbox.items));
                                    if ids_unique(q0, ip0) {
                                        assert(ids_unique(q_pre, ip_pre));
                                        assert(q_mid =~= q_pre.subrange(1, q_pre.len() as int));
                                        assert(ip_mid == ip_pre.insert(msg@.id, msg@));
                                        assert forall|i: int|
                                            0 <= i < q_mid.len() implies !ip_mid.contains_key(
                                            #[trigger] q_mid[i].id,
                                        ) by {
                                            assert(q_mid[i] == q_pre[i + 1]);
                                            assert(q_pre[i + 1].id != q_pre[0].id);
                                        }
                                        assert(ids_unique(q_mid, ip_mid));
                                        assert forall|m: MessageView| #[trigger] holds_message(
                                            q0,
                                            ip0,
                                            m,
                                        ) <==> #[trigger] holds_message(q_mid, ip_mid, m) by {
                                            assert(holds_message(q0, ip0, m) <==> holds_message(
                                                q_pre,
                                                ip_pre,
                                                m,
                                            ));
                                            if holds_message(q_pre, ip_pre, m) {
                                                if q_pre.contains(m) {
                                                    if m == q_pre[0] {
                                                        assert(ip_mid[m.id] == m);
                                                    } else {
                                                        assert(q_mid.contains(m));
                                                    }
                                                } else {
                                                    assert(m.id != msg@.id);
                                                    assert(ip_mid.contains_key(m.id) && ip_mid[
                                                        m.id
                                                    ] == m);
                                                }
                                            }
                                            if holds_message(q_mid, ip_mid, m) {
                                                if q_mid.contains(m) {
                                                    assert(q_pre.contains(m));
                                                } else {
                                                    if m.id == msg@.id {
                                                        assert(m == msg@);
                                                        assert(q_pre.contains(m));
                                                    } else {
                                                        assert(ip_pre.contains_key(m.id)
                                                            && ip_pre[m.id] == m);
                                                    }
                                                }
                                            }
                                        }
                                    }
                                }
                                n = n + 1;
                            },
                            SendOutcome::Full => {
                                self.in_progress.remove(mid.as_str());
                                self.registry.release_at(addr);
                                proof {
                                    self.queue.lemma_size_bound();
                                }
                                self.queue.add(msg);
                                done = true;
                                proof {
                                    assert(self.registry@ =~= reg_pre);
                                    assert(self.queue@ =~= q_pre.subrange(
                                        1,
                                        q_pre.len() as int,
                                    ).push(msg@));
                                    if ids_unique(q0, ip0) {
                                        assert(self.in_progress@ =~= ip_pre);
                                        lemma_requeue_same(q_pre);
                                        assert forall|m: MessageView| #[trigger] holds_message(
                                            q0,
                                            ip0,
                                            m,
                                        ) <==> #[trigger] holds_message(
                                            self.queue@,
                                            self.in_progress@,
                                            m,
                                        ) by {
                                            assert(holds_message(q0, ip0, m) <==> holds_message(
                                                q_pre,
                                                ip_pre,
                                                m,
                                            ));
                                            assert(q_pre.contains(m) <==> self.queue@.contains(
                                                m,
                                            ));
                                        }
                                        assert(ids_unique(self.queue@, self.in_progress@));
                                    }
                                    if pcond && reg_pre[addr] == c0 && q_pre == q0 {
                                        assert(false);
                                    }
                                }
                            },
                            SendOutcome::Closed => {
                                self.in_progress.remove(mid.as_str());
                                self.registry.release_at(addr);
                                proof {
                                    self.queue.lemma_size_bound();
                                }
                                self.queue.add(msg);
                                done = true;
                                closed_flag = true;
                                proof {
                                    assert(self.registry@ =~= reg_pre);
                                    assert(self.queue@ =~= q_pre.subrange(
                                        1,
                                        q_pre.len() as int,
                                    ).push(msg@));
                                    if ids_unique(q0, ip0) {
                                        assert(self.in_progress@ =~= ip_pre);
                                        lemma_requeue_same(q_pre);
                                        assert forall|m: MessageView| #[trigger] holds_message(
                                            q0,
                                            ip0,
                                            m,
                                        ) <==> #[trigger] holds_message(
                                            self.queue@,
                                            self.in_progress@,
                                            m,
                                        ) by {
                                            assert(holds_message(q0, ip0, m) <==> holds_message(
                                                q_pre,
                                                ip_pre,
                                                m,
                                            ));
                                            assert(q_pre.contains(m) <==> self.queue@.contains(
                                                m,
                                            ));
                                        }
                                        assert(ids_unique(self.queue@, self.in_progress@));
                                    }
                                    assert(reg_pre[addr].outbox.closed);
                                    if pcond && reg_pre[addr] == c0 && q_pre == q0 {
                                        assert(false);
                                    }
                                }
                            },
                        }
                    },
                }
            }
        }
        closed_flag
    }

    /// One pass of the fan-out engine over every registered consumer:
    /// delivers each a burst, then drops from the registry the consumers
    /// whose writers were observed gone. While reference ids do not collide,
    /// every message stays pending or dispatched: none is lost or duplicated.
    /// When the queue is non-empty and some consumer has spare credit and an
    /// open, non-full outbox, the pass delivers at least one message.
    pub fn sender_pass(&mut self) -> (removed: Vec<u64>)
        requires
            old(self).wf(),
        ensures
            final(self).wf(),
            forall|a: u64|
                final(self).registry@.contains_key(a) ==> old(self).registry@.contains_key(a),
            ids_unique(old(self).queue@, old(self).in_progress@) ==> ids_unique(
                final(self).queue@,
                final(self).in_progress@,
            ) && same_messages(
                old(self).queue@,
                old(self).in_progress@,
                final(self).queue@,
                final(self).in_progress@,
            ),
            final(self).queue@.len() <= old(self).queue@.len(),
            (old(self).queue@.len() > 0 && exists|a: u64|
                #[trigger] old(self).registry@.contains_key(a) && qualifying(
                    old(self).registry@[a],
                )) ==> final(self).queue@.len() < old(self).queue@.len(),
    {
        let ghost q0 = old(self).queue@;
        let ghost ip0 = old(self).in_progress@;
        let ghost reg0 = old(self).registry@;
        let ghost qual = q0.len() > 0 && exists|a: u64|
            #[trigger] reg0.contains_key(a) && qualifying(reg0[a]);
        let ghost chosen: u64 = if qual {
            choose|a: u64| #[trigger] reg0.contains_key(a) && qualifying(reg0[a])
        } else {
            0
        };
        let addrs = self.registry.addrs();
        proof {
            if qual {
                assert(addrs@.contains(chosen));
            }
        }
        let mut to_remove: Vec<u64> = Vec::new();
        let mut i: usize = 0;
        while i < addrs.len()
            invariant
                self.wf(),
                qual == (q0.len() > 0 && exists|a: u64|
                    #[trigger] reg0.contains_key(a) && qualifying(reg0[a])),
                qual ==> reg0.contains_key(chosen) && qualifying(reg0[chosen]),
                forall|j: int|
                    0 <= j < addrs@.len() ==> self.registry@.contains_key(#[trigger] addrs@[j]),
                forall|a: u64|
                    self.registry@.contains_key(a) ==> old(self).registry@.contains_key(a),
                ids_unique(q0, ip0) ==> ids_unique(self.queue@, self.in_progress@)
                    && same_messages(q0, ip0, self.queue@, self.in_progress@),
                self.queue@.len() <= q0.len(),
                qual ==> (self.queue@.len() < q0.len() || (exists|k: int|
                    i <= k < addrs@.len() && addrs@[k] == chosen
                        && self.registry@.contains_key(chosen) && self.registry@[chosen]
                        == reg0[chosen] && self.queue@.len() == q0.len())),
            decreases addrs@.len() - i,
        {
            let a = addrs[i];
            let ghost q_pre = self.queue@;
            let ghost ip_pre = self.in_progress@;
            let ghost reg_pre = self.registry@;
            let was_closed = self.deliver_burst(a);
            proof {
                if ids_unique(q0, ip0) {
                    assert forall|m: MessageView| #[trigger] holds_message(q0, ip0, m)
                        <==> #[trigger] holds_message(self.queue@, self.in_progress@, m) by {
                        assert(holds_message(q0, ip0, m) <==> holds_message(q_pre, ip_pre, m));
                        assert(holds_message(q_pre, ip_pre, m) <==> holds_message(
                            self.queue@,
                            self.in_progress@,
                            m,
                        ));
                    }
                }
                if qual && self.queue@.len() >= q0.len() {
                    let k = choose|k: int|
                        i <= k < addrs@.len() && addrs@[k] == chosen
                            && reg_pre.contains_key(chosen) && reg_pre[chosen] == reg0[chosen]
                            && q_pre.len() == q0.len();
                    if addrs@[i as int] == chosen {
                        assert(self.queue@.len() < q_pre.len());
                        assert(false);
                    } else {
                        assert(k != i);
                        assert(self.registry@[chosen] == reg_pre[chosen]);
                        assert(i + 1 <= k < addrs@.len() && addrs@[k] == chosen
                            && self.registry@.contains_key(chosen) && self.registry@[chosen]
                            == reg0[chosen] && self.queue@.len() == q0.len());
                    }
                }
            }
            if was_closed {
                to_remove.push(a);
            }
            i = i + 1;
        }
        let mut k: usize = 0;
        while k < to_remove.len()
            invariant
                self.wf(),
                forall|a: u64|
                    self.registry@.contains_key(a) ==> old(self).registry@.contains_key(a),
                ids_unique(q0, ip0) ==> ids_unique(self.queue@, self.in_progress@)
                    && same_messages(q0, ip0, self.queue@, self.in_progress@),
                self.queue@.len() <= q0.len(),
                qual ==> self.queue@.len() < q0.len(),
            decreases to_remove@.len() - k,
        {
            self.registry.remove(to_remove[k]);
            k = k + 1;
        }
        to_remove
    }
}


/// A relayed frame is byte-for-byte what the producer sent: a frame whose
/// bytes classify as `send` enqueues a message whose payload is exactly those
/// bytes, and re-framing that payload for the consumer wire yields a frame
/// whose length prefix reads as the payload's length and whose body is the
/// payload again.
pub proof fn lemma_relay_verbatim(
    bytes: Seq<u8>,
    q: Seq<MessageView>,
    ip: Map<Seq<char>, MessageView>,
    reg: Map<u64, ClientView>,
    conn: ConnState,
)
    requires
        spec_classify(bytes) is Send,
        bytes.len() <= u32::MAX,
    ensures
        ({
            let f = spec_classify(bytes);
            let post = spec_apply(f, q, ip, reg, conn);
            &&& f->Send_bytes == bytes
            &&& post.0 == q.push(MessageView { id: f->Send_refer, text: bytes })
            &&& crate::codec::spec_encode_frame(bytes).subrange(
                4,
                crate::codec::spec_encode_frame(bytes).len() as int,
            ) =~= bytes
            &&& crate::codec::be32_value(
                crate::codec::spec_encode_frame(bytes).subrange(0, 4),
            ) == bytes.len()
        }),
{
    crate::codec::lemma_frame_round_trip(bytes);
}


/// The broker state after a run of `ack` frames from one connection, one
/// frame per reference id, in order.
pub open spec fn apply_acks(
    q: Seq<MessageView>,
    ip: Map<Seq<char>, MessageView>,
    reg: Map<u64, ClientView>,
    conn: ConnState,
    refs: Seq<Seq<char>>,
) -> (Seq<MessageView>, Map<Seq<char>, MessageView>, Map<u64, ClientView>, ConnState)
    decreases refs.len(),
{
    if refs.len() == 0 {
        (q, ip, reg, conn)
    } else {
        let step = spec_apply(FrameView::Ack { refer: refs[0] }, q, ip, reg, conn);
        apply_acks(step.0, step.1, step.2, step.3, refs.subrange(1, refs.len() as int))
    }
}

/// Acknowledging every dispatched message exactly once leaves nothing
/// tracked: when the reference ids to ack are exactly the in-progress
/// buffer's keys, each acked once, the buffer ends empty and the queue is
/// untouched. With an empty queue to start from - every sent message already
/// delivered - both containers end at size zero.
pub proof fn lemma_acks_drain(
    q: Seq<MessageView>,
    ip: Map<Seq<char>, MessageView>,
    reg: Map<u64, ClientView>,
    conn: ConnState,
    refs: Seq<Seq<char>>,
)
    requires
        refs.no_duplicates(),
        forall|r: Seq<char>| #[trigger] ip.contains_key(r) <==> refs.contains(r),
    ensures
        apply_acks(q, ip, reg, conn, refs).0 == q,
        apply_acks(q, ip, reg, conn, refs).1 =~= Map::empty(),
    decreases refs.len(),
{
    if refs.len() == 0 {
        assert forall|r: Seq<char>| !ip.contains_key(r) by {
            if refs.contains(r) {
                let i = choose|i: int| 0 <= i < refs.len() && refs[i] == r;
                assert(false);
            }
        }
        assert(apply_acks(q, ip, reg, conn, refs).1 =~= Map::empty());
    } else {
        let r0 = refs[0];
        assert(refs.contains(r0));
        assert(ip.contains_key(r0));
        let step = spec_apply(FrameView::Ack { refer: r0 }, q, ip, reg, conn);
        let rest = refs.subrange(1, refs.len() as int);
        assert(step.0 == q);
        assert(step.1 == ip.remove(r0));
        assert(rest.no_duplicates());
        assert forall|r: Seq<char>| #[trigger] step.1.contains_key(r) <==> rest.contains(r) by {
            if step.1.contains_key(r) {
                assert(r != r0);
                assert(refs.contains(r));
                let i = choose|i: int| 0 <= i < refs.len() && refs[i] == r;
                assert(i != 0);
                assert(rest[i - 1] == r);
            }
            if rest.contains(r) {
                let i = choose|i: int| 0 <= i < rest.len() && rest[i] == r;
                assert(refs[i + 1] == r);
                assert(ip.contains_key(r));
                assert(r != r0);
            }
        }
        lemma_acks_drain(step.0, step.1, step.2, step.3, rest);
    }
}


/// A dispatched message is not also pending: while reference ids do not
/// collide, an id tracked in the in-progress buffer stands on no queued
/// message - in particular not on the one at the queue's head.
pub proof fn lemma_dispatched_not_queued(
    q: Seq<MessageView>,
    ip: Map<Seq<char>, MessageView>,
    id: Seq<char>,
)
    requires
        ids_unique(q, ip),
        ip.contains_key(id),
    ensures
        forall|i: int| 0 <= i < q.len() ==> (#[trigger] q[i].id) != id,
{
}

} // verus!
