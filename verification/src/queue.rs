use vstd::prelude::*;

use crate::message::{Message, MessageView};

verus! {

/// A bounded-capacity-hint FIFO of pending messages. `add` appends at the
/// tail, `pop_front` removes at the head. The logical size is tracked in a
/// counter beside the backing store, and the capacity hint is what
/// `shrink_if_sparse` reclaims.
pub struct Queue {
    buffer: std::collections::VecDeque<Message>,
    size: usize,
    cap: usize,
}

impl View for Queue {
    type V = Seq<MessageView>;

    closed spec fn view(&self) -> Seq<MessageView> {
        self.buffer@.map_values(|m: Message| m@)
    }
}

impl Queue {
    /// The tracked size counter.
    pub closed spec fn spec_size(&self) -> int {
        self.size as int
    }

    /// The capacity hint: how many messages the queue is currently sized for.
    pub closed spec fn spec_capacity(&self) -> int {
        self.cap as int
    }

    /// Well-formed: the counter agrees with the contents and the capacity
    /// hint covers them.
    pub closed spec fn wf(&self) -> bool {
        &&& self.size == self.buffer@.len()
        &&& self.cap >= self.buffer@.len()
    }

    /// A well-formed queue's length fits the size counter.
    pub proof fn lemma_size_bound(&self)
        requires
            self.wf(),
        ensures
            self@.len() <= usize::MAX,
    {
    }

    /// Creates an empty queue sized for `size` messages.
    pub fn new(size: usize) -> (q: Queue)
        ensures
            q.wf(),
            q@ =~= Seq::<MessageView>::empty(),
            q.spec_capacity() == size,
            q.spec_size() == 0,
    {
        Queue {
            buffer: std::collections::VecDeque::with_capacity(size),
            size: 0,
            cap: size,
        }
    }

    /// Removes and returns the message at the head, if any.
    pub fn pop_front(&mut self) -> (r: Option<Message>)
        requires
            old(self).wf(),
        ensures
            final(self).wf(),
            final(self).spec_capacity() == old(self).spec_capacity(),
            old(self)@.len() == 0 ==> r is None && final(self)@ == old(self)@,
            old(self)@.len() > 0 ==> {
                &&& r is Some
                &&& r.unwrap()@ == old(self)@[0]
                &&& final(self)@ =~= old(self)@.subrange(1, old(self)@.len() as int)
            },
            final(self).spec_size() == final(self)@.len(),
    {
        let pop = self.buffer.pop_front();

        if pop.is_some() {
            self.decrement();
            proof {
                assert(self@ =~= old(self)@.subrange(1, old(self)@.len() as int));
            }
            return pop;
        }
        proof {
            assert(self@ =~= old(self)@);
        }
        None
    }

    /// Appends a message at the tail.
    pub fn add(&mut self, message: Message)
        requires
            old(self).wf(),
            old(self)@.len() < usize::MAX,
        ensures
            final(self).wf(),
            final(self)@ =~= old(self)@.push(message@),
            final(self).spec_size() == old(self).spec_size() + 1,
            final(self).spec_capacity() == if old(self).spec_capacity() > old(self)@.len() {
                old(self).spec_capacity()
            } else {
                old(self)@.len() + 1 as int
            },
    {
        self.buffer.push_back(message);
        self.increment();
        if self.cap < self.size {
            self.cap = self.size;
        }
    }

    /// The number of messages currently queued.
    pub fn size(&self) -> (r: usize)
        requires
            self.wf(),
        ensures
            r == self@.len(),
    {
        self.size
    }

    /// The current capacity hint.
    pub fn capacity(&self) -> (r: usize)
        ensures
            r == self.spec_capacity(),
    {
        self.cap
    }

    /// If the queue is sized for more than twice its contents, re-sizes it to
    /// `max(capacity / 2, min_cap, size)`, preserving the contents and their
    /// order.
    pub fn shrink_if_sparse(&mut self, min_cap: usize)
        requires
            old(self).wf(),
        ensures
            final(self).wf(),
            final(self)@ =~= old(self)@,
            final(self).spec_size() == old(self).spec_size(),
            old(self).spec_capacity() <= 2 * old(self)@.len() ==> final(self).spec_capacity()
                == old(self).spec_capacity(),
            old(self).spec_capacity() > 2 * old(self)@.len() ==> final(self).spec_capacity() == max3(
                old(self).spec_capacity() / 2,
                min_cap as int,
                old(self)@.len() as int,
            ),
    {
        let size = self.size;
        let cap = self.cap;
        if cap - size <= size {
            return;
        }
        let mut target = cap / 2;
        if target < min_cap {
            target = min_cap;
        }
        if target < size {
            target = size;
        }

        let mut new_q = std::collections::VecDeque::with_capacity(target);
        new_q.append(&mut self.buffer);
        self.buffer = new_q;
        self.cap = target;
        proof {
            assert(self@ =~= old(self)@);
        }
    }

    fn decrement(&mut self)
        ensures
            final(self).buffer == old(self).buffer,
            final(self).cap == old(self).cap,
            old(self).spec_size() > 0 ==> final(self).spec_size() == old(self).spec_size() - 1,
            old(self).spec_size() == 0 ==> final(self).spec_size() == 0,
    {
        if self.size != 0 {
            self.size = self.size - 1;
        }
    }

    fn increment(&mut self)
        requires
            old(self).spec_size() < usize::MAX,
        ensures
            final(self).buffer == old(self).buffer,
            final(self).cap == old(self).cap,
            final(self).spec_size() == old(self).spec_size() + 1,
    {
        self.size = self.size + 1;
    }
}

/// The largest of three values.
pub open spec fn max3(a: int, b: int, c: int) -> int {
    if a >= b && a >= c {
        a
    } else if b >= c {
        b
    } else {
        c
    }
}

} // verus!
