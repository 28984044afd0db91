use vstd::prelude::*;

use crate::client::{Client, ClientView, SendOutcome, spec_try_send};

verus! {

/// The mapping an entry list stands for: later entries win, though a
/// well-formed registry never repeats a key.
pub open spec fn map_of(s: Seq<(u64, Client)>) -> Map<u64, ClientView>
    decreases s.len(),
{
    if s.len() == 0 {
        Map::empty()
    } else {
        map_of(s.drop_last()).insert(s.last().0, s.last().1@)
    }
}

/// No peer address appears twice.
pub open spec fn distinct_keys(s: Seq<(u64, Client)>) -> bool {
    forall|i: int, j: int| 0 <= i < j < s.len() ==> s[i].0 != s[j].0
}

proof fn lemma_map_of_contains(s: Seq<(u64, Client)>, a: u64)
    ensures
        map_of(s).contains_key(a) <==> exists|i: int| 0 <= i < s.len() && s[i].0 == a,
    decreases s.len(),
{
    if s.len() > 0 {
        lemma_map_of_contains(s.drop_last(), a);
        if s.last().0 == a {
            assert(s[s.len() - 1].0 == a);
        } else if map_of(s).contains_key(a) {
            let i = choose|i: int| 0 <= i < s.drop_last().len() && s.drop_last()[i].0 == a;
            assert(s[i].0 == a);
        } else if exists|i: int| 0 <= i < s.len() && s[i].0 == a {
            let i = choose|i: int| 0 <= i < s.len() && s[i].0 == a;
            assert(s.drop_last()[i].0 == a);
        }
    }
}

proof fn lemma_map_of_index(s: Seq<(u64, Client)>, i: int)
    requires
        distinct_keys(s),
        0 <= i < s.len(),
    ensures
        map_of(s).contains_key(s[i].0),
        map_of(s)[s[i].0] == s[i].1@,
    decreases s.len(),
{
    lemma_map_of_contains(s, s[i].0);
    if i < s.len() - 1 {
        assert(distinct_keys(s.drop_last()));
        assert(s.drop_last()[i] == s[i]);
        lemma_map_of_index(s.drop_last(), i);
        assert(s[i].0 != s.last().0);
    }
}

proof fn lemma_map_of_update(s: Seq<(u64, Client)>, i: int, c: Client)
    requires
        distinct_keys(s),
        0 <= i < s.len(),
    ensures
        map_of(s.update(i, (s[i].0, c))) =~= map_of(s).insert(s[i].0, c@),
        distinct_keys(s.update(i, (s[i].0, c))),
    decreases s.len(),
{
    let t = s.update(i, (s[i].0, c));
    assert(distinct_keys(t));
    if i == s.len() - 1 {
        assert(t.drop_last() =~= s.drop_last());
    } else {
        assert(t.drop_last() =~= s.drop_last().update(i, (s[i].0, c)));
        assert(distinct_keys(s.drop_last()));
        assert(s.drop_last()[i] == s[i]);
        lemma_map_of_update(s.drop_last(), i, c);
        assert(s[i].0 != s.last().0);
    }
}

proof fn lemma_map_of_remove(s: Seq<(u64, Client)>, i: int)
    requires
        distinct_keys(s),
        0 <= i < s.len(),
    ensures
        map_of(s.remove(i)) =~= map_of(s).remove(s[i].0),
        distinct_keys(s.remove(i)),
    decreases s.len(),
{
    let t = s.remove(i);
    assert(forall|k: int| 0 <= k < i ==> t[k] == s[k]);
    assert(forall|k: int| i <= k < t.len() ==> t[k] == s[k + 1]);
    assert(distinct_keys(t));
    lemma_map_of_contains(s.drop_last(), s[i].0);
    if i == s.len() - 1 {
        assert(t =~= s.drop_last());
        assert(!map_of(s.drop_last()).contains_key(s[i].0));
    } else {
        assert(t.drop_last() =~= s.drop_last().remove(i));
        assert(distinct_keys(s.drop_last()));
        assert(s.drop_last()[i] == s[i]);
        lemma_map_of_remove(s.drop_last(), i);
        assert(s[i].0 != s.last().0);
    }
}

proof fn lemma_map_of_dom_len(s: Seq<(u64, Client)>)
    requires
        distinct_keys(s),
    ensures
        map_of(s).dom().finite(),
        map_of(s).dom().len() == s.len(),
    decreases s.len(),
{
    if s.len() > 0 {
        assert(distinct_keys(s.drop_last()));
        lemma_map_of_dom_len(s.drop_last());
        lemma_map_of_contains(s.drop_last(), s.last().0);
    }
}

/// The consumer registry: peer address to per-consumer state. A peer address
/// is present at most once.
pub struct Registry {
    entries: Vec<(u64, Client)>,
}

impl View for Registry {
    type V = Map<u64, ClientView>;

    closed spec fn view(&self) -> Map<u64, ClientView> {
        map_of(self.entries@)
    }
}

impl Registry {
    /// Well-formed: no repeated address, every consumer's credit invariant
    /// holds.
    pub closed spec fn wf(&self) -> bool {
        &&& distinct_keys(self.entries@)
        &&& forall|i: int| 0 <= i < self.entries@.len() ==> (#[trigger] self.entries@[i].1).wf()
    }

    /// Every registered consumer observes the credit invariant.
    pub open spec fn all_wf(&self) -> bool {
        forall|a: u64|
            self@.contains_key(a) ==> (#[trigger] self@[a]).in_flight <= self@[a].prefetch
                && self@[a].outbox.items.len() <= self@[a].outbox.cap
    }

    /// An empty registry.
    pub fn new() -> (r: Registry)
        ensures
            r.wf(),
            r@ =~= Map::<u64, ClientView>::empty(),
            r@.dom().finite(),
    {
        let r = Registry { entries: Vec::new() };
        proof {
            lemma_map_of_dom_len(r.entries@);
        }
        r
    }

    /// Every registered consumer observes the credit invariant: its
    /// in-flight count never exceeds its prefetch ceiling, and its outbox
    /// never exceeds its bound.
    pub proof fn lemma_all_clients_wf(&self)
        requires
            self.wf(),
        ensures
            self.all_wf(),
    {
        assert forall|a: u64| self@.contains_key(a) implies (#[trigger] self@[a]).in_flight
            <= self@[a].prefetch && self@[a].outbox.items.len() <= self@[a].outbox.cap by {
            lemma_map_of_contains(self.entries@, a);
            let i = choose|i: int| 0 <= i < self.entries@.len() && self.entries@[i].0 == a;
            lemma_map_of_index(self.entries@, i);
        }
    }

    fn index_of(&self, addr: u64) -> (r: Option<usize>)
        requires
            self.wf(),
        ensures
            r is Some ==> 0 <= r.unwrap() < self.entries@.len() && self.entries@[
                r.unwrap() as int
            ].0 == addr,
            r is None ==> !self@.contains_key(addr),
            r is Some ==> self@.contains_key(addr) && self@[addr] == self.entries@[
                r.unwrap() as int
            ].1@,
    {
        let mut i: usize = 0;
        while i < self.entries.len()
            invariant
                self.wf(),
                i <= self.entries@.len(),
                forall|j: int| 0 <= j < i ==> self.entries@[j].0 != addr,
            decreases self.entries@.len() - i,
        {
            if self.entries[i].0 == addr {
                proof {
                    lemma_map_of_index(self.entries@, i as int);
                }
                return Some(i);
            }
            i = i + 1;
        }
        proof {
            lemma_map_of_contains(self.entries@, addr);
        }
        None
    }

    /// Whether a consumer is registered under this address.
    pub fn contains(&self, addr: u64) -> (r: bool)
        requires
            self.wf(),
        ensures
            r == self@.contains_key(addr),
    {
        self.index_of(addr).is_some()
    }

    /// The number of registered consumers.
    pub fn len(&self) -> (r: usize)
        requires
            self.wf(),
        ensures
            self@.dom().finite(),
            r == self@.dom().len(),
    {
        proof {
            lemma_map_of_dom_len(self.entries@);
        }
        self.entries.len()
    }

    /// Registers a consumer under an address, replacing any consumer already
    /// there.
    pub fn insert(&mut self, addr: u64, client: Client)
        requires
            old(self).wf(),
            client.wf(),
            old(self)@.dom().finite(),
        ensures
            final(self).wf(),
            final(self)@ =~= old(self)@.insert(addr, client@),
            final(self)@.dom().finite(),
    {
        proof {
            lemma_map_of_dom_len(self.entries@);
        }
        let idx = self.index_of(addr);
        match idx {
            Some(i) => {
                proof {
                    lemma_map_of_update(self.entries@, i as int, client);
                }
                self.entries[i] = (addr, client);
                proof {
                    lemma_map_of_dom_len(self.entries@);
                }
            },
            None => {
                proof {
                    let t = self.entries@.push((addr, client));
                    assert(t.drop_last() =~= self.entries@);
                    lemma_map_of_contains(self.entries@, addr);
                    assert(distinct_keys(t));
                }
                self.entries.push((addr, client));
                proof {
                    lemma_map_of_dom_len(self.entries@);
                }
            },
        }
    }

    /// Removes the consumer registered under an address, if any, and says
    /// whether one was there.
    pub fn remove(&mut self, addr: u64) -> (r: bool)
        requires
            old(self).wf(),
        ensures
            final(self).wf(),
            r == old(self)@.contains_key(addr),
            final(self)@ =~= old(self)@.remove(addr),
    {
        let idx = self.index_of(addr);
        match idx {
            Some(i) => {
                proof {
                    lemma_map_of_remove(self.entries@, i as int);
                }
                self.entries.remove(i);
                true
            },
            None => {
                proof {
                    assert(final(self)@ =~= old(self)@.remove(addr));
                }
                false
            },
        }
    }

    /// A snapshot of the registered addresses, each exactly once.
    pub fn addrs(&self) -> (r: Vec<u64>)
        requires
            self.wf(),
        ensures
            r@.no_duplicates(),
            forall|i: int| 0 <= i < r@.len() ==> self@.contains_key(#[trigger] r@[i]),
            forall|a: u64| self@.contains_key(a) ==> r@.contains(a),
    {
        let mut r: Vec<u64> = Vec::new();
        let mut i: usize = 0;
        while i < self.entries.len()
            invariant
                self.wf(),
                i <= self.entries@.len(),
                r@.len() == i,
                forall|j: int| 0 <= j < i ==> r@[j] == self.entries@[j].0,
            decreases self.entries@.len() - i,
        {
            r.push(self.entries[i].0);
            i = i + 1;
        }
        proof {
            assert(r@.no_duplicates());
            assert forall|k: int| 0 <= k < r@.len() implies self@.contains_key(
                #[trigger] r@[k],
            ) by {
                lemma_map_of_index(self.entries@, k);
            }
            assert forall|a: u64| self@.contains_key(a) implies r@.contains(a) by {
                lemma_map_of_contains(self.entries@, a);
                let k = choose|k: int| 0 <= k < self.entries@.len() && self.entries@[k].0 == a;
                assert(r@[k] == a);
            }
        }
        r
    }

    /// Takes one unit of credit from the consumer at this address: succeeds
    /// exactly when one is registered there with spare credit.
    pub fn try_acquire_at(&mut self, addr: u64) -> (r: bool)
        requires
            old(self).wf(),
        ensures
            final(self).wf(),
            !old(self)@.contains_key(addr) ==> !r && final(self)@ == old(self)@,
            old(self)@.contains_key(addr) ==> {
                let c = old(self)@[addr];
                &&& r == (c.in_flight < c.prefetch)
                &&& (r ==> final(self)@ =~= old(self)@.insert(
                    addr,
                    ClientView { in_flight: (c.in_flight + 1) as u32, ..c },
                ))
                &&& (!r ==> final(self)@ == old(self)@)
            },
    {
        let idx = self.index_of(addr);
        match idx {
            Some(i) => {
                let mut entry = self.entries.remove(i);
                let got = entry.1.try_acquire();
                self.entries.insert(i, entry);
                proof {
                    assert(self.entries@ =~= old(self).entries@.update(
                        i as int,
                        (addr, entry.1),
                    ));
                    lemma_map_of_update(old(self).entries@, i as int, entry.1);
                    if !got {
                        assert(final(self)@ =~= old(self)@);
                    }
                }
                got
            },
            None => false,
        }
    }

    /// Returns one unit of credit to the consumer at this address, saturating
    /// at zero; does nothing when none is registered there.
    pub fn release_at(&mut self, addr: u64)
        requires
            old(self).wf(),
        ensures
            final(self).wf(),
            !old(self)@.contains_key(addr) ==> final(self)@ == old(self)@,
            old(self)@.contains_key(addr) ==> {
                let c = old(self)@[addr];
                final(self)@ =~= old(self)@.insert(
                    addr,
                    ClientView {
                        in_flight: if c.in_flight > 0 {
                            (c.in_flight - 1) as u32
                        } else {
                            0
                        },
                        ..c
                    },
                )
            },
    {
        let idx = self.index_of(addr);
        match idx {
            Some(i) => {
                let mut entry = self.entries.remove(i);
                entry.1.release();
                self.entries.insert(i, entry);
                proof {
                    assert(self.entries@ =~= old(self).entries@.update(
                        i as int,
                        (addr, entry.1),
                    ));
                    lemma_map_of_update(old(self).entries@, i as int, entry.1);
                }
            },
            None => {},
        }
    }

    /// Non-blocking enqueue of a payload onto the outbox of the consumer at
    /// this address.
    pub fn try_send_at(&mut self, addr: u64, payload: Vec<u8>) -> (r: SendOutcome)
        requires
            old(self).wf(),
            old(self)@.contains_key(addr),
        ensures
            final(self).wf(),
            ({
                let c = old(self)@[addr];
                let (ob, outcome) = spec_try_send(c.outbox, payload@);
                &&& r == outcome
                &&& final(self)@ =~= old(self)@.insert(addr, ClientView { outbox: ob, ..c })
            }),
    {
        let idx = self.index_of(addr);
        match idx {
            Some(i) => {
                let mut entry = self.entries.remove(i);
                let outcome = entry.1.try_send(payload);
                self.entries.insert(i, entry);
                proof {
                    assert(self.entries@ =~= old(self).entries@.update(
                        i as int,
                        (addr, entry.1),
                    ));
                    lemma_map_of_update(old(self).entries@, i as int, entry.1);
                }
                outcome
            },
            None => SendOutcome::Closed,
        }
    }

    /// The writer for the consumer at this address takes the payload at the
    /// head of its outbox.
    pub fn pop_outbox_at(&mut self, addr: u64) -> (r: Option<Vec<u8>>)
        requires
            old(self).wf(),
        ensures
            final(self).wf(),
            !old(self)@.contains_key(addr) ==> r is None && final(self)@ == old(self)@,
            old(self)@.contains_key(addr) ==> {
                let c = old(self)@[addr];
                &&& (c.outbox.items.len() == 0 ==> r is None && final(self)@ == old(self)@)
                &&& (c.outbox.items.len() > 0 ==> r is Some && r.unwrap()@ == c.outbox.items[0]
                    && final(self)@ =~= old(self)@.insert(
                    addr,
                    ClientView {
                        outbox: crate::client::OutboxView {
                            items: c.outbox.items.subrange(1, c.outbox.items.len() as int),
                            ..c.outbox
                        },
                        ..c
                    },
                ))
            },
    {
        let idx = self.index_of(addr);
        match idx {
            Some(i) => {
                let mut entry = self.entries.remove(i);
                let r = entry.1.pop_outbox();
                self.entries.insert(i, entry);
                proof {
                    assert(self.entries@ =~= old(self).entries@.update(
                        i as int,
                        (addr, entry.1),
                    ));
                    lemma_map_of_update(old(self).entries@, i as int, entry.1);
                    if old(self)@[addr].outbox.items.len() == 0 {
                        assert(final(self)@ =~= old(self)@);
                    }
                }
                r
            },
            None => None,
        }
    }

    /// Marks the writer of the consumer at this address as gone.
    pub fn close_outbox_at(&mut self, addr: u64)
        requires
            old(self).wf(),
        ensures
            final(self).wf(),
            !old(self)@.contains_key(addr) ==> final(self)@ == old(self)@,
            old(self)@.contains_key(addr) ==> {
                let c = old(self)@[addr];
                final(self)@ =~= old(self)@.insert(
                    addr,
                    ClientView {
                        outbox: crate::client::OutboxView { closed: true, ..c.outbox },
                        ..c
                    },
                )
            },
    {
        let idx = self.index_of(addr);
        match idx {
            Some(i) => {
                let mut entry = self.entries.remove(i);
                entry.1.close_outbox();
                self.entries.insert(i, entry);
                proof {
                    assert(self.entries@ =~= old(self).entries@.update(
                        i as int,
                        (addr, entry.1),
                    ));
                    lemma_map_of_update(old(self).entries@, i as int, entry.1);
                }
            },
            None => {},
        }
    }

    /// The in-flight count of the consumer at this address.
    pub fn in_flight_at(&self, addr: u64) -> (r: Option<u32>)
        requires
            self.wf(),
        ensures
            r is Some <==> self@.contains_key(addr),
            r is Some ==> r.unwrap() == self@[addr].in_flight,
    {
        match self.index_of(addr) {
            Some(i) => Some(self.entries[i].1.in_flight()),
            None => None,
        }
    }

    /// The number of payloads awaiting the writer of the consumer at this
    /// address.
    pub fn outbox_len_at(&self, addr: u64) -> (r: Option<usize>)
        requires
            self.wf(),
        ensures
            r is Some <==> self@.contains_key(addr),
            r is Some ==> r.unwrap() == self@[addr].outbox.items.len(),
    {
        match self.index_of(addr) {
            Some(i) => Some(self.entries[i].1.outbox_len()),
            None => None,
        }
    }
}

} // verus!
