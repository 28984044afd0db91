use vstd::prelude::*;

use dashmap::DashMap;

use crate::message::{Message, MessageView};

verus! {

#[verifier::external_type_specification]
#[verifier::external_body]
#[verifier::reject_recursive_types(K)]
#[verifier::reject_recursive_types(V)]
#[verifier::reject_recursive_types(S)]
pub struct ExDashMap<K, V, S>(dashmap::DashMap<K, V, S>);

/// The concurrent map type that backs the buffer.
type Table = DashMap<String, Message>;

/// What a dispatch map holds: reference id to message value.
pub uninterp spec fn dash_contents(m: Table) -> Map<Seq<char>, MessageView>;

/// Relies on dashmap's DashMap::with_capacity: a freshly created map holds
/// nothing.
#[verifier::external_body]
fn dash_with_capacity(size: usize) -> (m: Table)
    ensures
        dash_contents(m).dom() =~= Set::<Seq<char>>::empty(),
{
    DashMap::with_capacity(size)
}

/// Relies on dashmap's DashMap::insert: maps the key to the new value,
/// replacing any entry already under that key.
#[verifier::external_body]
fn dash_insert(m: &mut Table, id: String, message: Message)
    ensures
        dash_contents(*final(m)) == dash_contents(*old(m)).insert(id@, message@),
{
    m.insert(id, message);
}

/// Relies on dashmap's DashMap::remove: takes the entry under the key out of
/// the map and returns its value, or returns nothing when no entry is there.
#[verifier::external_body]
fn dash_remove(m: &mut Table, id: &str) -> (r: Option<Message>)
    ensures
        dash_contents(*old(m)).contains_key(id@) ==> {
            &&& r is Some
            &&& r.unwrap()@ == dash_contents(*old(m))[id@]
            &&& dash_contents(*final(m)) == dash_contents(*old(m)).remove(id@)
        },
        !dash_contents(*old(m)).contains_key(id@) ==> r is None && dash_contents(*final(m))
            == dash_contents(*old(m)),
{
    m.remove(id).map(|(_, v)| v)
}

/// Relies on dashmap's DashMap::len: the number of entries in the map.
#[verifier::external_body]
fn dash_len(m: &Table) -> (r: usize)
    ensures
        dash_contents(*m).dom().finite() ==> r == dash_contents(*m).dom().len(),
{
    m.len()
}

/// Relies on dashmap's DashMap::capacity: how many entries the map can store
/// without reallocating, which is at least what it stores now.
#[verifier::external_body]
fn dash_capacity(m: &Table) -> (r: usize)
    ensures
        dash_contents(*m).dom().finite() ==> r >= dash_contents(*m).dom().len(),
{
    m.capacity()
}

/// The side table of dispatched-but-unacknowledged messages, keyed by
/// reference id. An insert under an id already present replaces the earlier
/// entry, silently dropping it from tracking.
pub struct InProgressBuffer {
    buffer: Table,
}

impl View for InProgressBuffer {
    type V = Map<Seq<char>, MessageView>;

    closed spec fn view(&self) -> Map<Seq<char>, MessageView> {
        dash_contents(self.buffer)
    }
}

impl InProgressBuffer {
    /// Well-formed: the table holds finitely many entries.
    pub closed spec fn wf(&self) -> bool {
        dash_contents(self.buffer).dom().finite()
    }

    /// Creates an empty buffer sized for `size` entries.
    pub fn new(size: usize) -> (r: InProgressBuffer)
        ensures
            r.wf(),
            r@ =~= Map::<Seq<char>, MessageView>::empty(),
    {
        let r = InProgressBuffer { buffer: dash_with_capacity(size) };
        proof {
            assert(r@ =~= Map::<Seq<char>, MessageView>::empty());
        }
        r
    }

    /// Tracks a dispatched message under its reference id, replacing any
    /// entry already under that id.
    pub fn insert(&mut self, message: Message)
        requires
            old(self).wf(),
        ensures
            final(self).wf(),
            final(self)@ == old(self)@.insert(message@.id, message@),
    {
        let id = message.id().clone();
        dash_insert(&mut self.buffer, id, message);
    }

    /// Takes the entry under this reference id out of the buffer, if any.
    pub fn remove(&mut self, id: &str) -> (r: Option<Message>)
        requires
            old(self).wf(),
        ensures
            final(self).wf(),
            old(self)@.contains_key(id@) ==> {
                &&& r is Some
                &&& r.unwrap()@ == old(self)@[id@]
                &&& final(self)@ == old(self)@.remove(id@)
            },
            !old(self)@.contains_key(id@) ==> r is None && final(self)@ == old(self)@,
    {
        dash_remove(&mut self.buffer, id)
    }

    /// The number of dispatched-but-unacknowledged messages.
    pub fn len(&self) -> (r: usize)
        requires
            self.wf(),
        ensures
            r == self@.dom().len(),
    {
        dash_len(&self.buffer)
    }

    /// How many entries the buffer can hold without reallocating.
    pub fn capacity(&self) -> (r: usize)
        requires
            self.wf(),
        ensures
            r >= self@.dom().len(),
    {
        dash_capacity(&self.buffer)
    }

    /// Sizes a replacement table to `max(capacity / 2, min_cap, len)` when
    /// the table is sized for more than twice its contents. The replacement
    /// is never installed in place of the live table, so the entries and the
    /// live table's allocation stay as they were; callers that need real
    /// reclamation must drain and rebuild instead.
    pub fn shrink_if_sparse(&mut self, min_cap: usize)
        requires
            old(self).wf(),
        ensures
            final(self).wf(),
            final(self)@ == old(self)@,
    {
        let len = dash_len(&self.buffer);
        let cap = dash_capacity(&self.buffer);
        if cap - len <= len {
            return;
        }
        let mut target = cap / 2;
        if target < min_cap {
            target = min_cap;
        }
        if target < len {
            target = len;
        }
        let _replacement = dash_with_capacity(target);
    }
}

} // verus!
