//! The insertion-ordered maps of the state machine are `indexmap::IndexMap`s.
//! Verus sees each map only through the sequence of its entries, in
//! insertion order; the functions below are the trusted boundary to the
//! `indexmap` crate (version 2), one per method the state machine calls.

use vstd::prelude::*;

use indexmap::IndexMap;

use super::agent::{Agent, AgentV};
use super::pending::{PendingDescription, PendingV};

verus! {

#[verifier::external_type_specification]
#[verifier::external_body]
#[verifier::reject_recursive_types(K)]
#[verifier::reject_recursive_types(V)]
#[verifier::reject_recursive_types(S)]
pub struct ExIndexMap<K, V, S>(IndexMap<K, V, S>);

/// Key of the pending-description buffer: `(session_id, agent_type)`.
pub type PendingKey = (Option<String>, Option<String>);

pub type PendingKeyV = (Option<Seq<char>>, Option<Seq<char>>);

/// Entries of the agent map, in insertion order: (key, record).
pub uninterp spec fn agent_entries(m: IndexMap<String, Agent>) -> Seq<(Seq<char>, AgentV)>;

/// Entries of the pending-stop map, in insertion order: (agent id, deadline).
pub uninterp spec fn stop_entries(m: IndexMap<String, u64>) -> Seq<(Seq<char>, u64)>;

/// Entries of the pending-description map, in insertion order.
pub uninterp spec fn pending_entries(m: IndexMap<PendingKey, PendingDescription>) -> Seq<(PendingKeyV, PendingV)>;

pub open spec fn pkey(k: PendingKey) -> PendingKeyV {
    (super::agent::opt_str(k.0), super::agent::opt_str(k.1))
}

// ---------------------------------------------------------------- agents

/// `IndexMap::new`: an empty map.
#[verifier::external_body]
pub fn agents_new() -> (m: IndexMap<String, Agent>)
    ensures
        agent_entries(m) == Seq::<(Seq<char>, AgentV)>::empty(),
{
    IndexMap::new()
}

/// `IndexMap::len`: the number of entries.
#[verifier::external_body]
pub fn agents_len(m: &IndexMap<String, Agent>) -> (r: usize)
    ensures
        r == agent_entries(*m).len(),
{
    m.len()
}

/// `IndexMap::get_index_of`: the position of the entry whose key equals `k`,
/// or `None` when no entry has that key.
#[verifier::external_body]
pub fn agents_index_of(m: &IndexMap<String, Agent>, k: &str) -> (r: Option<usize>)
    ensures
        match r {
            Some(i) => i < agent_entries(*m).len() && agent_entries(*m)[i as int].0 == k@,
            None => forall|i: int|
                0 <= i < agent_entries(*m).len() ==> (#[trigger] agent_entries(*m)[i]).0 != k@,
        },
{
    m.get_index_of(k)
}

/// `IndexMap::get_index`: the value stored at position `i`.
#[verifier::external_body]
pub fn agents_get(m: &IndexMap<String, Agent>, i: usize) -> (r: &Agent)
    requires
        i < agent_entries(*m).len(),
    ensures
        r@ == agent_entries(*m)[i as int].1,
{
    m.get_index(i).unwrap().1
}

/// `IndexMap::get_index_mut`: overwrite the value at position `i`, keeping
/// its key and position.
#[verifier::external_body]
pub fn agents_set(m: &mut IndexMap<String, Agent>, i: usize, v: Agent)
    requires
        i < agent_entries(*old(m)).len(),
    ensures
        agent_entries(*final(m)) == agent_entries(*old(m)).update(
            i as int,
            (agent_entries(*old(m))[i as int].0, v@),
        ),
{
    *m.get_index_mut(i).unwrap().1 = v;
}

/// `IndexMap::insert`: an existing key keeps its position and gets the new
/// value; a new key is appended last.
#[verifier::external_body]
pub fn agents_insert(m: &mut IndexMap<String, Agent>, k: String, v: Agent)
    ensures
        (exists|i: int|
            0 <= i < agent_entries(*old(m)).len() && agent_entries(*old(m))[i].0 == k@) ==> (exists|i: int|
            0 <= i < agent_entries(*old(m)).len() && agent_entries(*old(m))[i].0 == k@
                && agent_entries(*final(m)) == agent_entries(*old(m)).update(i, (k@, v@))),
        (forall|i: int|
            0 <= i < agent_entries(*old(m)).len() ==> agent_entries(*old(m))[i].0 != k@)
            ==> agent_entries(*final(m)) == agent_entries(*old(m)).push((k@, v@)),
{
    m.insert(k, v);
}

/// `IndexMap::shift_remove_index`: remove the entry at position `i`,
/// shifting later entries down by one; returns its value.
#[verifier::external_body]
pub fn agents_shift_remove(m: &mut IndexMap<String, Agent>, i: usize) -> (r: Agent)
    requires
        i < agent_entries(*old(m)).len(),
    ensures
        r@ == agent_entries(*old(m))[i as int].1,
        agent_entries(*final(m)) == agent_entries(*old(m)).remove(i as int),
{
    m.shift_remove_index(i).unwrap().1
}

// ---------------------------------------------------------------- stops

/// `IndexMap::new`: an empty map.
#[verifier::external_body]
pub fn stops_new() -> (m: IndexMap<String, u64>)
    ensures
        stop_entries(m) == Seq::<(Seq<char>, u64)>::empty(),
{
    IndexMap::new()
}

/// `IndexMap::len`: the number of entries.
#[verifier::external_body]
pub fn stops_len(m: &IndexMap<String, u64>) -> (r: usize)
    ensures
        r == stop_entries(*m).len(),
{
    m.len()
}

/// `IndexMap::get_index_of`: the position of the entry whose key equals `k`.
#[verifier::external_body]
pub fn stops_index_of(m: &IndexMap<String, u64>, k: &str) -> (r: Option<usize>)
    ensures
        match r {
            Some(i) => i < stop_entries(*m).len() && stop_entries(*m)[i as int].0 == k@,
            None => forall|i: int|
                0 <= i < stop_entries(*m).len() ==> (#[trigger] stop_entries(*m)[i]).0 != k@,
        },
{
    m.get_index_of(k)
}

/// `IndexMap::get_index`: the key and value at position `i`.
#[verifier::external_body]
pub fn stops_get(m: &IndexMap<String, u64>, i: usize) -> (r: (&String, u64))
    requires
        i < stop_entries(*m).len(),
    ensures
        r.0@ == stop_entries(*m)[i as int].0,
        r.1 == stop_entries(*m)[i as int].1,
{
    let (k, v) = m.get_index(i).unwrap();
    (k, *v)
}

/// `IndexMap::insert`: an existing key keeps its position and gets the new
/// value; a new key is appended last.
#[verifier::external_body]
pub fn stops_insert(m: &mut IndexMap<String, u64>, k: String, v: u64)
    ensures
        (exists|i: int|
            0 <= i < stop_entries(*old(m)).len() && stop_entries(*old(m))[i].0 == k@) ==> (exists|i: int|
            0 <= i < stop_entries(*old(m)).len() && stop_entries(*old(m))[i].0 == k@
                && stop_entries(*final(m)) == stop_entries(*old(m)).update(i, (k@, v))),
        (forall|i: int|
            0 <= i < stop_entries(*old(m)).len() ==> stop_entries(*old(m))[i].0 != k@)
            ==> stop_entries(*final(m)) == stop_entries(*old(m)).push((k@, v)),
{
    m.insert(k, v);
}

/// `IndexMap::shift_remove_index`: remove the entry at position `i`.
#[verifier::external_body]
pub fn stops_shift_remove(m: &mut IndexMap<String, u64>, i: usize)
    requires
        i < stop_entries(*old(m)).len(),
    ensures
        stop_entries(*final(m)) == stop_entries(*old(m)).remove(i as int),
{
    m.shift_remove_index(i);
}

// ---------------------------------------------------------------- pending

/// `IndexMap::new`: an empty map.
#[verifier::external_body]
pub fn pending_new() -> (m: IndexMap<PendingKey, PendingDescription>)
    ensures
        pending_entries(m) == Seq::<(PendingKeyV, PendingV)>::empty(),
{
    IndexMap::new()
}

/// `IndexMap::len`: the number of entries.
#[verifier::external_body]
pub fn pending_len(m: &IndexMap<PendingKey, PendingDescription>) -> (r: usize)
    ensures
        r == pending_entries(*m).len(),
{
    m.len()
}

/// `IndexMap::get_index_of`: the position of the entry whose key equals `k`.
#[verifier::external_body]
pub fn pending_index_of(m: &IndexMap<PendingKey, PendingDescription>, k: &PendingKey) -> (r: Option<usize>)
    ensures
        match r {
            Some(i) => i < pending_entries(*m).len() && pending_entries(*m)[i as int].0 == pkey(*k),
            None => forall|i: int|
                0 <= i < pending_entries(*m).len() ==> (#[trigger] pending_entries(*m)[i]).0 != pkey(*k),
        },
{
    m.get_index_of(k)
}

/// `IndexMap::get_index`: the value at position `i`.
#[verifier::external_body]
pub fn pending_get(m: &IndexMap<PendingKey, PendingDescription>, i: usize) -> (r: &PendingDescription)
    requires
        i < pending_entries(*m).len(),
    ensures
        r@ == pending_entries(*m)[i as int].1,
{
    m.get_index(i).unwrap().1
}

/// `IndexMap::insert`: an existing key keeps its position and gets the new
/// value; a new key is appended last.
#[verifier::external_body]
pub fn pending_insert(m: &mut IndexMap<PendingKey, PendingDescription>, k: PendingKey, v: PendingDescription)
    ensures
        (exists|i: int|
            0 <= i < pending_entries(*old(m)).len() && pending_entries(*old(m))[i].0 == pkey(k)) ==> (exists|i: int|
            0 <= i < pending_entries(*old(m)).len() && pending_entries(*old(m))[i].0 == pkey(k)
                && pending_entries(*final(m)) == pending_entries(*old(m)).update(i, (pkey(k), v@))),
        (forall|i: int|
            0 <= i < pending_entries(*old(m)).len() ==> pending_entries(*old(m))[i].0 != pkey(k))
            ==> pending_entries(*final(m)) == pending_entries(*old(m)).push((pkey(k), v@)),
{
    m.insert(k, v);
}

/// `IndexMap::shift_remove_index`: remove the entry at position `i` and
/// return its value.
#[verifier::external_body]
pub fn pending_shift_remove(m: &mut IndexMap<PendingKey, PendingDescription>, i: usize) -> (r: PendingDescription)
    requires
        i < pending_entries(*old(m)).len(),
    ensures
        r@ == pending_entries(*old(m))[i as int].1,
        pending_entries(*final(m)) == pending_entries(*old(m)).remove(i as int),
{
    m.shift_remove_index(i).unwrap().1
}

} // verus!
