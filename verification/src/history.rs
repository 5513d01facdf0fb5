//! A map seen through the changes made to it, and what holds after every
//! run of changes.
use crate::mem::{KeyRef, ValueRef};
use crate::traits::{coherent, value_at, with_entry, Entries};
use vstd::prelude::*;

verus! {

/// One change made to a map.
pub enum Change<K, V> {
    /// A key-half and a value-half were stored.
    Stored(KeyRef<K>, ValueRef<V>),
    /// What stood under a key, if anything, was removed.
    Removed(K),
}

impl<K, V> Change<K, V> {
    /// The key under which the change is made.
    pub open spec fn key(self) -> K {
        match self {
            Change::Stored(key, _) => key@,
            Change::Removed(key) => key,
        }
    }

    /// The entries after the change is made to `entries`.
    pub open spec fn apply(self, entries: Entries<K, V>) -> Entries<K, V> {
        match self {
            Change::Stored(key, value) => with_entry(entries, key, value),
            Change::Removed(key) => entries.remove(key),
        }
    }
}

/// The entries of a map that was empty and then went through `changes`, one
/// after the other.
pub open spec fn replay<K, V>(changes: Seq<Change<K, V>>) -> Entries<K, V>
    decreases changes.len(),
{
    if changes.len() == 0 {
        Map::empty()
    } else {
        changes.last().apply(replay(changes.drop_last()))
    }
}

/// The latest of `changes` made under `key`, if any was.
pub open spec fn latest<K, V>(changes: Seq<Change<K, V>>, key: K) -> Option<Change<K, V>>
    decreases changes.len(),
{
    if changes.len() == 0 {
        None
    } else if changes.last().key() == key {
        Some(changes.last())
    } else {
        latest(changes.drop_last(), key)
    }
}

/// Whether the latest change under `key` stored something there.
pub open spec fn stands<K, V>(changes: Seq<Change<K, V>>, key: K) -> bool {
    latest(changes, key) matches Some(Change::Stored(_, _))
}

/// Whatever the changes, the map they leave is coherent.
pub proof fn lemma_replay_is_coherent<K, V>(changes: Seq<Change<K, V>>)
    ensures
        coherent(replay(changes)),
    decreases changes.len(),
{
    if changes.len() > 0 {
        lemma_replay_is_coherent(changes.drop_last());
    }
}

/// A key is present exactly when the latest change under it stored
/// something: it has been stored and not removed since.
pub proof fn lemma_present_when_last_stored<K, V>(changes: Seq<Change<K, V>>, key: K)
    ensures
        replay(changes).contains_key(key) <==> stands(changes, key),
    decreases changes.len(),
{
    if changes.len() > 0 {
        lemma_present_when_last_stored(changes.drop_last(), key);
    }
}

/// Looking a key up gives the value-half of the latest change under it, for
/// as long as that change is one that stored.
pub proof fn lemma_lookup_is_last_stored<K, V>(changes: Seq<Change<K, V>>, key: K)
    ensures
        value_at(replay(changes), key) == match latest(changes, key) {
            Some(Change::Stored(_, value)) => Some(value),
            _ => None,
        },
    decreases changes.len(),
{
    if changes.len() > 0 {
        lemma_lookup_is_last_stored(changes.drop_last(), key);
    }
}

/// The size of the map is the number of keys that stand: storing twice
/// under one key counts once.
pub proof fn lemma_size_is_keys_standing<K, V>(changes: Seq<Change<K, V>>)
    ensures
        replay(changes).dom().finite(),
        replay(changes).len() == Set::new(|key: K| stands(changes, key)).len(),
{
    lemma_replay_is_coherent(changes);
    assert forall|key: K| replay(changes).contains_key(key) <==> stands(changes, key) by {
        lemma_present_when_last_stored(changes, key);
    }
    assert(replay(changes).dom() =~= Set::new(|key: K| stands(changes, key)));
}

} // verus!
