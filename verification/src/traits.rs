//! The map abstraction: what every backend offers, stated over one model.
use crate::mem::{KeyRef, ValueRef, Wrapped};
use vstd::prelude::*;

verus! {

/// What a backend holds: under each key, the key-half and the value-half
/// stored for it.
pub type Entries<K, V> = Map<K, (KeyRef<K>, ValueRef<V>)>;

/// The keys are finitely many, and each key-half stands under the key it
/// dereferences to.
pub open spec fn coherent<K, V>(entries: Entries<K, V>) -> bool {
    &&& entries.dom().finite()
    &&& forall|k: K| #[trigger] entries.contains_key(k) ==> entries[k].0@ == k
}

/// The entries after `key` and `value` are stored. Where the key is already
/// present its key-half stays and only the value-half is displaced.
pub open spec fn with_entry<K, V>(
    entries: Entries<K, V>,
    key: KeyRef<K>,
    value: ValueRef<V>,
) -> Entries<K, V> {
    let kept = if entries.contains_key(key@) {
        entries[key@].0
    } else {
        key
    };
    entries.insert(key@, (kept, value))
}

/// The value-half stored under `key`, if any.
pub open spec fn value_at<K, V>(entries: Entries<K, V>, key: K) -> Option<ValueRef<V>> {
    if entries.contains_key(key) {
        Some(entries[key].1)
    } else {
        None
    }
}

/// The pair stored under `key`, if any.
pub open spec fn entry_at<K, V>(entries: Entries<K, V>, key: K) -> Option<
    (KeyRef<K>, ValueRef<V>),
> {
    if entries.contains_key(key) {
        Some(entries[key])
    } else {
        None
    }
}

/// Selects the backend used for keys `K` and values `V`.
pub trait MapKind<K, V> {
    type Map: MapBase<Key = K, Value = V>;
}

/// A backend: its key and value types, its model, and how to make an empty one.
pub trait MapBase: Sized {
    type Key;

    type Value;

    /// What the backend needs of its key type to keep its promises.
    spec fn key_laws() -> bool;

    /// The entries held.
    spec fn entries(&self) -> Entries<Self::Key, Self::Value>;

    /// A map without entries.
    fn new() -> (map: Self)
        ensures
            map.entries() == Map::<Self::Key, (KeyRef<Self::Key>, ValueRef<Self::Value>)>::empty(),
    ;
}

/// A backend that can be probed with a borrowed `Q`.
pub trait Probe<Q: ?Sized>: MapBase {
    /// The key that a probe stands for.
    spec fn key_of(probe: &Q) -> Self::Key;
}

/// Membership by a borrowed probe.
pub trait Contains<Q: ?Sized>: Probe<Q> {
    /// Whether an entry stands under the key that `key` stands for.
    fn contains(&self, key: &Q) -> (found: bool)
        ensures
            Self::key_laws() ==> found == self.entries().contains_key(Self::key_of(key)),
    ;
}

/// Lookup by a borrowed probe.
pub trait Get<Q: ?Sized>: Probe<Q> {
    /// The value-half stored under the key that `key` stands for; the map
    /// keeps it.
    fn get(&self, key: &Q) -> (found: Option<&ValueRef<Self::Value>>)
        ensures
            Self::key_laws() ==> match found {
                Some(value) => value_at(self.entries(), Self::key_of(key)) == Some(*value),
                None => value_at(self.entries(), Self::key_of(key)).is_none(),
            },
    ;
}

/// Storing a pair of halves.
pub trait Insert: MapBase {
    /// Stores `value` under the key that `key` holds. Where that key is
    /// present already, the value-half stored before is displaced, and `key`
    /// itself is let go in favour of the key-half stored before.
    fn insert(&mut self, key: KeyRef<Self::Key>, value: ValueRef<Self::Value>)
        ensures
            Self::key_laws() ==> {
                &&& final(self).entries() == with_entry(old(self).entries(), key, value)
                &&& coherent(final(self).entries())
            },
    ;
}

/// The size of a map.
pub trait Length: MapBase {
    /// The number of entries, which is the number of distinct keys.
    fn len(&self) -> (count: usize)
        ensures
            Self::key_laws() ==> {
                &&& count == self.entries().len()
                &&& coherent(self.entries())
            },
    ;

    /// Whether the map holds no entry.
    fn is_empty(&self) -> (empty: bool)
        ensures
            Self::key_laws() ==> empty == (self.entries().len() == 0),
    ;
}

/// Removal by a borrowed probe.
pub trait Remove<Q: ?Sized>: Probe<Q> {
    /// Takes out the pair stored under the key that `key` stands for, and
    /// hands both halves over; where there is none, nothing changes.
    fn remove(&mut self, key: &Q) -> (taken: Option<(KeyRef<Self::Key>, ValueRef<Self::Value>)>)
        ensures
            Self::key_laws() ==> {
                &&& taken == entry_at(old(self).entries(), Self::key_of(key))
                &&& taken matches Some(pair) ==> pair.0@ == Self::key_of(key)
                &&& final(self).entries() == old(self).entries().remove(Self::key_of(key))
                &&& coherent(final(self).entries())
            },
    ;
}

/// The size of a map counts its distinct keys: storing under a key already
/// present replaces and adds nothing, storing under a new key adds one, and
/// removing takes one away exactly when the key was present.
pub proof fn lemma_size_counts_keys<K, V>(
    entries: Entries<K, V>,
    key: KeyRef<K>,
    value: ValueRef<V>,
    gone: K,
)
    requires
        entries.dom().finite(),
    ensures
        Map::<K, (KeyRef<K>, ValueRef<V>)>::empty().len() == 0,
        with_entry(entries, key, value).dom().finite(),
        with_entry(entries, key, value).len() == if entries.contains_key(key@) {
            entries.len()
        } else {
            entries.len() + 1
        },
        entries.remove(gone).dom().finite(),
        entries.remove(gone).len() == if entries.contains_key(gone) {
            entries.len() - 1
        } else {
            entries.len() as int
        },
{
    if entries.contains_key(key@) {
        assert(with_entry(entries, key, value).dom() =~= entries.dom());
    }
}

/// A key is present exactly when it was stored and has not been removed
/// since: storing makes that key present and touches no other, removing makes
/// that key absent and touches no other.
pub proof fn lemma_presence_follows_history<K, V>(
    entries: Entries<K, V>,
    key: KeyRef<K>,
    value: ValueRef<V>,
    gone: K,
    probe: K,
)
    ensures
        !Map::<K, (KeyRef<K>, ValueRef<V>)>::empty().contains_key(probe),
        with_entry(entries, key, value).contains_key(probe) <==> probe == key@
            || entries.contains_key(probe),
        entries.remove(gone).contains_key(probe) <==> probe != gone && entries.contains_key(probe),
{
}

/// After `key` and `value` are stored, looking `key` up gives `value`, and
/// storing or removing under another key leaves what is found unchanged.
pub proof fn lemma_lookup_gives_last_stored<K, V>(
    entries: Entries<K, V>,
    key: KeyRef<K>,
    value: ValueRef<V>,
    gone: K,
    probe: K,
)
    ensures
        value_at(with_entry(entries, key, value), key@) == Some(value),
        probe != key@ ==> value_at(with_entry(entries, key, value), probe) == value_at(
            entries,
            probe,
        ),
        probe != gone ==> value_at(entries.remove(gone), probe) == value_at(entries, probe),
        value_at(entries.remove(gone), gone).is_none(),
{
}

/// Removing a present key hands out exactly the pair stored under it, whose
/// key-half holds that key; removing an absent key hands out nothing and
/// leaves the map as it was.
pub proof fn lemma_removal_is_faithful<K, V>(entries: Entries<K, V>, gone: K)
    requires
        coherent(entries),
    ensures
        entries.contains_key(gone) ==> entry_at(entries, gone) == Some(entries[gone])
            && entries[gone].0@ == gone && !entries.remove(gone).contains_key(gone),
        !entries.contains_key(gone) ==> entry_at(entries, gone).is_none() && entries.remove(gone)
            == entries,
        coherent(entries.remove(gone)),
{
    if !entries.contains_key(gone) {
        assert(entries.remove(gone) =~= entries);
    }
}

/// Storing keeps a map coherent.
pub proof fn lemma_storing_keeps_coherence<K, V>(
    entries: Entries<K, V>,
    key: KeyRef<K>,
    value: ValueRef<V>,
)
    requires
        coherent(entries),
    ensures
        coherent(with_entry(entries, key, value)),
{
}

/// A probe finds what the key it stands for finds: where a stored key-half,
/// seen through its wrapper, equals the wrapped probe, membership and lookup
/// by the probe are those by the stored key.
pub proof fn lemma_probe_finds_as_key<K, V>(entries: Entries<K, V>, stored: K, probe: K)
    requires
        coherent(entries),
        entries.contains_key(stored),
        Wrapped(entries[stored].0@) == Wrapped(probe),
    ensures
        entries.contains_key(probe),
        value_at(entries, probe) == value_at(entries, stored),
        entry_at(entries, probe) == entry_at(entries, stored),
{
}

} // verus!
