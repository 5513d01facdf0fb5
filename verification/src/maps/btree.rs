//! The ordered-tree backend and its owned iteration sequence.
use crate::mem::{KeyRef, ValueRef};
use crate::traits::{coherent, Contains, Entries, Get, Insert, Length, MapBase, MapKind, Probe, Remove};
use core::cmp::Ordering;
use std::collections::BTreeMap;
use std::collections::VecDeque;
use std::ops::Deref;
use vstd::laws_cmp::{obeys_cmp, obeys_cmp_ord, obeys_partial_cmp_spec_properties};
use vstd::prelude::*;
use vstd::std_specs::btree::key_obeys_cmp_spec;
use vstd::std_specs::cmp::{OrdSpec, PartialOrdSpec};
use vstd::std_specs::iter::{DoubleEndedIteratorSpecImpl, IteratorSpecImpl};

verus! {

/// Selects the ordered-tree backend.
pub struct BTreeKind {}

impl<K: Ord + Copy, V> MapKind<K, V> for BTreeKind {
    type Map = InnerBTreeMap<K, V>;
}

/// `a` comes strictly before `b` in the key type's order.
pub open spec fn precedes<K: Ord>(a: K, b: K) -> bool {
    a.cmp_spec(&b) is Less
}

/// An ordered map from key-halves to value-halves, in the natural order of
/// the keys that the key-halves hold.
pub struct InnerBTreeMap<K, V> {
    /// The stored pairs, each indexed by a copy of the key its key-half holds.
    tree: BTreeMap<K, (KeyRef<K>, ValueRef<V>)>,
}

impl<K, V> InnerBTreeMap<K, V> {
    /// Every pair stands under the key that its key-half holds.
    #[verifier::type_invariant]
    spec fn inv(self) -> bool {
        key_obeys_cmp_spec::<K>() ==> coherent(self.tree@)
    }
}

impl<K: Ord + Copy, V> MapBase for InnerBTreeMap<K, V> {
    type Key = K;

    type Value = V;

    /// The key type's `Ord` is a total order, consistent with its `==`.
    open spec fn key_laws() -> bool {
        obeys_cmp::<K>()
    }

    closed spec fn entries(&self) -> Entries<K, V> {
        self.tree@
    }

    fn new() -> (map: Self) {
        InnerBTreeMap { tree: BTreeMap::new() }
    }
}

impl<K: Ord + Copy, V> Probe<K> for InnerBTreeMap<K, V> {
    /// A borrowed key stands for itself.
    open spec fn key_of(probe: &K) -> K {
        *probe
    }
}

impl<K: Ord + Copy, V> Contains<K> for InnerBTreeMap<K, V> {
    fn contains(&self, key: &K) -> (found: bool) {
        self.tree.contains_key(key)
    }
}

impl<K: Ord + Copy, V> Get<K> for InnerBTreeMap<K, V> {
    fn get(&self, key: &K) -> (found: Option<&ValueRef<V>>) {
        match self.tree.get(key) {
            Some(entry) => Some(&entry.1),
            None => None,
        }
    }
}

impl<K: Ord + Copy, V> Insert for InnerBTreeMap<K, V> {
    fn insert(&mut self, key: KeyRef<K>, value: ValueRef<V>) {
        proof {
            use_type_invariant(&*self);
        }
        let mut tree = BTreeMap::new();
        std::mem::swap(&mut tree, &mut self.tree);
        let index: K = *key.deref();
        match tree.remove(&index) {
            Some((kept, _displaced)) => {
                tree.insert(index, (kept, value));
            },
            None => {
                tree.insert(index, (key, value));
            },
        }
        self.tree = tree;
    }
}

impl<K: Ord + Copy, V> Length for InnerBTreeMap<K, V> {
    fn len(&self) -> (count: usize) {
        proof {
            use_type_invariant(self);
        }
        self.tree.len()
    }

    fn is_empty(&self) -> (empty: bool) {
        proof {
            use_type_invariant(self);
        }
        self.tree.is_empty()
    }
}

impl<K: Ord + Copy, V> Remove<K> for InnerBTreeMap<K, V> {
    fn remove(&mut self, key: &K) -> (taken: Option<(KeyRef<K>, ValueRef<V>)>) {
        proof {
            use_type_invariant(&*self);
        }
        let mut tree = BTreeMap::new();
        std::mem::swap(&mut tree, &mut self.tree);
        let taken = tree.remove(key);
        self.tree = tree;
        taken
    }
}

/// `items` stands in strictly ascending order of the keys its key-halves hold.
pub open spec fn ascending<K: Ord, V>(items: Seq<(KeyRef<K>, ValueRef<V>)>) -> bool {
    forall|i: int, j: int|
        0 <= i < j < items.len() ==> precedes((#[trigger] items[i]).0@, (#[trigger] items[j]).0@)
}

/// `items` is what draining `entries` gives: every entry, once, by ascending key.
pub open spec fn drains<K: Ord, V>(
    items: Seq<(KeyRef<K>, ValueRef<V>)>,
    entries: Entries<K, V>,
) -> bool {
    &&& entries.dom().finite()
    &&& items.len() == entries.len()
    &&& forall|i: int|
        0 <= i < items.len() ==> entries.contains_key((#[trigger] items[i]).0@)
            && entries[items[i].0@] == items[i]
    &&& forall|k: K| #[trigger]
        entries.contains_key(k) ==> exists|i: int|
            0 <= i < items.len() && (#[trigger] items[i]).0@ == k
    &&& ascending(items)
}

/// `BTreeMap::pop_first`: takes out the entry whose key is the least in the
/// tree and returns it, or returns `None` and changes nothing where the tree
/// is empty. Stated for key types whose `Ord` is a lawful total order.
#[verifier::external_body]
fn pop_first<K: Ord, E>(tree: &mut BTreeMap<K, E>) -> (first: Option<(K, E)>)
    ensures
        obeys_cmp::<K>() ==> match first {
            Some((key, entry)) => {
                &&& old(tree)@.contains_key(key)
                &&& old(tree)@[key] == entry
                &&& final(tree)@ == old(tree)@.remove(key)
                &&& forall|other: K| #[trigger]
                    old(tree)@.contains_key(other) && other != key ==> precedes(key, other)
            },
            None => old(tree)@.is_empty() && final(tree)@ == old(tree)@,
        },
{
    tree.pop_first()
}

impl<K: Ord + Copy, V> IntoIterator for InnerBTreeMap<K, V> {
    type Item = (KeyRef<K>, ValueRef<V>);

    type IntoIter = IterOwned<K, V>;

    /// Drains the map into its owned iteration sequence.
    fn into_iter(self) -> (iter: IterOwned<K, V>)
        ensures
            Self::key_laws() ==> drains(iter@, self.entries()),
    {
        proof {
            use_type_invariant(&self);
        }
        let ghost stored = self.tree@;
        let mut tree = self.tree;
        let mut queue: VecDeque<(KeyRef<K>, ValueRef<V>)> = VecDeque::new();
        let count = tree.len();
        // Each round moves the least entry left in the tree to the back of the queue.
        for done in 0..count
            invariant
                obeys_cmp::<K>() ==> {
                    &&& coherent(stored)
                    &&& tree@.dom().finite()
                    &&& tree@.len() + done == count
                    &&& count == stored.len()
                    &&& queue@.len() == done
                    &&& forall|k: K| #[trigger]
                        tree@.contains_key(k) ==> stored.contains_key(k) && stored[k]
                            == tree@[k]
                    &&& forall|i: int|
                        0 <= i < queue@.len() ==> stored.contains_key((#[trigger] queue@[i]).0@)
                            && stored[queue@[i].0@] == queue@[i] && !tree@.contains_key(
                            queue@[i].0@,
                        )
                    &&& forall|k: K| #[trigger]
                        stored.contains_key(k) ==> tree@.contains_key(k) || exists|i: int|
                            0 <= i < queue@.len() && (#[trigger] queue@[i]).0@ == k
                    &&& forall|i: int, k: K|
                        0 <= i < queue@.len() && #[trigger] tree@.contains_key(k) ==> precedes(
                            (#[trigger] queue@[i]).0@,
                            k,
                        )
                    &&& ascending(queue@)
                },
        {
            let ghost taken = queue@;
            match pop_first(&mut tree) {
                Some((_index, entry)) => {
                    queue.push_back(entry);
                    proof {
                        if obeys_cmp::<K>() {
                            assert forall|i: int| 0 <= i < taken.len() implies queue@[i]
                                == #[trigger] taken[i] by {}
                            assert(queue@[queue@.len() - 1] == entry);
                        }
                    }
                },
                None => {},
            }
        }
        IterOwned { queue }
    }
}

/// The owned iteration sequence of a drained map: finite, double-ended, and
/// of known length at every step.
#[derive(Debug)]
pub struct IterOwned<K, V> {
    queue: VecDeque<(KeyRef<K>, ValueRef<V>)>,
}

impl<K, V> View for IterOwned<K, V> {
    type V = Seq<(KeyRef<K>, ValueRef<V>)>;

    closed spec fn view(&self) -> Seq<(KeyRef<K>, ValueRef<V>)> {
        self.queue@
    }
}

impl<K, V> Iterator for IterOwned<K, V> {
    type Item = (KeyRef<K>, ValueRef<V>);

    /// Takes the item with the least key of those left.
    fn next(&mut self) -> (item: Option<(KeyRef<K>, ValueRef<V>)>)
        ensures
            match item {
                Some(entry) => {
                    &&& old(self)@.len() > 0
                    &&& entry == old(self)@.first()
                    &&& final(self)@ == old(self)@.drop_first()
                },
                None => old(self)@.len() == 0 && final(self)@ == old(self)@,
            },
    {
        self.queue.pop_front()
    }

    /// The number of items left, as both bounds.
    fn size_hint(&self) -> (bounds: (usize, Option<usize>))
        ensures
            bounds.0 == self@.len(),
            bounds.1 == Some(bounds.0),
    {
        let left = self.queue.len();
        (left, Some(left))
    }
}

impl<K, V> IteratorSpecImpl for IterOwned<K, V> {
    open spec fn obeys_prophetic_iter_laws(&self) -> bool {
        true
    }

    open spec fn remaining(&self) -> Seq<(KeyRef<K>, ValueRef<V>)> {
        self@
    }

    open spec fn will_return_none(&self) -> bool {
        true
    }

    open spec fn decrease(&self) -> Option<nat> {
        Some(self@.len())
    }

    open spec fn initial_value_relation(&self, init: &Self) -> bool {
        init@ == self@
    }

    open spec fn peek(&self, index: int) -> Option<(KeyRef<K>, ValueRef<V>)> {
        if 0 <= index < self@.len() {
            Some(self@[index])
        } else {
            None
        }
    }
}

impl<K, V> DoubleEndedIterator for IterOwned<K, V> {
    /// Takes the item with the greatest key of those left.
    fn next_back(&mut self) -> (item: Option<(KeyRef<K>, ValueRef<V>)>)
        ensures
            match item {
                Some(entry) => {
                    &&& old(self)@.len() > 0
                    &&& entry == old(self)@.last()
                    &&& final(self)@ == old(self)@.drop_last()
                },
                None => old(self)@.len() == 0 && final(self)@ == old(self)@,
            },
    {
        self.queue.pop_back()
    }
}

impl<K, V> DoubleEndedIteratorSpecImpl for IterOwned<K, V> {
    open spec fn peek_back(&self, index: int) -> Option<(KeyRef<K>, ValueRef<V>)> {
        if 0 <= index < self@.len() {
            Some(self@[self@.len() - 1 - index])
        } else {
            None
        }
    }
}

impl<K, V> ExactSizeIterator for IterOwned<K, V> {}

impl<K, V> core::iter::FusedIterator for IterOwned<K, V> {}

/// Under a lawful order no key comes before itself, no two keys come before
/// each other, and coming before carries over.
pub proof fn lemma_precedes_is_strict<K: Ord>(a: K, b: K, c: K)
    requires
        obeys_cmp::<K>(),
    ensures
        !precedes(a, a),
        precedes(a, b) ==> !precedes(b, a),
        precedes(a, b) && precedes(b, c) ==> precedes(a, c),
{
    reveal(obeys_cmp_ord);
    reveal(obeys_partial_cmp_spec_properties);
    assert(a.partial_cmp_spec(&a) == Some(a.cmp_spec(&a)));
    assert(a.partial_cmp_spec(&b) == Some(a.cmp_spec(&b)));
    assert(b.partial_cmp_spec(&a) == Some(b.cmp_spec(&a)));
    assert(b.partial_cmp_spec(&c) == Some(b.cmp_spec(&c)));
    assert(a.partial_cmp_spec(&c) == Some(a.cmp_spec(&c)));
}

/// Drained forward the keys ascend, and drained backward they descend.
pub proof fn lemma_drain_order<K: Ord, V>(
    items: Seq<(KeyRef<K>, ValueRef<V>)>,
    earlier: int,
    later: int,
)
    requires
        ascending(items),
        0 <= earlier < later < items.len(),
    ensures
        precedes(items[earlier].0@, items[later].0@),
        precedes(items.reverse()[later].0@, items.reverse()[earlier].0@),
{
    let back = items.reverse();
    assert(back[later] == items[items.len() - 1 - later]);
    assert(back[earlier] == items[items.len() - 1 - earlier]);
}

/// The first item of a drain holds the least key of the map and the last
/// item the greatest.
pub proof fn lemma_drain_ends<K: Ord, V>(
    items: Seq<(KeyRef<K>, ValueRef<V>)>,
    entries: Entries<K, V>,
    key: K,
)
    requires
        drains(items, entries),
        entries.contains_key(key),
    ensures
        items.len() > 0,
        key == items.first().0@ || precedes(items.first().0@, key),
        key == items.last().0@ || precedes(key, items.last().0@),
{
    let at = choose|i: int| 0 <= i < items.len() && (#[trigger] items[i]).0@ == key;
    assert(items[at].0@ == key);
    if 0 < at {
        assert(precedes(items[0].0@, items[at].0@));
    }
    if at < items.len() - 1 {
        assert(precedes(items[at].0@, items[items.len() - 1].0@));
    }
}

/// Taking an item from either end leaves the drain of the map without that
/// item's key, one item shorter.
pub proof fn lemma_drain_shrinks<K: Ord, V>(
    items: Seq<(KeyRef<K>, ValueRef<V>)>,
    entries: Entries<K, V>,
)
    requires
        obeys_cmp::<K>(),
        drains(items, entries),
        items.len() > 0,
    ensures
        drains(items.drop_first(), entries.remove(items.first().0@)),
        drains(items.drop_last(), entries.remove(items.last().0@)),
        items.drop_first().len() == items.len() - 1,
        items.drop_last().len() == items.len() - 1,
{
    let least = items.first().0@;
    let most = items.last().0@;
    let tail = items.drop_first();
    let head = items.drop_last();
    assert(entries.contains_key(items[0].0@));
    assert(entries.contains_key(items[items.len() - 1].0@));
    assert forall|i: int| 0 <= i < tail.len() implies entries.remove(least).contains_key(
        (#[trigger] tail[i]).0@,
    ) && entries.remove(least)[tail[i].0@] == tail[i] by {
        assert(tail[i] == items[i + 1]);
        assert(precedes(items[0].0@, items[i + 1].0@));
        lemma_precedes_is_strict(least, least, least);
    }
    assert forall|k: K| #[trigger] entries.remove(least).contains_key(k) implies exists|i: int|
        0 <= i < tail.len() && (#[trigger] tail[i]).0@ == k by {
        let at = choose|i: int| 0 <= i < items.len() && (#[trigger] items[i]).0@ == k;
        assert(items[at].0@ == k);
        assert(tail[at - 1] == items[at]);
    }
    assert forall|i: int, j: int| 0 <= i < j < tail.len() implies precedes(
        (#[trigger] tail[i]).0@,
        (#[trigger] tail[j]).0@,
    ) by {
        assert(tail[i] == items[i + 1]);
        assert(tail[j] == items[j + 1]);
    }
    assert forall|i: int| 0 <= i < head.len() implies entries.remove(most).contains_key(
        (#[trigger] head[i]).0@,
    ) && entries.remove(most)[head[i].0@] == head[i] by {
        assert(head[i] == items[i]);
        assert(precedes(items[i].0@, items[items.len() - 1].0@));
        lemma_precedes_is_strict(most, most, most);
    }
    assert forall|k: K| #[trigger] entries.remove(most).contains_key(k) implies exists|i: int|
        0 <= i < head.len() && (#[trigger] head[i]).0@ == k by {
        let at = choose|i: int| 0 <= i < items.len() && (#[trigger] items[i]).0@ == k;
        assert(items[at].0@ == k);
        assert(head[at] == items[at]);
    }
    assert forall|i: int, j: int| 0 <= i < j < head.len() implies precedes(
        (#[trigger] head[i]).0@,
        (#[trigger] head[j]).0@,
    ) by {
        assert(head[i] == items[i]);
        assert(head[j] == items[j]);
    }
}

/// A map has one drain only: the contract of `into_iter` leaves no choice.
pub proof fn lemma_drain_is_unique<K: Ord, V>(
    one: Seq<(KeyRef<K>, ValueRef<V>)>,
    other: Seq<(KeyRef<K>, ValueRef<V>)>,
    entries: Entries<K, V>,
)
    requires
        obeys_cmp::<K>(),
        drains(one, entries),
        drains(other, entries),
    ensures
        one == other,
    decreases one.len(),
{
    if one.len() > 0 {
        assert(entries.contains_key(one[0].0@));
        assert(entries.contains_key(other[0].0@));
        lemma_drain_ends(one, entries, other[0].0@);
        lemma_drain_ends(other, entries, one[0].0@);
        lemma_precedes_is_strict(one[0].0@, other[0].0@, one[0].0@);
        assert(one[0] == other[0]);
        lemma_drain_shrinks(one, entries);
        lemma_drain_shrinks(other, entries);
        lemma_drain_is_unique(one.drop_first(), other.drop_first(), entries.remove(one[0].0@));
        assert(one =~= seq![one[0]] + one.drop_first());
        assert(other =~= seq![other[0]] + other.drop_first());
    } else {
        assert(one =~= other);
    }
}

} // verus!
