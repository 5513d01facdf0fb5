//! Split ownership of one heap value, and the wrapper type used for probing.
//!
//! `Semi::share` moves a value to the heap and hands out two halves of it.
//! Either half reads the value; only `Semi::reunite`, given both, takes it
//! back. A half that is dropped alone releases nothing.
use core::cmp::Ordering;
use std::borrow::Borrow;
use std::mem::ManuallyDrop;
use std::ops::Deref;
use std::rc::Rc;
use vstd::prelude::*;
use vstd::std_specs::cmp::{PartialEqSpec, PartialOrdSpec};

verus! {

/// A single-field marker over a value. It is a type of its own and nothing
/// more: it compares, orders and hashes as the value inside does.
#[derive(Copy, Default, Debug, Eq, Hash, Ord)]
pub struct Wrapped<T>(pub T);

impl<T: PartialEq> PartialEq for Wrapped<T> {
    fn eq(&self, other: &Self) -> (equal: bool) {
        self.0 == other.0
    }
}

impl<T: PartialEq> vstd::std_specs::cmp::PartialEqSpecImpl for Wrapped<T> {
    open spec fn obeys_eq_spec() -> bool {
        T::obeys_eq_spec()
    }

    open spec fn eq_spec(&self, other: &Self) -> bool {
        self.0.eq_spec(&other.0)
    }
}

impl<T: PartialOrd> PartialOrd for Wrapped<T> {
    fn partial_cmp(&self, other: &Self) -> (order: Option<Ordering>) {
        self.0.partial_cmp(&other.0)
    }
}

impl<T: PartialOrd> vstd::std_specs::cmp::PartialOrdSpecImpl for Wrapped<T> {
    open spec fn obeys_partial_cmp_spec() -> bool {
        T::obeys_partial_cmp_spec()
    }

    open spec fn partial_cmp_spec(&self, other: &Self) -> Option<Ordering> {
        self.0.partial_cmp_spec(&other.0)
    }
}

impl<T: Clone> Clone for Wrapped<T> {
    fn clone(&self) -> (copy: Self)
        ensures
            cloned(self.0, copy.0),
    {
        Wrapped(self.0.clone())
    }
}

/// Presents a borrowed value as a `Wrapped` one.
pub trait Wrap {
    /// The same reference, wrapped; nothing is allocated or copied.
    fn wrap(&self) -> (wrapped: Wrapped<&Self>)
        ensures
            wrapped.0 == self,
    ;
}

impl<T: ?Sized> Wrap for T {
    fn wrap(&self) -> (wrapped: Wrapped<&T>) {
        Wrapped(self)
    }
}

/// Wrapping loses and adds nothing: two wrapped values are equal exactly when
/// the values inside are.
pub proof fn lemma_wrapping_keeps_equality<T>(a: T, b: T)
    ensures
        Wrapped(a) == Wrapped(b) <==> a == b,
{
}

/// `==` and `<` on wrapped values decide as they do on the values inside.
pub proof fn lemma_wrapping_keeps_comparisons<T: PartialOrd>(a: T, b: T)
    ensures
        Wrapped(a).eq_spec(&Wrapped(b)) == a.eq_spec(&b),
        Wrapped(a).partial_cmp_spec(&Wrapped(b)) == a.partial_cmp_spec(&b),
        Wrapped::<T>::obeys_eq_spec() == T::obeys_eq_spec(),
        Wrapped::<T>::obeys_partial_cmp_spec() == T::obeys_partial_cmp_spec(),
{
}

/// One of the two handles on a shared heap value.
///
/// Halves compare, order and hash as the values they hold do. Whether two
/// halves belong together is another matter: see `paired_with`.
#[derive(Debug, Eq, Hash, Ord)]
pub struct Semi<T> {
    /// A counted handle that is never released by a drop. Two cells are equal
    /// when they are handles on one allocation, whatever the allocation holds.
    cell: ManuallyDrop<Rc<T>>,
}

/// The half that stands for a key in a backend map.
pub type KeyRef<K> = Semi<K>;

/// The half that stands for a value in a backend map.
pub type ValueRef<V> = Semi<V>;

impl<T> View for Semi<T> {
    type V = T;

    /// The shared value.
    closed spec fn view(&self) -> T {
        *self.cell@
    }
}

/// `Rc::clone`, called once on a fresh `Rc` of `value`: one allocation that
/// holds `value`, and the only two handles on it. Both handles go into
/// `ManuallyDrop`, so that dropping one releases nothing.
#[verifier::external_body]
fn split<T>(value: T) -> (cells: (ManuallyDrop<Rc<T>>, ManuallyDrop<Rc<T>>))
    ensures
        *cells.0@ == value,
        cells.0 == cells.1,
{
    let first = Rc::new(value);
    let second = Rc::clone(&first);
    (ManuallyDrop::new(first), ManuallyDrop::new(second))
}

/// `Rc::ptr_eq`: whether the two handles are on one allocation. Handles on
/// two allocations differ even where the values held are equal.
#[verifier::external_body]
fn same_cell<T>(a: &ManuallyDrop<Rc<T>>, b: &ManuallyDrop<Rc<T>>) -> (same: bool)
    ensures
        same == (*a == *b),
{
    Rc::ptr_eq(a, b)
}

/// `Rc::into_inner` on `a`, once `b` has been released: the value moves out
/// when `a` was the last handle, and `None` comes back otherwise. An
/// allocation has two handles and no more (see `split`, the one place where
/// handles are made), so where `a` and `b` are on one allocation the value
/// does come out.
#[verifier::external_body]
fn unite<T>(a: ManuallyDrop<Rc<T>>, b: ManuallyDrop<Rc<T>>) -> (value: Option<T>)
    ensures
        a == b ==> value == Some(*a@),
        value matches Some(v) ==> v == *a@,
{
    drop(ManuallyDrop::into_inner(b));
    Rc::into_inner(ManuallyDrop::into_inner(a))
}

/// `Borrow::borrow`: the form in which a key presents itself as a probe. The
/// key type's own impl decides what that is, so nothing is claimed of it.
#[verifier::external_body]
fn present<K: Borrow<Q>, Q: ?Sized>(key: &K) -> (probe: &Q) {
    key.borrow()
}

impl<T> Semi<T> {
    /// Whether the two halves come from one `share`.
    pub closed spec fn paired_with(&self, other: &Self) -> bool {
        self.cell == other.cell
    }

    /// What `reunite` gives back for the halves of a pair.
    pub open spec fn reunited(a: Self, b: Self) -> T
        recommends
            a.paired_with(&b),
    {
        a@
    }

    /// Moves `value` to the heap, once, and returns the two halves of it.
    pub fn share(value: T) -> (halves: (Self, Self))
        ensures
            halves.0@ == value,
            halves.1@ == value,
            halves.0.paired_with(&halves.1),
    {
        let (first, second) = split(value);
        (Semi { cell: first }, Semi { cell: second })
    }

    /// Whether the two halves come from one `share`; equal values do not make
    /// two halves a pair.
    pub fn is_paired_with(&self, other: &Self) -> (paired: bool)
        ensures
            paired == self.paired_with(other),
    {
        same_cell(&self.cell, &other.cell)
    }

    /// Takes the value back from the two halves of a pair and frees the
    /// allocation. Halves that are not a pair must not be handed in: a caller
    /// that nothing has verified and that does so is stopped by a panic,
    /// before anything is released.
    pub fn reunite(a: Self, b: Self) -> (value: T)
        requires
            a.paired_with(&b),
        ensures
            value == Self::reunited(a, b),
            value == a@,
            value == b@,
    {
        if !same_cell(&a.cell, &b.cell) {
            unreached::<()>();
        }
        match unite(a.cell, b.cell) {
            Some(value) => value,
            None => unreached(),
        }
    }

    /// Whether `probe` is the form in which the shared value presents itself
    /// as a `Q`, by its own `Borrow`.
    pub closed spec fn presents<Q: ?Sized>(&self, probe: &Q) -> bool where T: Borrow<Q> {
        call_ensures(present::<T, Q>, (&self@,), probe)
    }

    /// The shared value as it presents itself for probing, wrapped. No new
    /// half is made.
    pub fn borrow<Q: ?Sized>(&self) -> (probe: Wrapped<&Q>) where T: Borrow<Q>
        ensures
            self.presents(probe.0),
    {
        present::<T, Q>(self.deref()).wrap()
    }

    /// How a half presents itself rests on the value it holds and on nothing
    /// else: halves that hold one value present themselves alike.
    pub proof fn lemma_presents_by_value<Q: ?Sized>(a: Self, b: Self, probe: &Q) where
        T: Borrow<Q>,
        requires
            a@ == b@,
        ensures
            a.presents(probe) == b.presents(probe),
    {
    }

    /// A value that was shared is read from either half, and comes back from
    /// `reunite`, whichever half is handed in first.
    pub proof fn lemma_round_trip(value: T, a: Self, b: Self)
        requires
            a@ == value,
            a.paired_with(&b),
        ensures
            b@ == value,
            b.paired_with(&a),
            Self::reunited(a, b) == value,
            Self::reunited(b, a) == value,
    {
    }

    /// The two halves of a pair hold one and the same value.
    pub proof fn lemma_paired_halves_agree(a: Self, b: Self)
        requires
            a.paired_with(&b),
        ensures
            a@ == b@,
    {
    }

    /// To be paired is an equivalence among halves.
    pub proof fn lemma_pairing_is_equivalence(a: Self, b: Self, c: Self)
        ensures
            a.paired_with(&a),
            a.paired_with(&b) == b.paired_with(&a),
            a.paired_with(&b) && b.paired_with(&c) ==> a.paired_with(&c),
    {
    }
}

impl<T> Deref for Semi<T> {
    type Target = T;

    /// Reads the shared value.
    fn deref(&self) -> (value: &T)
        ensures
            *value == self@,
    {
        let shared: &Rc<T> = &self.cell;
        &**shared
    }
}

impl<T: PartialEq> PartialEq for Semi<T> {
    fn eq(&self, other: &Self) -> (equal: bool) {
        *self.deref() == *other.deref()
    }
}

impl<T: PartialEq> vstd::std_specs::cmp::PartialEqSpecImpl for Semi<T> {
    open spec fn obeys_eq_spec() -> bool {
        T::obeys_eq_spec()
    }

    open spec fn eq_spec(&self, other: &Self) -> bool {
        self@.eq_spec(&other@)
    }
}

impl<T: PartialOrd> PartialOrd for Semi<T> {
    fn partial_cmp(&self, other: &Self) -> (order: Option<Ordering>) {
        self.deref().partial_cmp(other.deref())
    }
}

impl<T: PartialOrd> vstd::std_specs::cmp::PartialOrdSpecImpl for Semi<T> {
    open spec fn obeys_partial_cmp_spec() -> bool {
        T::obeys_partial_cmp_spec()
    }

    open spec fn partial_cmp_spec(&self, other: &Self) -> Option<Ordering> {
        self@.partial_cmp_spec(&other@)
    }
}

/// `==` and `<` on halves decide as they do on the values the halves hold,
/// paired or not.
pub proof fn lemma_halves_compare_by_value<T: PartialOrd>(a: Semi<T>, b: Semi<T>)
    ensures
        a.eq_spec(&b) == a@.eq_spec(&b@),
        a.partial_cmp_spec(&b) == a@.partial_cmp_spec(&b@),
        Semi::<T>::obeys_eq_spec() == T::obeys_eq_spec(),
        Semi::<T>::obeys_partial_cmp_spec() == T::obeys_partial_cmp_spec(),
{
}

} // verus!
