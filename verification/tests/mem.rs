use bimap_core::mem::{KeyRef, Semi, ValueRef, Wrap, Wrapped};
use std::collections::hash_map::DefaultHasher;
use std::hash::{Hash, Hasher};

fn hash_of<T: Hash>(value: &T) -> u64 {
    let mut hasher = DefaultHasher::new();
    value.hash(&mut hasher);
    hasher.finish()
}

#[test]
fn share_then_deref_yields_the_value() {
    let (a, b) = Semi::share(41u32);
    assert_eq!(*a, 41);
    assert_eq!(*b, 41);
}

#[test]
fn reunite_returns_the_value() {
    let (a, b) = Semi::share(String::from("shared"));
    assert!(a.is_paired_with(&b));
    let back: String = Semi::reunite(a, b);
    assert_eq!(back, "shared");
}

#[test]
fn reunite_takes_the_halves_in_either_order() {
    let (a, b) = Semi::share(vec![1u8, 2, 3]);
    let back = Semi::reunite(b, a);
    assert_eq!(back, vec![1u8, 2, 3]);
}

#[test]
fn halves_of_one_share_are_paired() {
    let (a, b) = Semi::share(7i64);
    assert!(a.is_paired_with(&b));
    assert!(b.is_paired_with(&a));
    assert!(a.is_paired_with(&a));
}

#[test]
fn halves_of_different_shares_are_not_paired() {
    let (a, b) = Semi::share(7i64);
    let (c, d) = Semi::share(7i64);
    assert_eq!(*a, *c);
    assert!(!a.is_paired_with(&c));
    assert!(!a.is_paired_with(&d));
    assert!(!b.is_paired_with(&c));
    assert!(!d.is_paired_with(&b));
    assert_eq!(Semi::reunite(a, b), 7);
    assert_eq!(Semi::reunite(c, d), 7);
}

#[test]
fn a_half_outlives_its_dropped_sibling() {
    let (a, b) = Semi::share(String::from("kept"));
    drop(a);
    assert_eq!(b.as_str(), "kept");
    assert_eq!(b.len(), 4);
}

#[test]
fn halves_read_the_same_value_many_times() {
    let (a, b) = Semi::share((3u8, 4u8));
    for _ in 0..3 {
        assert_eq!(*a, (3, 4));
        assert_eq!(*b, (3, 4));
    }
    assert_eq!(Semi::reunite(a, b), (3, 4));
}

#[test]
fn halves_compare_by_the_values_they_hold() {
    let (a, b) = Semi::share(5u32);
    let (c, _d) = Semi::share(5u32);
    let (e, _f) = Semi::share(9u32);
    assert!(a == b);
    assert!(a == c);
    assert!(a != e);
    assert!(a < e);
    assert!(e > c);
    assert_eq!(a.cmp(&c), std::cmp::Ordering::Equal);
    assert_eq!(a.cmp(&e), std::cmp::Ordering::Less);
    assert_eq!(e.partial_cmp(&a), Some(std::cmp::Ordering::Greater));
}

#[test]
fn halves_hash_as_the_values_they_hold() {
    let (a, _b) = Semi::share(77u64);
    let (c, _d) = Semi::share(77u64);
    assert_eq!(hash_of(&a), hash_of(&77u64));
    assert_eq!(hash_of(&a), hash_of(&c));
}

#[test]
fn key_and_value_halves_are_split_handles() {
    let (key, key_twin): (KeyRef<u8>, KeyRef<u8>) = Semi::share(1u8);
    let (value, value_twin): (ValueRef<char>, ValueRef<char>) = Semi::share('x');
    assert_eq!(*key, 1);
    assert_eq!(*value, 'x');
    assert_eq!(Semi::reunite(key, key_twin), 1);
    assert_eq!(Semi::reunite(value, value_twin), 'x');
}

#[test]
fn wrap_holds_the_same_reference() {
    let value = String::from("probe");
    let wrapped: Wrapped<&String> = value.wrap();
    assert_eq!(wrapped.0, &value);
    assert_eq!(wrapped.0.as_str(), "probe");
    let text: &str = "probe";
    let wrapped_text: Wrapped<&str> = text.wrap();
    assert_eq!(wrapped_text.0, "probe");
}

#[test]
fn wrapped_compares_as_the_value_inside() {
    let (small, large) = (3i32, 8i32);
    assert_eq!(small.wrap() == large.wrap(), small == large);
    assert_eq!(small.wrap() == small.wrap(), true);
    assert_eq!(small.wrap() < large.wrap(), small < large);
    assert_eq!(small.wrap().cmp(&large.wrap()), small.cmp(&large));
    assert_eq!(large.wrap().partial_cmp(&small.wrap()), large.partial_cmp(&small));
    assert_eq!(Wrapped(3i32), Wrapped(3i32));
    assert_ne!(Wrapped(3i32), Wrapped(4i32));
}

#[test]
fn wrapped_hashes_as_the_value_inside() {
    assert_eq!(hash_of(&Wrapped(12u16)), hash_of(&12u16));
    let text = String::from("abc");
    assert_eq!(hash_of(&text.wrap()), hash_of(&text));
}

#[test]
fn wrapped_is_copied_and_defaulted_as_the_value_inside() {
    let wrapped = Wrapped(6u8);
    let copy = wrapped;
    assert_eq!(wrapped, copy);
    assert_eq!(wrapped.clone(), Wrapped(6u8));
    assert_eq!(Wrapped::<u32>::default(), Wrapped(0u32));
    assert_eq!(Wrapped(String::from("s")).clone(), Wrapped(String::from("s")));
}

#[test]
fn borrow_wraps_the_shared_value() {
    let (a, b) = Semi::share(21u64);
    let probe: Wrapped<&u64> = a.borrow();
    assert_eq!(probe, 21u64.wrap());
    assert_eq!(*probe.0, 21);
    assert_ne!(probe, 22u64.wrap());
    assert_eq!(Semi::reunite(a, b), 21);
}

#[test]
fn borrow_presents_a_key_as_its_probe_type() {
    let (a, _b) = Semi::share(String::from("name"));
    let probe: Wrapped<&str> = a.borrow();
    assert_eq!(probe, "name".wrap());
    assert_ne!(probe, "other".wrap());
    let (c, _d) = Semi::share(vec![1u8, 2]);
    let slice: Wrapped<&[u8]> = c.borrow();
    assert_eq!(slice.0, &[1u8, 2][..]);
}
