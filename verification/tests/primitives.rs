use funk::primitive::KIND_COUNT;
use funk::{funkstd, funkstdIter};

fn expected_order() -> Vec<funkstd> {
    vec![
        funkstd::bool,
        funkstd::int8,
        funkstd::int16,
        funkstd::int32,
        funkstd::int64,
        funkstd::int128,
        funkstd::str,
        funkstd::uint8,
        funkstd::uint16,
        funkstd::uint32,
        funkstd::uint64,
        funkstd::uint128,
    ]
}

#[test]
fn enumeration_lists_every_kind_once_in_order() {
    let kinds = funkstd::iter().collect();
    assert_eq!(kinds, expected_order());
    assert_eq!(kinds.len(), KIND_COUNT);
}

#[test]
fn enumeration_restarts() {
    let first = funkstd::iter().collect();
    let second = funkstd::iter().collect();
    assert_eq!(first, second);
}

#[test]
fn kind_names() {
    let names: Vec<&str> = expected_order().iter().map(|k| k.get_name().unwrap()).collect();
    assert_eq!(
        names,
        vec![
            "bool", "int8", "int16", "int32", "int64", "int128", "str", "uint8", "uint16",
            "uint32", "uint64", "uint128"
        ]
    );
}

#[test]
fn next_walks_from_the_front() {
    let mut it = funkstd::iter();
    assert_eq!(it.len(), 12);
    assert_eq!(it.next(), Some(funkstd::bool));
    assert_eq!(it.next(), Some(funkstd::int8));
    assert_eq!(it.len(), 10);
    assert_eq!(it.size_hint(), (10, Some(10)));
}

#[test]
fn next_back_walks_from_the_back() {
    let mut it = funkstd::iter();
    assert_eq!(it.next_back(), Some(funkstd::uint128));
    assert_eq!(it.next_back(), Some(funkstd::uint64));
    assert_eq!(it.next(), Some(funkstd::bool));
    assert_eq!(it.len(), 9);
    assert_eq!(it.collect().len(), 9);
}

#[test]
fn both_ends_meet() {
    let mut it = funkstd::iter();
    let mut seen = Vec::new();
    for _ in 0..6 {
        seen.push(it.next().unwrap());
        seen.push(it.next_back().unwrap());
    }
    assert_eq!(it.next(), None);
    assert_eq!(it.next_back(), None);
    assert_eq!(it.len(), 0);
    assert_eq!(seen.len(), 12);
    for kind in expected_order() {
        assert!(seen.contains(&kind));
    }
}

#[test]
fn nth_skips() {
    let mut it = funkstd::iter();
    assert_eq!(it.nth(3), Some(funkstd::int32));
    assert_eq!(it.next(), Some(funkstd::int64));
    assert_eq!(it.nth(6), Some(funkstd::uint128));
    assert_eq!(it.next(), None);
}

#[test]
fn nth_past_the_end_exhausts() {
    let mut it = funkstd::iter();
    assert_eq!(it.nth(12), None);
    assert_eq!(it.len(), 0);
    assert_eq!(it.next(), None);
    let mut it = funkstd::iter();
    assert_eq!(it.nth(usize::MAX), None);
    assert_eq!(it.size_hint(), (0, Some(0)));
}

#[test]
fn get_is_positional() {
    let it = funkstd::iter();
    assert_eq!(it.get(0), Some(funkstd::bool));
    assert_eq!(it.get(6), Some(funkstd::str));
    assert_eq!(it.get(11), Some(funkstd::uint128));
    assert_eq!(it.get(12), None);
}

#[test]
fn a_clone_stands_where_the_enumeration_stands() {
    let mut it: funkstdIter = funkstd::iter();
    it.next();
    it.next_back();
    let copy = it.clone();
    assert_eq!(copy.collect(), it.collect());
}
