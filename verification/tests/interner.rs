use funk::ordered::Rank;
use funk::ordered::Sortable;
use funk::text::{text_rank, text_same};
use funk::{funkstd, Collision, FunkData, FunkError, FunkTy, Interner, Key};

fn key_parts(key: &Key) -> (Option<&str>, Option<&str>, Option<&str>) {
    (key.module.as_deref(), key.identity.as_deref(), key.assignment.as_deref())
}

#[test]
fn an_empty_catalog_has_every_name_available() {
    let interner = Interner::new();
    assert_eq!(interner.len(), 0);
    assert!(interner.is_name_available(Some("m"), None, None));
    assert!(interner.is_name_available(Some("m"), Some("i"), None));
    assert!(interner.is_name_available(Some("m"), Some("i"), Some("f")));
    assert!(interner.keys().is_empty());
}

#[test]
fn availability_is_by_the_exact_key() {
    let mut interner = Interner::new();
    assert!(interner.insert_module("m").is_ok());
    assert!(!interner.is_name_available(Some("m"), None, None));
    assert!(interner.is_name_available(Some("m"), Some("i"), None));
    assert!(interner.is_name_available(Some("n"), None, None));

    assert!(interner.insert_member("m", "i", FunkData::nil).is_ok());
    assert!(!interner.is_name_available(Some("m"), Some("i"), None));
    assert!(interner.is_name_available(Some("m"), Some("i"), Some("f")));
    assert!(interner.is_name_available(Some("m"), Some("j"), None));

    let field = Key::from_parts(Some("m"), Some("i"), Some("f"));
    assert!(interner.insert(field, FunkData::primitive(funkstd::bool)).is_none());
    assert!(!interner.is_name_available(Some("m"), Some("i"), Some("f")));
    assert!(interner.is_name_available(Some("m"), Some("i"), Some("g")));
    assert_eq!(interner.len(), 3);
}

#[test]
fn a_query_in_no_accepted_shape_is_a_usage_error() {
    let interner = Interner::new();
    assert!(matches!(interner.check_name_available(None, None, None), Err(FunkError::UsageError)));
    assert!(matches!(
        interner.check_name_available(None, Some("i"), None),
        Err(FunkError::UsageError)
    ));
    assert!(matches!(
        interner.check_name_available(None, None, Some("f")),
        Err(FunkError::UsageError)
    ));
    assert!(matches!(
        interner.check_name_available(None, Some("i"), Some("f")),
        Err(FunkError::UsageError)
    ));
    assert!(matches!(
        interner.check_name_available(Some("m"), None, Some("f")),
        Err(FunkError::UsageError)
    ));
}

#[test]
fn a_query_in_an_accepted_shape_is_answered() {
    let mut interner = Interner::new();
    assert!(interner.insert_member("m", "i", FunkData::nil).is_ok());
    assert!(matches!(interner.check_name_available(Some("m"), None, None), Ok(true)));
    assert!(matches!(interner.check_name_available(Some("m"), Some("i"), None), Ok(false)));
    assert!(matches!(interner.check_name_available(Some("m"), Some("i"), Some("f")), Ok(true)));
}

#[test]
fn a_module_is_reserved_once() {
    let mut interner = Interner::new();
    assert!(interner.insert_module("m").is_ok());
    match interner.insert_module("m") {
        Err(FunkError::Collision(Collision::Module { module })) => assert_eq!(module, "m"),
        other => panic!("expected a collision on the module, got {:?}", other),
    }
    assert_eq!(interner.len(), 1);
    assert!(matches!(interner.get(&Key::of_module("m")), Some(FunkData::nil)));
}

#[test]
fn a_member_is_reserved_once_and_keeps_its_first_entry() {
    let mut interner = Interner::new();
    assert!(interner.insert_member("m", "i", FunkData::primitive(funkstd::int8)).is_ok());
    match interner.insert_member("m", "i", FunkData::primitive(funkstd::int16)) {
        Err(FunkError::Collision(Collision::Member { module, identity })) => {
            assert_eq!(module, "m");
            assert_eq!(identity, "i");
        }
        other => panic!("expected a collision on the member, got {:?}", other),
    }
    assert_eq!(interner.len(), 1);
    assert!(matches!(
        interner.get(&Key::of_member("m", "i")),
        Some(FunkData::primitive(funkstd::int8))
    ));
}

#[test]
fn insert_replaces_and_hands_back_what_was_there() {
    let mut interner = Interner::new();
    assert!(interner.insert(Key::of_member("m", "i"), FunkData::nil).is_none());
    let displaced = interner.insert(Key::of_member("m", "i"), FunkData::custom(FunkTy::type_("i")));
    assert!(matches!(displaced, Some(FunkData::nil)));
    assert_eq!(interner.len(), 1);
    assert!(matches!(interner.get(&Key::of_member("m", "i")), Some(FunkData::custom(_))));
}

#[test]
fn insert_new_hands_the_pair_back_when_the_key_is_taken() {
    let mut interner = Interner::new();
    assert!(interner.insert_new(Key::of_module("m"), FunkData::nil).is_none());
    let refused = interner.insert_new(Key::of_module("m"), FunkData::primitive(funkstd::str));
    match refused {
        Some((key, FunkData::primitive(funkstd::str))) => {
            assert_eq!(key_parts(&key), (Some("m"), None, None))
        }
        _ => panic!("the pair was not handed back"),
    }
    assert!(matches!(interner.get(&Key::of_module("m")), Some(FunkData::nil)));
}

#[test]
fn keys_come_out_in_key_order() {
    let mut interner = Interner::new();
    for (module, identity) in [("b", "y"), ("a", "z"), ("b", "x"), ("ab", "a"), ("a", "a")] {
        assert!(interner.insert_member(module, identity, FunkData::nil).is_ok());
    }
    assert!(interner.insert_module("b").is_ok());
    assert!(interner.insert_module("a").is_ok());
    assert!(interner.insert(Key::from_parts(Some("a"), Some("a"), Some("f")), FunkData::nil).is_none());
    assert!(interner.insert(Key::default(), FunkData::nil).is_none());
    let keys = interner.keys();
    let listed: Vec<(Option<&str>, Option<&str>, Option<&str>)> = keys.iter().map(key_parts).collect();
    assert_eq!(
        listed,
        vec![
            (None, None, None),
            (Some("a"), None, None),
            (Some("a"), Some("a"), None),
            (Some("a"), Some("a"), Some("f")),
            (Some("a"), Some("z"), None),
            (Some("ab"), Some("a"), None),
            (Some("b"), None, None),
            (Some("b"), Some("x"), None),
            (Some("b"), Some("y"), None),
        ]
    );
    assert_eq!(interner.len(), 9);
}

#[test]
fn every_entry_is_found_again() {
    let mut interner = Interner::new();
    let names: Vec<String> = (0..40).map(|n| format!("n{}", (n * 7) % 40)).collect();
    for name in &names {
        assert!(interner.insert_member("m", name, FunkData::nil).is_ok());
    }
    assert_eq!(interner.len(), 40);
    for name in &names {
        assert!(interner.contains(&Key::of_member("m", name)));
        assert!(interner.insert_member("m", name, FunkData::nil).is_err());
    }
    assert!(!interner.contains(&Key::of_member("m", "n40")));
    assert_eq!(interner.len(), 40);
}

#[test]
fn a_cloned_catalog_has_the_same_entries() {
    let mut interner = Interner::new();
    assert!(interner.insert_module("m").is_ok());
    assert!(interner.insert_member("m", "i", FunkData::primitive(funkstd::uint32)).is_ok());
    let copy = interner.clone();
    assert_eq!(copy.len(), 2);
    assert!(matches!(copy.get(&Key::of_module("m")), Some(FunkData::nil)));
    assert!(matches!(
        copy.get(&Key::of_member("m", "i")),
        Some(FunkData::primitive(funkstd::uint32))
    ));
}

#[test]
fn text_order_is_lexicographic_with_prefixes_first() {
    assert_eq!(text_rank("", ""), Rank::Same);
    assert_eq!(text_rank("", "a"), Rank::Before);
    assert_eq!(text_rank("a", ""), Rank::After);
    assert_eq!(text_rank("abc", "abd"), Rank::Before);
    assert_eq!(text_rank("abd", "abc"), Rank::After);
    assert_eq!(text_rank("ab", "abc"), Rank::Before);
    assert_eq!(text_rank("abc", "abc"), Rank::Same);
    assert_eq!(text_rank("B", "a"), Rank::Before);
    assert_eq!(text_rank("int128", "int16"), Rank::Before);
    assert_eq!(text_rank("z", "é"), Rank::Before);
    assert_eq!(text_rank("日本", "日本語"), Rank::Before);
    assert!(text_same("std", "std"));
    assert!(!text_same("std", "Std"));
}

#[test]
fn text_order_agrees_with_the_order_of_strings() {
    let words = ["", "a", "A", "ab", "b", "int8", "int16", "é", "z", "日", "~", "aé", "a~"];
    for x in words {
        for y in words {
            let expected = if x < y {
                Rank::Before
            } else if x == y {
                Rank::Same
            } else {
                Rank::After
            };
            assert_eq!(text_rank(x, y), expected);
        }
    }
}

#[test]
fn key_order_puts_absent_parts_first() {
    let module = Key::of_module("m");
    let member = Key::of_member("m", "a");
    let field = Key::from_parts(Some("m"), Some("a"), Some("f"));
    let other = Key::of_module("n");
    assert_eq!(Key::default().rank(&module), Rank::Before);
    assert_eq!(module.rank(&member), Rank::Before);
    assert_eq!(member.rank(&field), Rank::Before);
    assert_eq!(field.rank(&other), Rank::Before);
    assert_eq!(other.rank(&field), Rank::After);
    assert_eq!(member.rank(&Key::of_member("m", "a")), Rank::Same);
    assert_eq!(member.clone().rank(&member), Rank::Same);
    assert_eq!("abc".to_string().rank(&"abd".to_string()), Rank::Before);
}

#[test]
fn entries_are_listed_in_key_order() {
    let mut interner = Interner::new();
    assert!(interner.insert_member("m", "b", FunkData::primitive(funkstd::int8)).is_ok());
    assert!(interner.insert_member("m", "a", FunkData::nil).is_ok());
    assert!(interner.insert_module("m").is_ok());
    let listed: Vec<(Option<&str>, Option<&str>, Option<&str>)> =
        interner.metadata().iter().map(|(key, _)| key_parts(key)).collect();
    assert_eq!(
        listed,
        vec![(Some("m"), None, None), (Some("m"), Some("a"), None), (Some("m"), Some("b"), None)]
    );
    assert!(matches!(interner.metadata()[2].1, FunkData::primitive(funkstd::int8)));
}
