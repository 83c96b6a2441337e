use funk::{funkstd, Collision, FunkData, FunkError, FunkTy, Interner, Key, Module, Namespace};
use std::rc::Rc;

fn empty_namespace() -> Namespace {
    Namespace::builder().interner(Interner::new()).modules(vec![]).build()
}

fn module(name: &str) -> Module {
    Module::builder().module_name(name).build()
}

fn holds_primitive(ns: &Namespace, module: &str, identity: &str, kind: funkstd) -> bool {
    matches!(
        ns.interner().get(&Key::of_member(module, identity)),
        Some(FunkData::primitive(found)) if *found == kind
    )
}

fn holds_custom(ns: &Namespace, module: &str, identity: &str) -> bool {
    match ns.interner().get(&Key::of_member(module, identity)) {
        Some(FunkData::custom(definition)) => definition.get_name() == Some(identity),
        _ => false,
    }
}

fn key_parts(key: &Key) -> (Option<&str>, Option<&str>, Option<&str>) {
    (key.module.as_deref(), key.identity.as_deref(), key.assignment.as_deref())
}

#[test]
fn create_db_schema() {
    let mut ns = empty_namespace();
    assert!(ns.seed_primitives().is_ok());
    assert!(ns.register_module(module("default")).is_ok());
    assert_eq!(ns.module_count(), 2);
    assert_eq!(ns.module_at(0).get_name(), "std");
    assert_eq!(ns.module_at(1).get_name(), "default");
    assert_eq!(ns.interner().len(), 14);
    let keys = ns.interner().keys();
    let listed: Vec<(Option<&str>, Option<&str>, Option<&str>)> = keys.iter().map(key_parts).collect();
    assert_eq!(
        listed,
        vec![
            (Some("default"), None, None),
            (Some("std"), None, None),
            (Some("std"), Some("bool"), None),
            (Some("std"), Some("int128"), None),
            (Some("std"), Some("int16"), None),
            (Some("std"), Some("int32"), None),
            (Some("std"), Some("int64"), None),
            (Some("std"), Some("int8"), None),
            (Some("std"), Some("str"), None),
            (Some("std"), Some("uint128"), None),
            (Some("std"), Some("uint16"), None),
            (Some("std"), Some("uint32"), None),
            (Some("std"), Some("uint64"), None),
            (Some("std"), Some("uint8"), None),
        ]
    );
}

#[test]
fn verify_schema_transaction_works() {
    let mut ns = empty_namespace();
    assert!(ns.register_module(module("taken")).is_ok());
    let commits = vec![
        (
            module("default"),
            vec![
                FunkData::custom(FunkTy::type_("A")),
                FunkData::custom(FunkTy::type_("B")),
                FunkData::custom(FunkTy::type_("A")),
            ],
        ),
        (module("taken"), vec![FunkData::custom(FunkTy::type_("C"))]),
        (module("default"), vec![FunkData::custom(FunkTy::type_("B"))]),
    ];
    let found = ns.find_conflicts(&commits);
    let messages: Vec<String> = found.iter().map(|c| c.message()).collect();
    assert_eq!(
        messages,
        vec![
            "Schema level name `default::A` was defined more than once.".to_string(),
            "Module taken: already defined!".to_string(),
            "Schema level name `default::B` was defined more than once.".to_string(),
        ]
    );
    assert_eq!(ns.interner().len(), 1);
    assert!(ns.is_name_available(Some("default"), Some("A"), None));
}

#[test]
fn apply_schema_transaction() {
    let mut ns = empty_namespace();
    let funks_given = Rc::new(
        FunkTy::type_("FunksGiven")
            .add_required_property(("expires", funkstd::int32))
            .add_property(("significance", funkstd::str)),
    );
    let reason = FunkTy::type_("ReasonForLiving")
        .add_required_property(("online", funkstd::bool))
        .add_multi_link(("funks", Rc::clone(&funks_given)));
    let commits = vec![(
        module("default"),
        vec![FunkData::custom((*funks_given).clone()), FunkData::custom(reason)],
    )];
    assert!(ns.try_commit(&commits).is_ok());
    assert_eq!(ns.interner().len(), 2);
    assert!(holds_custom(&ns, "default", "FunksGiven"));
    assert!(holds_custom(&ns, "default", "ReasonForLiving"));
    match ns.interner().get(&Key::of_member("default", "ReasonForLiving")) {
        Some(FunkData::custom(definition)) => {
            assert_eq!(definition.property("online"), Some((funkstd::bool, true, false)));
            let (target, required, is_multi) = definition.link("funks").unwrap();
            assert_eq!(target.get_name(), Some("FunksGiven"));
            assert_eq!(target.property("expires"), Some((funkstd::int32, true, false)));
            assert!(!required);
            assert!(is_multi);
        }
        _ => panic!("the definition is not filed"),
    }
    assert!(!ns.is_name_available(Some("default"), Some("FunksGiven"), None));
    assert!(ns.is_name_available(Some("default"), None, None));
    assert_eq!(ns.module_count(), 0);
}

#[test]
fn a_registered_module_takes_no_commit_and_a_fresh_one_does() {
    let mut ns = empty_namespace();
    assert!(ns.register_module(module("std")).is_ok());
    let builtins: Vec<FunkData> =
        funkstd::iter().collect().into_iter().map(FunkData::primitive).collect();
    let builtins = vec![(module("std"), builtins)];
    let refused = ns.try_commit(&builtins).unwrap_err();
    assert_eq!(refused.len(), 1);
    assert_eq!(refused[0].message(), "Module std: already defined!");

    assert!(ns.register_module(module("default")).is_ok());
    let funks_given = Rc::new(
        FunkTy::type_("FunksGiven")
            .add_required_property(("expires", funkstd::int32))
            .add_property(("significance", funkstd::str)),
    );
    let reason = FunkTy::type_("ReasonForLiving")
        .add_required_property(("online", funkstd::bool))
        .add_multi_link(("funks", Rc::clone(&funks_given)));
    let commits = vec![(
        module("schema"),
        vec![FunkData::custom((*funks_given).clone()), FunkData::custom(reason)],
    )];
    assert!(ns.try_commit(&commits).is_ok());
    assert!(holds_custom(&ns, "schema", "FunksGiven"));
    assert!(holds_custom(&ns, "schema", "ReasonForLiving"));
}

#[test]
fn registering_a_module_twice_collides() {
    let mut ns = empty_namespace();
    assert!(ns.register_module(module("m")).is_ok());
    match ns.register_module(module("m")) {
        Err(FunkError::Collision(Collision::Module { module })) => assert_eq!(module, "m"),
        other => panic!("expected a collision on the module, got {:?}", other),
    }
    assert_eq!(ns.module_count(), 1);
    assert!(ns.has_module("m"));
    assert_eq!(ns.interner().len(), 1);
    assert!(!ns.is_name_available(Some("m"), None, None));
}

#[test]
fn registration_is_refused_when_only_the_key_is_taken() {
    let mut interner = Interner::new();
    assert!(interner.insert_module("m").is_ok());
    let mut ns = Namespace::builder().interner(interner).modules(vec![]).build();
    match ns.register_module(module("m")) {
        Err(FunkError::Collision(Collision::Module { module })) => assert_eq!(module, "m"),
        other => panic!("expected a collision on the module, got {:?}", other),
    }
    assert_eq!(ns.module_count(), 0);
    assert!(!ns.has_module("m"));
    assert_eq!(ns.interner().len(), 1);
}

#[test]
fn registration_reserves_the_module_key_with_a_placeholder() {
    let mut ns = empty_namespace();
    assert!(ns.register_module(module("default")).is_ok());
    assert!(matches!(ns.interner().get(&Key::of_module("default")), Some(FunkData::nil)));
    assert!(ns.is_name_available(Some("other"), None, None));
}

#[test]
fn commit_of_primitives_into_an_empty_namespace() {
    let mut ns = empty_namespace();
    let commits = vec![(
        module("std"),
        vec![FunkData::primitive(funkstd::bool), FunkData::primitive(funkstd::int32)],
    )];
    assert!(ns.try_commit(&commits).is_ok());
    assert!(holds_primitive(&ns, "std", "bool", funkstd::bool));
    assert!(holds_primitive(&ns, "std", "int32", funkstd::int32));
    assert_eq!(ns.interner().len(), 2);

    let again = vec![(module("std"), vec![FunkData::primitive(funkstd::bool)])];
    let refused = ns.try_commit(&again).unwrap_err();
    assert_eq!(refused.len(), 1);
    assert!(matches!(
        &refused[0],
        Collision::Member { module, identity } if module == "std" && identity == "bool"
    ));
    assert_eq!(ns.interner().len(), 2);
    assert!(holds_primitive(&ns, "std", "bool", funkstd::bool));
}

#[test]
fn commit_into_a_registered_module_is_a_module_collision() {
    let mut ns = empty_namespace();
    assert!(ns.register_module(module("std")).is_ok());
    let commits = vec![(module("std"), vec![FunkData::primitive(funkstd::bool)])];
    let refused = ns.try_commit(&commits).unwrap_err();
    assert_eq!(refused.len(), 1);
    assert!(refused[0].is_module_level());
    assert!(matches!(&refused[0], Collision::Module { module } if module == "std"));
    assert!(ns.is_name_available(Some("std"), Some("bool"), None));
}

#[test]
fn same_identity_twice_in_one_batch() {
    let mut ns = empty_namespace();
    let commits = vec![(
        module("default"),
        vec![FunkData::custom(FunkTy::type_("Foo")), FunkData::custom(FunkTy::type_("Foo"))],
    )];
    let refused = ns.try_commit(&commits).unwrap_err();
    assert_eq!(refused.len(), 1);
    assert!(matches!(
        &refused[0],
        Collision::Member { module, identity } if module == "default" && identity == "Foo"
    ));
    assert_eq!(
        refused[0].message(),
        "Schema level name `default::Foo` was defined more than once."
    );
    assert_eq!(ns.interner().len(), 0);
    assert!(ns.interner().get(&Key::of_member("default", "Foo")).is_none());
}

#[test]
fn same_identity_in_two_pairs_of_one_batch() {
    let mut ns = empty_namespace();
    let commits = vec![
        (module("default"), vec![FunkData::custom(FunkTy::type_("Foo"))]),
        (module("other"), vec![FunkData::custom(FunkTy::type_("Foo"))]),
        (module("default"), vec![FunkData::custom(FunkTy::type_("Foo"))]),
    ];
    let refused = ns.try_commit(&commits).unwrap_err();
    assert_eq!(refused.len(), 1);
    assert!(matches!(
        &refused[0],
        Collision::Member { module, identity } if module == "default" && identity == "Foo"
    ));
    assert_eq!(ns.interner().len(), 0);
}

#[test]
fn same_identity_across_two_batches() {
    let mut ns = empty_namespace();
    let first = vec![(
        module("default"),
        vec![FunkData::custom(FunkTy::type_("Foo").add_property(("a", funkstd::int8)))],
    )];
    assert!(ns.try_commit(&first).is_ok());
    let second = vec![(
        module("default"),
        vec![
            FunkData::custom(FunkTy::type_("Bar")),
            FunkData::custom(FunkTy::type_("Foo").add_property(("b", funkstd::int8))),
        ],
    )];
    let refused = ns.try_commit(&second).unwrap_err();
    assert_eq!(refused.len(), 1);
    assert!(matches!(
        &refused[0],
        Collision::Member { module, identity } if module == "default" && identity == "Foo"
    ));
    assert_eq!(ns.interner().len(), 1);
    assert!(ns.is_name_available(Some("default"), Some("Bar"), None));
    match ns.interner().get(&Key::of_member("default", "Foo")) {
        Some(FunkData::custom(definition)) => {
            assert_eq!(definition.property("a"), Some((funkstd::int8, false, false)));
            assert_eq!(definition.property("b"), None);
        }
        _ => panic!("the first definition is gone"),
    }
}

#[test]
fn a_refused_commit_applies_nothing() {
    let mut ns = empty_namespace();
    assert!(ns.register_module(module("taken")).is_ok());
    let commits = vec![
        (module("fresh"), vec![FunkData::custom(FunkTy::type_("A"))]),
        (module("taken"), vec![FunkData::custom(FunkTy::type_("B"))]),
    ];
    let refused = ns.try_commit(&commits).unwrap_err();
    assert_eq!(refused.len(), 1);
    assert!(ns.is_name_available(Some("fresh"), Some("A"), None));
    assert!(ns.is_name_available(Some("taken"), Some("B"), None));
    assert_eq!(ns.interner().len(), 1);
}

#[test]
fn the_definitions_of_a_module_that_is_taken_are_passed_over() {
    let mut ns = empty_namespace();
    assert!(ns.register_module(module("taken")).is_ok());
    let commits = vec![(
        module("taken"),
        vec![FunkData::custom(FunkTy::type_("A")), FunkData::custom(FunkTy::type_("A"))],
    )];
    let refused = ns.try_commit(&commits).unwrap_err();
    assert_eq!(refused.len(), 1);
    assert!(refused[0].is_module_level());
}

#[test]
fn an_empty_batch_commits() {
    let mut ns = empty_namespace();
    assert!(ns.try_commit(&vec![]).is_ok());
    assert!(ns.try_commit(&vec![(module("m"), vec![])]).is_ok());
    assert_eq!(ns.interner().len(), 0);
    assert!(ns.is_name_available(Some("m"), None, None));
}

#[test]
fn seeding_files_every_kind_under_std() {
    let mut ns = empty_namespace();
    assert!(ns.seed_primitives().is_ok());
    assert!(ns.has_module("std"));
    assert_eq!(ns.interner().len(), 13);
    for kind in funkstd::iter().collect() {
        let name = kind.get_name().unwrap();
        assert!(holds_primitive(&ns, "std", name, kind));
    }
    assert!(matches!(ns.interner().get(&Key::of_module("std")), Some(FunkData::nil)));
}

#[test]
fn seeding_twice_is_a_module_collision() {
    let mut ns = empty_namespace();
    assert!(ns.seed_primitives().is_ok());
    match ns.seed_primitives() {
        Err(FunkError::Collision(Collision::Module { module })) => assert_eq!(module, "std"),
        other => panic!("expected a collision on the module, got {:?}", other),
    }
    assert_eq!(ns.interner().len(), 13);
    assert_eq!(ns.module_count(), 1);
}

#[test]
fn seeding_is_refused_when_a_kind_is_taken() {
    let mut ns = empty_namespace();
    let commits = vec![(
        module("std"),
        vec![FunkData::primitive(funkstd::uint8), FunkData::primitive(funkstd::int16)],
    )];
    assert!(ns.try_commit(&commits).is_ok());
    match ns.seed_primitives() {
        Err(FunkError::Collision(Collision::Member { module, identity })) => {
            assert_eq!(module, "std");
            assert_eq!(identity, "int16");
        }
        other => panic!("expected a collision on a kind, got {:?}", other),
    }
    assert_eq!(ns.interner().len(), 2);
    assert_eq!(ns.module_count(), 0);
}

#[test]
fn commit_member_files_a_kind_under_std() {
    let mut ns = empty_namespace();
    assert!(ns.commit_member(None, FunkData::primitive(funkstd::uint64)).is_ok());
    assert!(holds_primitive(&ns, "std", "uint64", funkstd::uint64));
    assert_eq!(ns.interner().len(), 1);
    match ns.commit_member(None, FunkData::primitive(funkstd::uint64)) {
        Err(FunkError::Collision(Collision::Member { module, identity })) => {
            assert_eq!(module, "std");
            assert_eq!(identity, "uint64");
        }
        other => panic!("expected a collision on the kind, got {:?}", other),
    }
    assert_eq!(ns.interner().len(), 1);
}

#[test]
fn commit_member_files_a_definition_under_the_key_given() {
    let mut ns = empty_namespace();
    let filed = ns.commit_member(
        Some(Key::of_member("default", "Foo")),
        FunkData::custom(FunkTy::type_("Foo")),
    );
    assert!(filed.is_ok());
    assert!(holds_custom(&ns, "default", "Foo"));
    assert!(ns.interner().get(&Key::of_module("Foo")).is_none());
    assert!(ns.is_name_available(Some("Foo"), None, None));
    assert_eq!(ns.interner().len(), 1);
}

#[test]
fn commit_member_reports_a_taken_key() {
    let mut ns = empty_namespace();
    let first = FunkData::custom(FunkTy::type_("Foo").add_property(("a", funkstd::int8)));
    assert!(ns.commit_member(Some(Key::of_member("default", "Foo")), first).is_ok());
    let second = FunkData::custom(FunkTy::type_("Foo").add_property(("b", funkstd::int8)));
    match ns.commit_member(Some(Key::of_member("default", "Foo")), second) {
        Err(FunkError::Collision(Collision::Member { module, identity })) => {
            assert_eq!(module, "default");
            assert_eq!(identity, "Foo");
        }
        other => panic!("expected a collision on the member, got {:?}", other),
    }
    match ns.interner().get(&Key::of_member("default", "Foo")) {
        Some(FunkData::custom(definition)) => {
            assert_eq!(definition.property("a"), Some((funkstd::int8, false, false)));
            assert_eq!(definition.property("b"), None);
        }
        _ => panic!("the first definition is gone"),
    }
}

#[test]
fn a_type_named_like_a_module_does_not_take_the_module() {
    let mut ns = empty_namespace();
    let filed =
        ns.commit_member(Some(Key::of_member("default", "std")), FunkData::custom(FunkTy::type_("std")));
    assert!(filed.is_ok());
    assert!(ns.seed_primitives().is_ok());
    assert!(holds_custom(&ns, "default", "std"));
}

#[test]
fn commit_member_level_reports_a_taken_key() {
    let mut ns = empty_namespace();
    assert!(ns.commit_member_level("m", "x", FunkData::nil).is_ok());
    match ns.commit_member_level("m", "x", FunkData::primitive(funkstd::bool)) {
        Err(FunkError::Collision(Collision::Member { module, identity })) => {
            assert_eq!(module, "m");
            assert_eq!(identity, "x");
        }
        other => panic!("expected a collision, got {:?}", other),
    }
    assert!(matches!(ns.interner().get(&Key::of_member("m", "x")), Some(FunkData::nil)));
}

#[test]
fn commit_module_reserves_the_key() {
    let mut ns = empty_namespace();
    assert!(ns.commit_module(&module("m")).is_ok());
    assert!(!ns.is_name_available(Some("m"), None, None));
    assert!(matches!(ns.interner().get(&Key::of_module("m")), Some(FunkData::nil)));
    assert_eq!(ns.module_count(), 0);
}

#[test]
fn commit_module_reports_a_taken_key() {
    let mut ns = empty_namespace();
    assert!(ns.register_module(module("m")).is_ok());
    match ns.commit_module(&module("m")) {
        Err(FunkError::Collision(Collision::Module { module })) => assert_eq!(module, "m"),
        other => panic!("expected a collision on the module, got {:?}", other),
    }
    assert_eq!(ns.interner().len(), 1);
    assert_eq!(ns.module_count(), 1);
}

#[test]
fn names_of_modules_are_told_apart() {
    assert!(Namespace::distinct_names(&vec![]));
    assert!(Namespace::distinct_names(&vec![module("a")]));
    assert!(Namespace::distinct_names(&vec![module("a"), module("b"), module("c")]));
    assert!(!Namespace::distinct_names(&vec![module("a"), module("b"), module("a")]));
    assert!(!Namespace::distinct_names(&vec![module("a"), module("a")]));
    assert!(!Namespace::distinct_names(&vec![module("b"), module("a"), module("a")]));
}

#[test]
fn the_builder_keeps_what_it_is_given() {
    let mut interner = Interner::new();
    assert!(interner.insert_member("a", "b", FunkData::primitive(funkstd::str)).is_ok());
    let ns = Namespace::builder()
        .modules(vec![module("one"), module("two")])
        .interner(interner)
        .build();
    assert_eq!(ns.module_count(), 2);
    assert_eq!(ns.module_at(1).get_name(), "two");
    assert!(holds_primitive(&ns, "a", "b", funkstd::str));
}

#[test]
fn name_queries_through_the_namespace() {
    let mut ns = empty_namespace();
    assert!(ns.register_module(module("m")).is_ok());
    assert!(matches!(ns.check_name_available(Some("m"), None, None), Ok(false)));
    assert!(matches!(ns.check_name_available(Some("m"), Some("i"), None), Ok(true)));
    assert!(matches!(ns.check_name_available(Some("m"), Some("i"), Some("f")), Ok(true)));
    assert!(matches!(
        ns.check_name_available(Some("m"), None, Some("f")),
        Err(FunkError::UsageError)
    ));
    assert!(matches!(ns.check_name_available(None, None, None), Err(FunkError::UsageError)));
    assert!(!ns.is_name_available(Some("m"), None, None));
}
