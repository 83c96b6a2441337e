use funk::{funkstd, FunkData, FunkTy};
use std::rc::Rc;

#[test]
fn a_new_definition_has_its_name_and_no_slots() {
    let ty = FunkTy::type_("Foo");
    assert!(ty.is_named());
    assert_eq!(ty.get_name(), Some("Foo"));
    assert_eq!(ty.property_count(), 0);
    assert_eq!(ty.link_count(), 0);
    assert_eq!(ty.property("x"), None);
    assert!(ty.link("x").is_none());
}

#[test]
fn the_default_definition_has_no_name() {
    let ty = FunkTy::default();
    assert!(!ty.is_named());
    assert_eq!(ty.property_count(), 0);
    assert_eq!(ty.link_count(), 0);
    assert!(!FunkData::custom(ty).is_named());
}

#[test]
fn the_last_property_of_a_name_wins() {
    let ty = FunkTy::type_("Foo")
        .add_required_property(("x", funkstd::int32))
        .add_property(("x", funkstd::str));
    assert_eq!(ty.property_count(), 1);
    assert_eq!(ty.property("x"), Some((funkstd::str, false, false)));
}

#[test]
fn the_four_kinds_of_property() {
    let ty = FunkTy::type_("Foo")
        .add_property(("a", funkstd::int8))
        .add_multi_property(("b", funkstd::int16))
        .add_required_property(("c", funkstd::int32))
        .add_required_multi_property(("d", funkstd::int64));
    assert_eq!(ty.property_count(), 4);
    assert_eq!(ty.property("a"), Some((funkstd::int8, false, false)));
    assert_eq!(ty.property("b"), Some((funkstd::int16, false, true)));
    assert_eq!(ty.property("c"), Some((funkstd::int32, true, false)));
    assert_eq!(ty.property("d"), Some((funkstd::int64, true, true)));
    assert_eq!(ty.property("e"), None);
    assert_eq!(ty.link_count(), 0);
}

#[test]
fn the_four_kinds_of_link() {
    let target = Rc::new(FunkTy::type_("Target").add_property(("t", funkstd::uint8)));
    let ty = FunkTy::type_("Foo")
        .add_link(("a", Rc::clone(&target)))
        .add_multi_link(("b", Rc::clone(&target)))
        .add_required_link(("c", Rc::clone(&target)))
        .add_required_multi_link(("d", Rc::clone(&target)));
    assert_eq!(ty.link_count(), 4);
    let modifiers = |slot: &str| ty.link(slot).map(|(_, required, is_multi)| (required, is_multi));
    assert_eq!(modifiers("a"), Some((false, false)));
    assert_eq!(modifiers("b"), Some((false, true)));
    assert_eq!(modifiers("c"), Some((true, false)));
    assert_eq!(modifiers("d"), Some((true, true)));
    assert_eq!(modifiers("e"), None);
    let (found, _, _) = ty.link("c").unwrap();
    assert!(Rc::ptr_eq(&found, &target));
    assert_eq!(ty.property_count(), 0);
}

#[test]
fn the_last_link_of_a_name_wins() {
    let first = Rc::new(FunkTy::type_("First"));
    let second = Rc::new(FunkTy::type_("Second"));
    let ty = FunkTy::type_("Foo")
        .add_required_link(("to", first))
        .add_multi_link(("to", second));
    assert_eq!(ty.link_count(), 1);
    let (target, required, is_multi) = ty.link("to").unwrap();
    assert_eq!(target.get_name(), Some("Second"));
    assert!(!required);
    assert!(is_multi);
}

#[test]
fn properties_and_links_are_named_apart() {
    let target = Rc::new(FunkTy::type_("Target"));
    let ty = FunkTy::type_("Foo").add_property(("x", funkstd::bool)).add_link(("x", target));
    assert_eq!(ty.property_count(), 1);
    assert_eq!(ty.link_count(), 1);
    assert_eq!(ty.property("x"), Some((funkstd::bool, false, false)));
    assert!(ty.link("x").is_some());
}

#[test]
fn slots_are_found_whatever_the_order_of_their_addition() {
    let names = ["m", "b", "z", "a", "q", "c", "y", "n"];
    let mut ty = FunkTy::type_("Foo");
    for name in names {
        ty = ty.add_property((name, funkstd::uint16));
    }
    assert_eq!(ty.property_count(), names.len());
    for name in names {
        assert_eq!(ty.property(name), Some((funkstd::uint16, false, false)));
    }
    assert_eq!(ty.property("d"), None);
}

#[test]
fn a_clone_is_the_same_definition() {
    let target = Rc::new(FunkTy::type_("Target"));
    let ty = FunkTy::type_("Foo")
        .add_required_property(("x", funkstd::int32))
        .add_multi_link(("to", Rc::clone(&target)));
    let copy = ty.clone();
    assert_eq!(copy.get_name(), Some("Foo"));
    assert_eq!(copy.property("x"), Some((funkstd::int32, true, false)));
    assert_eq!(copy.property_count(), 1);
    assert_eq!(copy.link_count(), 1);
    let (found, required, is_multi) = copy.link("to").unwrap();
    assert!(Rc::ptr_eq(&found, &target));
    assert!(!required);
    assert!(is_multi);
}

#[test]
fn entry_names() {
    assert_eq!(FunkData::primitive(funkstd::uint128).get_name(), Some("uint128"));
    assert_eq!(FunkData::custom(FunkTy::type_("Foo")).get_name(), Some("Foo"));
    assert_eq!(FunkData::nil.get_name(), Some("{unknown}"));
    assert!(FunkData::nil.is_named());
}

#[test]
fn a_cloned_entry_is_the_same_entry() {
    let entry = FunkData::custom(FunkTy::type_("Foo").add_property(("x", funkstd::str)));
    match entry.clone() {
        FunkData::custom(definition) => {
            assert_eq!(definition.get_name(), Some("Foo"));
            assert_eq!(definition.property("x"), Some((funkstd::str, false, false)));
        }
        _ => panic!("the clone is another kind of entry"),
    }
    assert!(matches!(FunkData::primitive(funkstd::int8).clone(), FunkData::primitive(funkstd::int8)));
    assert!(matches!(FunkData::nil.clone(), FunkData::nil));
}

#[test]
fn slots_are_listed_in_the_order_of_their_names() {
    let target = Rc::new(FunkTy::type_("Target"));
    let ty = FunkTy::type_("Foo")
        .add_property(("zeta", funkstd::int8))
        .add_required_property(("alpha", funkstd::str))
        .add_multi_property(("mid", funkstd::bool))
        .add_link(("y", Rc::clone(&target)))
        .add_link(("x", Rc::clone(&target)));
    let properties: Vec<(&str, (funkstd, bool, bool))> =
        ty.properties().iter().map(|(name, slot)| (name.as_str(), *slot)).collect();
    assert_eq!(
        properties,
        vec![
            ("alpha", (funkstd::str, true, false)),
            ("mid", (funkstd::bool, false, true)),
            ("zeta", (funkstd::int8, false, false)),
        ]
    );
    let links: Vec<&str> = ty.links().iter().map(|(name, _)| name.as_str()).collect();
    assert_eq!(links, vec!["x", "y"]);
}
