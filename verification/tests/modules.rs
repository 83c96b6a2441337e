use funk::module::{AttributeMap, Member, MemberData, MemberField, MemberLayout};
use funk::{Collision, FunkError, FunkTy, Key, Module, ModuleBuilder};

fn member(name: &str) -> Member {
    Member { member_name: name.to_string(), fields: None, attrs: None }
}

#[test]
fn a_built_module_is_named_default_unless_told() {
    let module = Module::builder().build();
    assert_eq!(module.get_name(), "default");
    assert!(module.members().is_empty());
    let module = ModuleBuilder::new().module_name("std").build();
    assert_eq!(module.get_name(), "std");
}

#[test]
fn the_last_name_given_to_the_builder_counts() {
    let module = Module::builder().module_name("one").module_name("two").build();
    assert_eq!(module.get_name(), "two");
}

#[test]
fn a_module_keeps_its_members_in_order() {
    let module = Module::new("m".to_string(), Some(vec![member("b"), member("a")]));
    assert_eq!(module.get_name(), "m");
    let names: Vec<&str> = module.members().iter().map(|m| m.member_name.as_str()).collect();
    assert_eq!(names, vec!["b", "a"]);
    let module = Module::new("m".to_string(), None);
    assert!(module.members().is_empty());
    let module = Module::builder().member_entries(vec![member("x")]).module_name("n").build();
    assert_eq!(module.get_name(), "n");
    assert_eq!(module.members().len(), 1);
}

#[test]
fn members_carry_their_fields() {
    let attrs = AttributeMap { is_required: true, is_multi: false, is_link: true };
    let layout = MemberLayout { identity: "Target".to_string(), attribute_map: attrs };
    let field = MemberField { field_name: "title".to_string(), layout: Some(vec![layout]) };
    let described = Member {
        member_name: "B".to_string(),
        fields: Some(vec![
            MemberData::LocalMember(field),
            MemberData::Nonlocal(Key::of_member("other", "T")),
            MemberData::Std(Key::of_member("std", "str")),
        ]),
        attrs: Some(attrs),
    };
    let module = Module::new("default".to_string(), Some(vec![described]));
    let fields = module.members()[0].fields.as_ref().unwrap();
    assert_eq!(fields.len(), 3);
    assert!(matches!(&fields[0], MemberData::LocalMember(f) if f.field_name == "title"));
    assert!(matches!(&fields[2], MemberData::Std(k) if k.identity.as_deref() == Some("str")));
}

#[test]
fn adding_a_type_is_not_implemented() {
    let mut module = Module::new("m".to_string(), Some(vec![member("a")]));
    assert!(matches!(module.add_type(FunkTy::type_("Foo")), Err(FunkError::NotImplemented)));
    assert_eq!(module.get_name(), "m");
    assert_eq!(module.members().len(), 1);
}

#[test]
fn refusals_in_words() {
    assert_eq!(Collision::of_module("std").message(), "Module std: already defined!");
    assert_eq!(
        Collision::of_member("default", "Foo").message(),
        "Schema level name `default::Foo` was defined more than once."
    );
    assert_eq!(
        FunkError::Collision(Collision::of_module("m")).message(),
        "Module m: already defined!"
    );
    assert_eq!(
        FunkError::UsageError.message(),
        "Verify the arguments passed to is_name_available"
    );
    assert_eq!(FunkError::NotImplemented.message(), "Not implemented");
    assert!(Collision::of_module("m").is_module_level());
    assert!(!Collision::of_member("m", "i").is_module_level());
}
