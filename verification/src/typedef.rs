//! Type definitions: a name, scalar-valued properties and links to other
//! type definitions.
use vstd::prelude::*;
use std::rc::Rc;
use crate::ordered::{
    ascending, contents, has_key, index_of, lemma_count, lemma_entry, locate, put, Place,
};
use crate::primitive::funkstd;

verus! {

/// The properties of a type definition, kept in the order of their names:
/// name, then kind, required, multi.
pub type FunkPropMap = Vec<(String, (funkstd, bool, bool))>;

/// The links of a type definition, kept in the order of their names:
/// name, then target, required, multi.
pub type FunkLinkMap = Vec<(String, (Rc<FunkTy>, bool, bool))>;

/// A type definition as a mathematical value.
pub struct TypeDef {
    pub name: Option<Seq<char>>,
    /// Slot name to kind, required, multi.
    pub properties: Map<Seq<char>, (funkstd, bool, bool)>,
    /// Slot name to target, required, multi.
    pub links: Map<Seq<char>, (TypeDef, bool, bool)>,
}

impl TypeDef {
    /// The definition with this name, if any, and no slots.
    pub open spec fn bare(name: Option<Seq<char>>) -> TypeDef {
        TypeDef { name, properties: Map::empty(), links: Map::empty() }
    }

    /// The definition with one more property, in place of any property of
    /// that name.
    pub open spec fn with_property(
        self,
        slot: Seq<char>,
        kind: funkstd,
        required: bool,
        is_multi: bool,
    ) -> TypeDef {
        TypeDef { properties: self.properties.insert(slot, (kind, required, is_multi)), ..self }
    }

    /// The definition with one more link, in place of any link of that name.
    pub open spec fn with_link(
        self,
        slot: Seq<char>,
        target: TypeDef,
        required: bool,
        is_multi: bool,
    ) -> TypeDef {
        TypeDef { links: self.links.insert(slot, (target, required, is_multi)), ..self }
    }
}

/// A type definition.
#[derive(Debug)]
pub struct FunkTy {
    name: Option<String>,
    properties: FunkPropMap,
    links: FunkLinkMap,
}

impl FunkTy {
    /// What the definition stands for, its link targets included.
    pub closed spec fn model(&self) -> TypeDef
        decreases self,
    {
        TypeDef {
            name: match self.name {
                Some(text) => Some(text@),
                None => None,
            },
            properties: contents(self.properties@),
            links: Map::new(
                |slot: Seq<char>| has_key(self.links@, slot),
                |slot: Seq<char>|
                    {
                        let i = index_of(self.links@, slot);
                        if 0 <= i < self.links@.len() {
                            ((*self.links@[i].1.0).model(), self.links@[i].1.1, self.links@[i].1.2)
                        } else {
                            (arbitrary(), false, false)
                        }
                    },
            ),
        }
    }
}

impl View for FunkTy {
    type V = TypeDef;

    open spec fn view(&self) -> TypeDef {
        self.model()
    }
}

/// What a stored link stands for.
pub open spec fn link_view(link: (Rc<FunkTy>, bool, bool)) -> (TypeDef, bool, bool) {
    ((*link.0)@, link.1, link.2)
}

/// Another handle on the same shared type definition; calls `Rc::clone`,
/// which hands out a pointer to the allocation that `target` points to, so
/// that the two are equal as values.
#[verifier::external_body]
fn share(target: &Rc<FunkTy>) -> (r: Rc<FunkTy>)
    ensures
        r == *target,
{
    Rc::clone(target)
}

impl FunkTy {
    #[verifier::type_invariant]
    spec fn slots_in_order(self) -> bool {
        ascending(self.properties@) && ascending(self.links@)
    }

    /// The links of a definition are the stored links, each taken for what it
    /// stands for.
    proof fn lemma_links(self)
        requires
            ascending(self.links@),
        ensures
            self@.links == contents(self.links@).map_values(
                |link: (Rc<FunkTy>, bool, bool)| link_view(link),
            ),
    {
        let lifted = contents(self.links@).map_values(
            |link: (Rc<FunkTy>, bool, bool)| link_view(link),
        );
        assert forall|slot: Seq<char>| lifted.contains_key(slot) implies #[trigger] self@.links[slot]
            == lifted[slot] by {
            let i = index_of(self.links@, slot);
            assert(has_key(self.links@, slot));
            assert(0 <= i < self.links@.len());
        }
        assert(self@.links.dom() =~= lifted.dom());
        assert(self@.links =~= lifted);
    }

    /// A definition with the given name and no slots.
    pub fn type_(name: &str) -> (ty: FunkTy)
        ensures
            ty@ == TypeDef::bare(Some(name@)),
    {
        let ty = FunkTy { name: Some(name.to_owned()), properties: Vec::new(), links: Vec::new() };
        assert(ty@.properties =~= Map::empty());
        assert(ty@.links =~= Map::empty());
        ty
    }

    /// The name of the definition.
    pub fn get_name(&self) -> (r: Option<&str>)
        requires
            self@.name is Some,
        ensures
            r is Some,
            r->0@ == self@.name->0,
    {
        match &self.name {
            Some(text) => Some(text.as_str()),
            None => None,
        }
    }

    /// Whether the definition has a name.
    pub fn is_named(&self) -> (r: bool)
        ensures
            r == (self@.name is Some),
    {
        self.name.is_some()
    }

    /// The property filed under `slot`: its kind, whether it is required and
    /// whether it is multi-valued.
    pub fn property(&self, slot: &str) -> (r: Option<(funkstd, bool, bool)>)
        ensures
            r == if self@.properties.contains_key(slot@) {
                Some(self@.properties[slot@])
            } else {
                None
            },
    {
        proof {
            use_type_invariant(self);
        }
        match locate(&self.properties, &slot.to_owned()) {
            Place::Held(i) => {
                proof {
                    lemma_entry(self.properties@, i as int);
                }
                Some(self.properties[i].1)
            },
            Place::Free(_) => None,
        }
    }

    /// The link filed under `slot`: its target, whether it is required and
    /// whether it is multi-valued.
    pub fn link(&self, slot: &str) -> (r: Option<(Rc<FunkTy>, bool, bool)>)
        ensures
            r is Some <==> self@.links.contains_key(slot@),
            r is Some ==> link_view(r->0) == self@.links[slot@],
    {
        proof {
            use_type_invariant(self);
            self.lemma_links();
        }
        match locate(&self.links, &slot.to_owned()) {
            Place::Held(i) => {
                proof {
                    lemma_entry(self.links@, i as int);
                }
                let found = &self.links[i].1;
                Some((share(&found.0), found.1, found.2))
            },
            Place::Free(_) => None,
        }
    }

    /// The properties of the definition in the order of their names.
    pub fn properties(&self) -> (slots: &FunkPropMap)
        ensures
            ascending(slots@),
            contents(slots@) == self@.properties,
    {
        proof {
            use_type_invariant(self);
        }
        &self.properties
    }

    /// The links of the definition in the order of their names.
    pub fn links(&self) -> (slots: &FunkLinkMap)
        ensures
            ascending(slots@),
            contents(slots@).map_values(|link: (Rc<FunkTy>, bool, bool)| link_view(link))
                == self@.links,
    {
        proof {
            use_type_invariant(self);
            self.lemma_links();
        }
        &self.links
    }

    /// How many properties the definition has.
    pub fn property_count(&self) -> (n: usize)
        ensures
            self@.properties.dom().finite(),
            n == self@.properties.len(),
    {
        proof {
            use_type_invariant(self);
            lemma_count(self.properties@);
        }
        self.properties.len()
    }

    /// How many links the definition has.
    pub fn link_count(&self) -> (n: usize)
        ensures
            self@.links.dom().finite(),
            n == self@.links.len(),
    {
        proof {
            use_type_invariant(self);
            self.lemma_links();
            lemma_count(self.links@);
            assert(self@.links.dom() =~= contents(self.links@).dom());
        }
        self.links.len()
    }

    /// Files a property under `slot`, in place of any property of that name.
    fn set_property(self, slot: &str, kind: funkstd, required: bool, is_multi: bool) -> (ty: FunkTy)
        ensures
            ty@ == self@.with_property(slot@, kind, required, is_multi),
    {
        let mut ty = self;
        proof {
            use_type_invariant(&ty);
            ty.lemma_links();
        }
        let mut properties: FunkPropMap = Vec::new();
        std::mem::swap(&mut properties, &mut ty.properties);
        put(&mut properties, slot.to_owned(), (kind, required, is_multi));
        ty.properties = properties;
        proof {
            ty.lemma_links();
            assert(ty@.links =~= self@.links);
        }
        ty
    }

    /// Files a link under `slot`, in place of any link of that name.
    fn set_link(self, slot: &str, target: Rc<FunkTy>, required: bool, is_multi: bool) -> (ty: FunkTy)
        ensures
            ty@ == self@.with_link(slot@, (*target)@, required, is_multi),
    {
        let mut ty = self;
        proof {
            use_type_invariant(&ty);
            ty.lemma_links();
        }
        let mut links: FunkLinkMap = Vec::new();
        std::mem::swap(&mut links, &mut ty.links);
        put(&mut links, slot.to_owned(), (target, required, is_multi));
        ty.links = links;
        proof {
            ty.lemma_links();
            assert(ty@.links =~= self@.links.insert(
                slot@,
                ((*target)@, required, is_multi),
            ));
        }
        ty
    }

    /// Adds an optional single-valued property.
    pub fn add_property(self, prop: (&str, funkstd)) -> (ty: FunkTy)
        ensures
            ty@ == self@.with_property(prop.0@, prop.1, false, false),
    {
        self.set_property(prop.0, prop.1, false, false)
    }

    /// Adds an optional multi-valued property.
    pub fn add_multi_property(self, prop: (&str, funkstd)) -> (ty: FunkTy)
        ensures
            ty@ == self@.with_property(prop.0@, prop.1, false, true),
    {
        self.set_property(prop.0, prop.1, false, true)
    }

    /// Adds a required single-valued property.
    pub fn add_required_property(self, prop: (&str, funkstd)) -> (ty: FunkTy)
        ensures
            ty@ == self@.with_property(prop.0@, prop.1, true, false),
    {
        self.set_property(prop.0, prop.1, true, false)
    }

    /// Adds a required multi-valued property.
    pub fn add_required_multi_property(self, prop: (&str, funkstd)) -> (ty: FunkTy)
        ensures
            ty@ == self@.with_property(prop.0@, prop.1, true, true),
    {
        self.set_property(prop.0, prop.1, true, true)
    }

    /// Adds an optional multi-valued link.
    pub fn add_multi_link(self, link: (&str, Rc<FunkTy>)) -> (ty: FunkTy)
        ensures
            ty@ == self@.with_link(link.0@, (*link.1)@, false, true),
    {
        self.set_link(link.0, link.1, false, true)
    }

    /// Adds an optional single-valued link.
    pub fn add_link(self, link: (&str, Rc<FunkTy>)) -> (ty: FunkTy)
        ensures
            ty@ == self@.with_link(link.0@, (*link.1)@, false, false),
    {
        self.set_link(link.0, link.1, false, false)
    }

    /// Adds a required multi-valued link.
    pub fn add_required_multi_link(self, link: (&str, Rc<FunkTy>)) -> (ty: FunkTy)
        ensures
            ty@ == self@.with_link(link.0@, (*link.1)@, true, true),
    {
        self.set_link(link.0, link.1, true, true)
    }

    /// Adds a required single-valued link.
    pub fn add_required_link(self, link: (&str, Rc<FunkTy>)) -> (ty: FunkTy)
        ensures
            ty@ == self@.with_link(link.0@, (*link.1)@, true, false),
    {
        self.set_link(link.0, link.1, true, false)
    }
}

impl Default for FunkTy {
    /// The definition without a name and without slots.
    fn default() -> (ty: FunkTy)
        ensures
            ty@ == TypeDef::bare(None),
    {
        let ty = FunkTy { name: None, properties: Vec::new(), links: Vec::new() };
        assert(ty@.properties =~= Map::empty());
        assert(ty@.links =~= Map::empty());
        ty
    }
}

impl Clone for FunkTy {
    /// A definition that stands for the same value and shares the link
    /// targets of this one.
    fn clone(&self) -> (ty: FunkTy)
        ensures
            ty@ == self@,
    {
        proof {
            use_type_invariant(self);
        }
        let name = match &self.name {
            Some(text) => Some(text.clone()),
            None => None,
        };
        let mut properties: FunkPropMap = Vec::new();
        let mut i: usize = 0;
        while i < self.properties.len()
            invariant
                i <= self.properties@.len(),
                properties@ == self.properties@.take(i as int),
            decreases self.properties@.len() - i,
        {
            let slot = &self.properties[i];
            properties.push((slot.0.clone(), slot.1));
            i = i + 1;
            assert(properties@ =~= self.properties@.take(i as int));
        }
        let mut links: FunkLinkMap = Vec::new();
        let mut j: usize = 0;
        while j < self.links.len()
            invariant
                j <= self.links@.len(),
                links@ == self.links@.take(j as int),
            decreases self.links@.len() - j,
        {
            let slot = &self.links[j];
            links.push((slot.0.clone(), (share(&slot.1.0), slot.1.1, slot.1.2)));
            j = j + 1;
            assert(links@ =~= self.links@.take(j as int));
        }
        assert(properties@ =~= self.properties@);
        assert(links@ =~= self.links@);
        let ty = FunkTy { name, properties, links };
        assert(ty@.links =~= self@.links);
        ty
    }
}

} // verus!
