//! The catalog: the one mapping from qualified keys to entries, kept in key
//! order.
use vstd::prelude::*;
use crate::entry::{Entry, FunkData};
use crate::error::{Collision, Conflict, Failure, FunkError};
use crate::key::{key_precedes, name_view, Key, QualifiedKey};
use crate::ordered::{
    ascending, contents, has_key, index_of, lemma_count, lemma_entry, locate, put, put_new, Place,
    Sortable,
};

verus! {

/// The entries of the catalog, kept in the order of their keys.
pub type MetaMap = Vec<(Key, FunkData)>;

/// The key that a name query asks about.
pub open spec fn query_key(
    module: Option<Seq<char>>,
    identity: Option<Seq<char>>,
    field: Option<Seq<char>>,
) -> QualifiedKey {
    QualifiedKey { module, identity, field }
}

/// Whether a name query has one of the three accepted shapes: module;
/// module and identity; module, identity and field.
pub open spec fn is_query(
    module: Option<Seq<char>>,
    identity: Option<Seq<char>>,
    field: Option<Seq<char>>,
) -> bool {
    module is Some && (field is Some ==> identity is Some)
}

/// What a name query comes to: whether the key that the parts make is
/// free, or a usage error where the parts come in no accepted shape.
pub open spec fn name_query(
    catalog: Map<QualifiedKey, Entry>,
    module: Option<Seq<char>>,
    identity: Option<Seq<char>>,
    field: Option<Seq<char>>,
) -> Result<bool, Failure> {
    if is_query(module, identity, field) {
        Ok(!catalog.contains_key(query_key(module, identity, field)))
    } else {
        Err(Failure::UsageError)
    }
}

/// The catalog.
#[derive(Debug)]
pub struct Interner {
    metadata: MetaMap,
}

impl View for Interner {
    type V = Map<QualifiedKey, Entry>;

    closed spec fn view(&self) -> Map<QualifiedKey, Entry> {
        contents(self.metadata@).map_values(|entry: FunkData| entry@)
    }
}

impl Interner {
    /// The entries are in key order, each key once, and every key is well
    /// shaped.
    #[verifier::type_invariant]
    spec fn wf(self) -> bool {
        &&& ascending(self.metadata@)
        &&& forall|i: int| 0 <= i < self.metadata@.len() ==> (#[trigger] self.metadata@[i]).0@.well_shaped()
    }

    /// An empty catalog.
    pub fn new() -> (interner: Interner)
        ensures
            interner@ == Map::<QualifiedKey, Entry>::empty(),
    {
        let interner = Interner { metadata: Vec::new() };
        assert(interner@ =~= Map::<QualifiedKey, Entry>::empty());
        interner
    }

    /// Whether nothing is filed under the key that the three parts make.
    /// The parts have to come in one of the three accepted shapes.
    pub fn is_name_available(
        &self,
        module_name: Option<&str>,
        identity: Option<&str>,
        field: Option<&str>,
    ) -> (available: bool)
        requires
            is_query(name_view(module_name), name_view(identity), name_view(field)),
        ensures
            available == !self@.contains_key(
                query_key(name_view(module_name), name_view(identity), name_view(field)),
            ),
    {
        let key = Key::from_parts(module_name, identity, field);
        !self.contains(&key)
    }

    /// Whether nothing is filed under the key that the three parts make, or
    /// a usage error where the parts come in no accepted shape.
    pub fn check_name_available(
        &self,
        module_name: Option<&str>,
        identity: Option<&str>,
        field: Option<&str>,
    ) -> (r: Result<bool, FunkError>)
        ensures
            match name_query(self@, name_view(module_name), name_view(identity), name_view(field)) {
                Ok(free) => r is Ok && r->Ok_0 == free,
                Err(why) => r is Err && r->Err_0@ == why,
            },
    {
        if module_name.is_none() || (field.is_some() && identity.is_none()) {
            Err(FunkError::UsageError)
        } else {
            Ok(self.is_name_available(module_name, identity, field))
        }
    }

    /// Whether an entry is filed under `key`.
    pub fn contains(&self, key: &Key) -> (held: bool)
        ensures
            held == self@.contains_key(key@),
    {
        proof {
            use_type_invariant(self);
        }
        match locate(&self.metadata, key) {
            Place::Held(_) => true,
            Place::Free(_) => false,
        }
    }

    /// The entry filed under `key`.
    pub fn get(&self, key: &Key) -> (r: Option<&FunkData>)
        ensures
            r is Some <==> self@.contains_key(key@),
            r is Some ==> r->0@ == self@[key@],
    {
        proof {
            use_type_invariant(self);
        }
        match locate(&self.metadata, key) {
            Place::Held(i) => {
                proof {
                    lemma_entry(self.metadata@, i as int);
                }
                Some(&self.metadata[i].1)
            },
            Place::Free(_) => None,
        }
    }

    /// The entries of the catalog in key order.
    pub fn metadata(&self) -> (entries: &MetaMap)
        ensures
            ascending(entries@),
            contents(entries@).map_values(|entry: FunkData| entry@) == self@,
    {
        proof {
            use_type_invariant(self);
        }
        &self.metadata
    }

    /// How many entries the catalog holds.
    pub fn len(&self) -> (n: usize)
        ensures
            self@.dom().finite(),
            n == self@.len(),
    {
        proof {
            use_type_invariant(self);
            lemma_count(self.metadata@);
            assert(self@.dom() =~= contents(self.metadata@).dom());
        }
        self.metadata.len()
    }

    /// The keys of the catalog in key order.
    pub fn keys(&self) -> (keys: Vec<Key>)
        ensures
            self@.dom().finite(),
            keys@.len() == self@.len(),
            forall|i: int| 0 <= i < keys@.len() ==> self@.contains_key(#[trigger] keys@[i]@),
            forall|k: QualifiedKey|
                self@.contains_key(k) ==> exists|i: int| 0 <= i < keys@.len() && (#[trigger] keys@[i]@) == k,
            forall|i: int, j: int|
                0 <= i < j < keys@.len() ==> key_precedes(#[trigger] keys@[i]@, #[trigger] keys@[j]@),
    {
        proof {
            use_type_invariant(self);
            lemma_count(self.metadata@);
            assert(self@.dom() =~= contents(self.metadata@).dom());
        }
        let mut keys: Vec<Key> = Vec::new();
        let mut i: usize = 0;
        while i < self.metadata.len()
            invariant
                i <= self.metadata@.len(),
                keys@.len() == i,
                forall|j: int| 0 <= j < i ==> (#[trigger] keys@[j])@ == self.metadata@[j].0@,
            decreases self.metadata@.len() - i,
        {
            keys.push(self.metadata[i].0.clone());
            i = i + 1;
        }
        proof {
            assert forall|j: int| 0 <= j < keys@.len() implies self@.contains_key(
                #[trigger] keys@[j]@,
            ) by {
                lemma_entry(self.metadata@, j);
            }
            assert forall|k: QualifiedKey| self@.contains_key(k) implies exists|j: int|
                0 <= j < keys@.len() && (#[trigger] keys@[j]@) == k by {
                let j = index_of(self.metadata@, k);
                assert(keys@[j]@ == k);
            }
            assert forall|a: int, b: int| 0 <= a < b < keys@.len() implies key_precedes(
                #[trigger] keys@[a]@,
                #[trigger] keys@[b]@,
            ) by {
                assert(Key::precedes(self.metadata@[a].0.model(), self.metadata@[b].0.model()));
            }
        }
        keys
    }

    /// Files `entry` under `key`, in place of what `key` held before, and
    /// returns what it held.
    pub fn insert(&mut self, key: Key, entry: FunkData) -> (displaced: Option<FunkData>)
        requires
            key@.well_shaped(),
        ensures
            final(self)@ == old(self)@.insert(key@, entry@),
            displaced is Some <==> old(self)@.contains_key(key@),
            displaced is Some ==> displaced->0@ == old(self)@[key@],
    {
        proof {
            use_type_invariant(&*self);
        }
        let ghost before = self.metadata@;
        let mut metadata: MetaMap = Vec::new();
        std::mem::swap(&mut metadata, &mut self.metadata);
        let displaced = put(&mut metadata, key, entry);
        proof {
            Self::lemma_shapes_kept(before, metadata@, key@);
            assert(contents(metadata@).map_values(|e: FunkData| e@) =~= contents(before).map_values(
                |e: FunkData| e@,
            ).insert(key@, entry@));
        }
        self.metadata = metadata;
        displaced
    }

    /// Files `entry` under `key` if `key` holds nothing yet; hands the pair
    /// back and changes nothing if it does.
    pub fn insert_new(&mut self, key: Key, entry: FunkData) -> (refused: Option<(Key, FunkData)>)
        requires
            key@.well_shaped(),
        ensures
            refused is Some <==> old(self)@.contains_key(key@),
            refused is Some ==> final(self)@ == old(self)@ && refused == Some((key, entry)),
            refused is None ==> final(self)@ == old(self)@.insert(key@, entry@),
    {
        proof {
            use_type_invariant(&*self);
        }
        let ghost before = self.metadata@;
        let mut metadata: MetaMap = Vec::new();
        std::mem::swap(&mut metadata, &mut self.metadata);
        let refused = put_new(&mut metadata, key, entry);
        proof {
            if refused is None {
                Self::lemma_shapes_kept(before, metadata@, key@);
                assert(contents(metadata@).map_values(|e: FunkData| e@) =~= contents(
                    before,
                ).map_values(|e: FunkData| e@).insert(key@, entry@));
            }
        }
        self.metadata = metadata;
        refused
    }

    /// Reserves the key of the module `name` with a placeholder; a collision
    /// if the key is taken.
    pub fn insert_module(&mut self, name: &str) -> (r: Result<(), FunkError>)
        ensures
            r is Ok <==> !old(self)@.contains_key(QualifiedKey::of_module(name@)),
            r is Ok ==> final(self)@ == old(self)@.insert(
                QualifiedKey::of_module(name@),
                Entry::Placeholder,
            ),
            r is Err ==> final(self)@ == old(self)@ && r->Err_0@ == Failure::Collision(
                Conflict::Module(name@),
            ),
    {
        match self.insert_new(Key::of_module(name), FunkData::nil) {
            None => Ok(()),
            Some(_) => Err(FunkError::Collision(Collision::of_module(name))),
        }
    }

    /// Reserves the key of the member `identity` of the module `module` with
    /// `entry`; a collision if the key is taken.
    pub fn insert_member(&mut self, module: &str, identity: &str, entry: FunkData) -> (r: Result<
        (),
        FunkError,
    >)
        ensures
            r is Ok <==> !old(self)@.contains_key(QualifiedKey::of_member(module@, identity@)),
            r is Ok ==> final(self)@ == old(self)@.insert(
                QualifiedKey::of_member(module@, identity@),
                entry@,
            ),
            r is Err ==> final(self)@ == old(self)@ && r->Err_0@ == Failure::Collision(
                Conflict::Member(module@, identity@),
            ),
    {
        match self.insert_new(Key::of_member(module, identity), entry) {
            None => Ok(()),
            Some(_) => Err(FunkError::Collision(Collision::of_member(module, identity))),
        }
    }

    /// A list that holds the keys of another and one well-shaped key more
    /// holds well-shaped keys only, if the other does.
    proof fn lemma_shapes_kept(before: Seq<(Key, FunkData)>, after: Seq<(Key, FunkData)>, key: QualifiedKey)
        requires
            ascending(before),
            ascending(after),
            key.well_shaped(),
            forall|i: int| 0 <= i < before.len() ==> (#[trigger] before[i]).0@.well_shaped(),
            contents(after).dom() == contents(before).dom().insert(key),
        ensures
            forall|i: int| 0 <= i < after.len() ==> (#[trigger] after[i]).0@.well_shaped(),
    {
        assert forall|i: int| 0 <= i < after.len() implies (#[trigger] after[i]).0@.well_shaped() by {
            let k = after[i].0@;
            lemma_entry(after, i);
            assert(contents(after).dom().contains(k));
            if k != key {
                assert(contents(before).dom().contains(k));
                let j = index_of(before, k);
                assert(before[j].0@ == k);
            }
        }
    }
}

impl Clone for Interner {
    /// A catalog with the same entries.
    fn clone(&self) -> (interner: Interner)
        ensures
            interner@ == self@,
    {
        proof {
            use_type_invariant(self);
        }
        let mut metadata: MetaMap = Vec::new();
        let mut i: usize = 0;
        while i < self.metadata.len()
            invariant
                i <= self.metadata@.len(),
                metadata@.len() == i,
                forall|j: int|
                    0 <= j < i ==> (#[trigger] metadata@[j]).0@ == self.metadata@[j].0@
                        && metadata@[j].1@ == self.metadata@[j].1@,
            decreases self.metadata@.len() - i,
        {
            metadata.push((self.metadata[i].0.clone(), self.metadata[i].1.clone()));
            i = i + 1;
        }
        proof {
            assert forall|a: int, b: int| 0 <= a < b < metadata@.len() implies Key::precedes(
                #[trigger] metadata@[a].0.model(),
                #[trigger] metadata@[b].0.model(),
            ) by {
                assert(Key::precedes(self.metadata@[a].0.model(), self.metadata@[b].0.model()));
            }
            assert forall|k: QualifiedKey|
                has_key(metadata@, k) <==> has_key(
                    self.metadata@,
                    k,
                ) by {
                if has_key(metadata@, k) {
                    let j = index_of(metadata@, k);
                    assert(self.metadata@[j].0.model() == k);
                }
                if has_key(self.metadata@, k) {
                    let j = index_of(self.metadata@, k);
                    assert(metadata@[j].0.model() == k);
                }
            }
        }
        let interner = Interner { metadata };
        proof {
            assert forall|k: QualifiedKey| self@.contains_key(k) implies interner@[k] == self@[k] by {
                let j = index_of(self.metadata@, k);
                lemma_entry(self.metadata@, j);
                assert(interner.metadata@[j].0.model() == k);
                lemma_entry(interner.metadata@, j);
            }
            assert(interner@ =~= self@);
        }
        interner
    }
}

} // verus!
