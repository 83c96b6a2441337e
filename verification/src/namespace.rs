//! The namespace: the catalog together with the registered modules, and the
//! operations that register modules and commit batches of definitions.
use vstd::prelude::*;
use crate::batch::{
    all_named, batch_view, conflict_views, file_batch, file_members, no_placeholders,
    proposal_view, scan_batch,
    scan_members, Proposal, Scan,
};
use crate::entry::{Entry, FunkData};
use crate::error::{Collision, Conflict, Failure, FunkError};
use crate::interner::{is_query, name_query, query_key, Interner};
use crate::key::{name_view, Key, QualifiedKey};
use crate::module::Module;
use crate::primitive::{all_kinds, funkstd, lemma_kinds_enumerated, lemma_names_distinct, KIND_COUNT};
use crate::text::text_same;

verus! {

/// A namespace as a mathematical value.
pub struct Schema {
    /// What is filed under each key.
    pub catalog: Map<QualifiedKey, Entry>,
    /// The names of the registered modules, in the order of registration.
    pub modules: Seq<Seq<char>>,
}

impl Schema {
    /// Whether a module can be registered under `name`: no registered module
    /// has the name and the key of the module is free.
    pub open spec fn can_register(self, name: Seq<char>) -> bool {
        !self.modules.contains(name) && !self.catalog.contains_key(QualifiedKey::of_module(name))
    }

    /// The namespace after a module was registered under `name`.
    pub open spec fn register(self, name: Seq<char>) -> Schema {
        Schema {
            catalog: self.catalog.insert(QualifiedKey::of_module(name), Entry::Placeholder),
            modules: self.modules.push(name),
        }
    }

    /// The namespace with `entry` filed under `key`.
    pub open spec fn file(self, key: QualifiedKey, entry: Entry) -> Schema {
        Schema { catalog: self.catalog.insert(key, entry), ..self }
    }

    /// What filing `entry` under `key` comes to: the namespace with the
    /// entry, or the collision on the key where the key is taken.
    pub open spec fn file_outcome(self, key: QualifiedKey, entry: Entry) -> Result<Schema, Failure> {
        if self.catalog.contains_key(key) {
            Err(Failure::Collision(conflict_of(key)))
        } else {
            Ok(self.file(key, entry))
        }
    }

    /// What registering a module under `name` comes to: the namespace with
    /// the module, or a collision on the module's name.
    pub open spec fn register_outcome(self, name: Seq<char>) -> Result<Schema, Failure> {
        if self.can_register(name) {
            Ok(self.register(name))
        } else {
            Err(Failure::Collision(Conflict::Module(name)))
        }
    }

    /// What committing a batch comes to: the namespace with every
    /// definition of the batch, or the conflicts of the batch.
    pub open spec fn commit_outcome(self, batch: Seq<Proposal>) -> Result<Schema, Seq<Conflict>> {
        if self.conflicts(batch).len() == 0 {
            Ok(self.commit(batch))
        } else {
            Err(self.conflicts(batch))
        }
    }

    /// The position, in the enumeration of the scalar kinds, of the first
    /// kind whose key in the module `std` is taken; the number of kinds if
    /// none is.
    pub open spec fn first_taken_kind(self, upto: int) -> int
        decreases upto,
    {
        if upto <= 0 {
            0
        } else {
            let before = self.first_taken_kind(upto - 1);
            if before < upto - 1 {
                before
            } else if self.catalog.contains_key(std_key(all_kinds()[upto - 1])) {
                upto - 1
            } else {
                upto
            }
        }
    }

    /// The namespace after the module `std` was registered and every scalar
    /// kind was filed in it under its name.
    pub open spec fn seed(self) -> Schema {
        Schema {
            catalog: Map::new(
                |k: QualifiedKey|
                    self.catalog.contains_key(k) || k == QualifiedKey::of_module("std"@)
                        || is_std_key(k),
                |k: QualifiedKey|
                    if is_std_key(k) {
                        Entry::Primitive(kind_of_key(k))
                    } else if k == QualifiedKey::of_module("std"@) {
                        Entry::Placeholder
                    } else {
                        self.catalog[k]
                    },
            ),
            modules: self.modules.push("std"@),
        }
    }

    /// What seeding the namespace comes to: the namespace with the module
    /// `std` and the scalar kinds, or a collision: on the module `std` if it
    /// cannot be registered, else on the first kind whose key is taken.
    pub open spec fn seed_outcome(self) -> Result<Schema, Failure> {
        if !self.can_register("std"@) {
            Err(Failure::Collision(Conflict::Module("std"@)))
        } else if self.first_taken_kind(KIND_COUNT as int) < KIND_COUNT {
            Err(
                Failure::Collision(
                    Conflict::Member(
                        "std"@,
                        all_kinds()[self.first_taken_kind(KIND_COUNT as int)].name(),
                    ),
                ),
            )
        } else {
            Ok(self.seed())
        }
    }

    /// The naming conflicts of a batch, in the order in which the batch
    /// gives its pairs and definitions.
    pub open spec fn conflicts(self, batch: Seq<Proposal>) -> Seq<Conflict> {
        scan_batch(Scan { taken: self.catalog.dom(), conflicts: Seq::empty() }, batch).conflicts
    }

    /// The namespace after the batch was applied.
    pub open spec fn commit(self, batch: Seq<Proposal>) -> Schema {
        Schema { catalog: file_batch(self.catalog, batch), ..self }
    }
}

/// The key of a scalar kind in the module `std`.
pub open spec fn std_key(kind: funkstd) -> QualifiedKey {
    QualifiedKey::of_member("std"@, kind.name())
}

/// Whether a key is the key of a scalar kind in the module `std`.
pub open spec fn is_std_key(key: QualifiedKey) -> bool {
    exists|kind: funkstd| key == #[trigger] std_key(kind)
}

/// The scalar kind of which `key` is the key in the module `std`.
pub open spec fn kind_of_key(key: QualifiedKey) -> funkstd {
    choose|kind: funkstd| key == #[trigger] std_key(kind)
}

/// Whether a key is the key of a member of a module: module and identity
/// are present, and no field.
pub open spec fn is_member_key(key: QualifiedKey) -> bool {
    key.module is Some && key.identity is Some && key.field is None
}

/// The collision on a key that is taken: on the member where the key has
/// an identity, on the module where it has none.
pub open spec fn conflict_of(key: QualifiedKey) -> Conflict {
    match key.identity {
        Some(identity) => Conflict::Member(key.module->0, identity),
        None => Conflict::Module(key.module->0),
    }
}

/// What an optional key stands for.
pub open spec fn key_view(key: Option<Key>) -> Option<QualifiedKey> {
    match key {
        Some(key) => Some(key@),
        None => None,
    }
}

/// The key under which an entry is filed when it is committed by itself: a
/// scalar kind under its name in the module `std`, a custom definition under
/// the key that comes with it.
pub open spec fn filing_key(funkey: Option<QualifiedKey>, entry: Entry) -> QualifiedKey {
    match entry {
        Entry::Primitive(kind) => std_key(kind),
        _ => funkey->0,
    }
}

/// Whether no name occurs twice in a list of names.
pub open spec fn names_apart(names: Seq<Seq<char>>) -> bool {
    forall|i: int, j: int| 0 <= i < j < names.len() ==> names[i] != names[j]
}

/// The names of a list of modules.
pub open spec fn module_names(modules: Seq<Module>) -> Seq<Seq<char>> {
    modules.map_values(|module: Module| module.name_view())
}

impl Schema {
    /// The first kind whose key is taken stays the first when more kinds
    /// are looked at.
    proof fn lemma_first_taken(self, n: int, upto: int)
        requires
            0 <= n < upto,
            self.first_taken_kind(n) == n,
            self.catalog.contains_key(std_key(all_kinds()[n])),
        ensures
            self.first_taken_kind(upto) == n,
        decreases upto - n,
    {
        if upto > n + 1 {
            self.lemma_first_taken(n, upto - 1);
        }
    }

    /// Where no key of a scalar kind is taken, none of the keys is in the
    /// catalog.
    proof fn lemma_none_taken(self, n: int)
        requires
            0 <= n < KIND_COUNT,
            self.first_taken_kind(KIND_COUNT as int) == KIND_COUNT,
        ensures
            !self.catalog.contains_key(std_key(all_kinds()[n])),
    {
        self.lemma_taken_bounds(KIND_COUNT as int);
        if self.catalog.contains_key(std_key(all_kinds()[n])) {
            self.lemma_free_before(KIND_COUNT as int, n);
        }
    }

    /// The first taken kind among the first `upto` is at most `upto`.
    proof fn lemma_taken_bounds(self, upto: int)
        requires
            0 <= upto,
        ensures
            0 <= self.first_taken_kind(upto) <= upto,
        decreases upto,
    {
        if upto > 0 {
            self.lemma_taken_bounds(upto - 1);
        }
    }

    /// No kind before the first taken one has its key in the catalog.
    proof fn lemma_free_before(self, upto: int, n: int)
        requires
            0 <= n < upto,
            n < self.first_taken_kind(upto),
        ensures
            !self.catalog.contains_key(std_key(all_kinds()[n])),
        decreases upto,
    {
        self.lemma_taken_bounds(upto - 1);
        if n < upto - 1 {
            self.lemma_free_before(upto - 1, n);
        }
    }
}

/// The collision on a key that is taken.
fn collision_of(key: &Key) -> (collision: Collision)
    requires
        key@.module is Some,
    ensures
        collision@ == conflict_of(key@),
{
    match (&key.module, &key.identity) {
        (Some(module), Some(identity)) => Collision::of_member(module.as_str(), identity.as_str()),
        (Some(module), None) => Collision::of_module(module.as_str()),
        (None, _) => Collision::of_module(""),
    }
}

/// The catalog and the registered modules. No two registered modules have
/// the same name.
#[derive(Debug)]
pub struct Namespace {
    interner: Interner,
    modules: Vec<Module>,
}

impl View for Namespace {
    type V = Schema;

    closed spec fn view(&self) -> Schema {
        Schema {
            catalog: self.interner@,
            modules: module_names(self.modules@),
        }
    }
}

impl Namespace {
    #[verifier::type_invariant]
    spec fn names_kept_apart(self) -> bool {
        names_apart(module_names(self.modules@))
    }

    /// The registered modules, in the order of registration.
    pub closed spec fn registered(&self) -> Seq<Module> {
        self.modules@
    }

    /// The registered modules are the ones whose names the namespace lists.
    pub proof fn lemma_registered(&self)
        ensures
            self@.modules == module_names(self.registered()),
    {
    }

    /// Whether no two modules of a list have the same name.
    pub fn distinct_names(modules: &Vec<Module>) -> (apart: bool)
        ensures
            apart == names_apart(module_names(modules@)),
    {
        let ghost names = module_names(modules@);
        let mut j: usize = 0;
        while j < modules.len()
            invariant
                j <= modules@.len(),
                names == module_names(modules@),
                forall|a: int, b: int| 0 <= a < b < j ==> names[a] != names[b],
            decreases modules@.len() - j,
        {
            let mut i: usize = 0;
            while i < j
                invariant
                    i <= j < modules@.len(),
                    names == module_names(modules@),
                    forall|a: int| 0 <= a < i ==> names[a] != names[j as int],
                decreases j - i,
            {
                if text_same(modules[i].get_name(), modules[j].get_name()) {
                    assert(names[i as int] == names[j as int]);
                    return false;
                }
                i = i + 1;
            }
            j = j + 1;
        }
        true
    }

    /// A builder of namespaces.
    pub fn builder() -> (builder: NamespaceBuilder<(), ()>)
        ensures
            builder.fields == ((), ()),
    {
        NamespaceBuilder { fields: ((), ()) }
    }

    /// The catalog of the namespace.
    pub fn interner(&self) -> (interner: &Interner)
        ensures
            interner@ == self@.catalog,
    {
        &self.interner
    }

    /// How many modules are registered.
    pub fn module_count(&self) -> (n: usize)
        ensures
            n == self@.modules.len(),
            names_apart(self@.modules),
    {
        proof {
            use_type_invariant(self);
        }
        self.modules.len()
    }

    /// The registered module at a position in the order of registration.
    pub fn module_at(&self, i: usize) -> (module: &Module)
        requires
            i < self@.modules.len(),
        ensures
            *module == self.registered()[i as int],
            module.name_view() == self@.modules[i as int],
    {
        &self.modules[i]
    }

    /// Whether a module is registered under `name`.
    pub fn has_module(&self, name: &str) -> (found: bool)
        ensures
            found == self@.modules.contains(name@),
    {
        let mut i: usize = 0;
        while i < self.modules.len()
            invariant
                i <= self.modules@.len(),
                forall|j: int| 0 <= j < i ==> self@.modules[j] != name@,
            decreases self.modules@.len() - i,
        {
            if text_same(self.modules[i].get_name(), name) {
                assert(self@.modules[i as int] == name@);
                return true;
            }
            i = i + 1;
        }
        false
    }

    /// Whether nothing is filed under the key that the three parts make.
    /// The parts have to come in one of the three accepted shapes.
    pub fn is_name_available(
        &self,
        module_name: Option<&str>,
        identity: Option<&str>,
        field: Option<&str>,
    ) -> (available: bool)
        requires
            is_query(name_view(module_name), name_view(identity), name_view(field)),
        ensures
            available == !self@.catalog.contains_key(
                query_key(name_view(module_name), name_view(identity), name_view(field)),
            ),
    {
        self.interner.is_name_available(module_name, identity, field)
    }

    /// Whether nothing is filed under the key that the three parts make, or
    /// a usage error where the parts come in no accepted shape.
    pub fn check_name_available(
        &self,
        module_name: Option<&str>,
        identity: Option<&str>,
        field: Option<&str>,
    ) -> (r: Result<bool, FunkError>)
        ensures
            match name_query(
                self@.catalog,
                name_view(module_name),
                name_view(identity),
                name_view(field),
            ) {
                Ok(free) => r is Ok && r->Ok_0 == free,
                Err(why) => r is Err && r->Err_0@ == why,
            },
    {
        self.interner.check_name_available(module_name, identity, field)
    }

    /// Files `entry` under `key` if the key is free; a collision on the key,
    /// and no change, if it is taken.
    fn file_new(&mut self, key: Key, entry: FunkData) -> (r: Result<(), FunkError>)
        requires
            key@.well_shaped(),
            key@.module is Some,
        ensures
            match old(self)@.file_outcome(key@, entry@) {
                Ok(next) => r is Ok && final(self)@ == next,
                Err(why) => r is Err && r->Err_0@ == why && final(self)@ == old(self)@,
            },
            final(self).registered() == old(self).registered(),
    {
        proof {
            use_type_invariant(&*self);
        }
        let mut interner = Interner::new();
        std::mem::swap(&mut interner, &mut self.interner);
        let refused = interner.insert_new(key, entry);
        self.interner = interner;
        match refused {
            None => Ok(()),
            Some(pair) => Err(FunkError::Collision(collision_of(&pair.0))),
        }
    }

    /// Reserves the key of `module` with a placeholder; a collision on the
    /// module, and no change, if the key is taken.
    pub fn commit_module(&mut self, module: &Module) -> (r: Result<(), FunkError>)
        ensures
            match old(self)@.file_outcome(
                QualifiedKey::of_module(module.name_view()),
                Entry::Placeholder,
            ) {
                Ok(next) => r is Ok && final(self)@ == next,
                Err(why) => r is Err && r->Err_0@ == why && final(self)@ == old(self)@,
            },
            final(self).registered() == old(self).registered(),
    {
        self.file_new(Key::of_module(module.get_name()), FunkData::nil)
    }

    /// Reserves the key of the member `identity` of the module
    /// `module_name` with `entry`; a collision on the member, and no change,
    /// if the key is taken.
    pub fn commit_member_level(&mut self, module_name: &str, identity: &str, entry: FunkData) -> (r:
        Result<(), FunkError>)
        ensures
            match old(self)@.file_outcome(
                QualifiedKey::of_member(module_name@, identity@),
                entry@,
            ) {
                Ok(next) => r is Ok && final(self)@ == next,
                Err(why) => r is Err && r->Err_0@ == why && final(self)@ == old(self)@,
            },
            final(self).registered() == old(self).registered(),
    {
        self.file_new(Key::of_member(module_name, identity), entry)
    }

    /// Files an entry by itself: a scalar kind under its name in the module
    /// `std`, a custom definition under the key that comes with it, which
    /// has to be the key of a member. A collision on the key, and no change,
    /// if the key is taken. A placeholder cannot be filed this way.
    pub fn commit_member(&mut self, funkey: Option<Key>, entry: FunkData) -> (r: Result<
        (),
        FunkError,
    >)
        requires
            !(entry@ is Placeholder),
            entry@ is Custom ==> funkey is Some && is_member_key(funkey->0@),
        ensures
            match old(self)@.file_outcome(filing_key(key_view(funkey), entry@), entry@) {
                Ok(next) => r is Ok && final(self)@ == next,
                Err(why) => r is Err && r->Err_0@ == why && final(self)@ == old(self)@,
            },
            final(self).registered() == old(self).registered(),
    {
        let key = match (&entry, funkey) {
            (FunkData::primitive(kind), _) => Key::of_member("std", kind.get_name().unwrap()),
            (_, Some(given)) => given,
            (_, None) => Key::of_module(""),
        };
        self.file_new(key, entry)
    }

    /// Finds the naming conflicts of a batch and changes nothing. A key is
    /// taken if the catalog holds it or a definition met earlier in the batch
    /// has reserved it. Every definition has to have a name, and none may be
    /// a placeholder.
    pub fn find_conflicts(&self, commits: &Vec<(Module, Vec<FunkData>)>) -> (errors: Vec<Collision>)
        requires
            all_named(batch_view(commits@)),
            no_placeholders(batch_view(commits@)),
        ensures
            conflict_views(errors@) == self@.conflicts(batch_view(commits@)),
    {
        let ghost batch = batch_view(commits@);
        let ghost start = Scan { taken: self@.catalog.dom(), conflicts: Seq::empty() };
        let mut errors: Vec<Collision> = Vec::new();
        let mut reserved = Interner::new();
        let mut i: usize = 0;
        assert(batch.take(0) =~= Seq::<Proposal>::empty());
        assert(conflict_views(errors@) =~= Seq::<Conflict>::empty());
        assert(start.taken =~= self@.catalog.dom().union(reserved@.dom()));
        while i < commits.len()
            invariant
                i <= commits@.len(),
                batch == batch_view(commits@),
                all_named(batch),
                start == (Scan { taken: self@.catalog.dom(), conflicts: Seq::empty() }),
                scan_batch(start, batch.take(i as int)).taken == self@.catalog.dom().union(
                    reserved@.dom(),
                ),
                scan_batch(start, batch.take(i as int)).conflicts == conflict_views(errors@),
                forall|k: QualifiedKey| reserved@.contains_key(k) ==> k.identity is Some,
            decreases commits@.len() - i,
        {
            let ghost before = scan_batch(start, batch.take(i as int));
            let module_name = commits[i].0.get_name();
            let submissions = &commits[i].1;
            proof {
                assert(batch.take(i + 1).drop_last() =~= batch.take(i as int));
                assert(batch.take(i + 1).last() == batch[i as int]);
                assert(batch[i as int] == proposal_view(commits@[i as int]));
            }
            let ghost pair = batch[i as int];
            if !self.is_name_available(Some(module_name), None, None) {
                errors.push(Collision::of_module(module_name));
                proof {
                    assert(conflict_views(errors@) =~= before.conflicts.push(
                        Conflict::Module(pair.module),
                    ));
                }
            } else {
                let mut j: usize = 0;
                assert(pair.definitions.take(0) =~= Seq::<Entry>::empty());
                while j < submissions.len()
                    invariant
                        j <= submissions@.len(),
                        i < commits@.len(),
                        batch == batch_view(commits@),
                        all_named(batch),
                        pair == batch[i as int],
                        pair.module == module_name@,
                        pair.definitions == submissions@.map_values(|d: FunkData| d@),
                        scan_members(before, pair.module, pair.definitions.take(j as int)).taken
                            == self@.catalog.dom().union(reserved@.dom()),
                        scan_members(before, pair.module, pair.definitions.take(j as int)).conflicts
                            == conflict_views(errors@),
                        forall|k: QualifiedKey| reserved@.contains_key(k) ==> k.identity is Some,
                    decreases submissions@.len() - j,
                {
                    let ghost sofar = scan_members(
                        before,
                        pair.module,
                        pair.definitions.take(j as int),
                    );
                    proof {
                        assert(pair.definitions.take(j + 1).drop_last() =~= pair.definitions.take(
                            j as int,
                        ));
                        assert(pair.definitions.take(j + 1).last() == pair.definitions[j as int]);
                        assert(batch[i as int].definitions[j as int].name() is Some);
                    }
                    let identity = submissions[j].get_name().unwrap();
                    if !self.is_name_available(Some(module_name), Some(identity), None)
                        || !reserved.is_name_available(Some(module_name), Some(identity), None) {
                        errors.push(Collision::of_member(module_name, identity));
                        proof {
                            assert(conflict_views(errors@) =~= sofar.conflicts.push(
                                Conflict::Member(pair.module, identity@),
                            ));
                        }
                    } else {
                        let ghost held = reserved@.dom();
                        let r = reserved.insert_member(module_name, identity, FunkData::nil);
                        proof {
                            assert(self@.catalog.dom().union(reserved@.dom()) =~= sofar.taken.insert(
                                QualifiedKey::of_member(pair.module, identity@),
                            ));
                        }
                    }
                    j = j + 1;
                }
                assert(pair.definitions.take(j as int) =~= pair.definitions);
            }
            i = i + 1;
        }
        assert(batch.take(i as int) =~= batch);
        errors
    }

    /// Files every definition of a batch under its module and its name.
    fn file_all(&mut self, commits: &Vec<(Module, Vec<FunkData>)>)
        requires
            all_named(batch_view(commits@)),
        ensures
            final(self)@ == old(self)@.commit(batch_view(commits@)),
            final(self).registered() == old(self).registered(),
    {
        proof {
            use_type_invariant(&*self);
        }
        let ghost batch = batch_view(commits@);
        let ghost catalog = self@.catalog;
        let mut interner = Interner::new();
        std::mem::swap(&mut interner, &mut self.interner);
        let mut i: usize = 0;
        assert(batch.take(0) =~= Seq::<Proposal>::empty());
        while i < commits.len()
            invariant
                i <= commits@.len(),
                batch == batch_view(commits@),
                all_named(batch),
                interner@ == file_batch(catalog, batch.take(i as int)),
            decreases commits@.len() - i,
        {
            let ghost before = interner@;
            let module_name = commits[i].0.get_name();
            let submissions = &commits[i].1;
            proof {
                assert(batch.take(i + 1).drop_last() =~= batch.take(i as int));
                assert(batch.take(i + 1).last() == batch[i as int]);
                assert(batch[i as int] == proposal_view(commits@[i as int]));
            }
            let ghost pair = batch[i as int];
            let mut j: usize = 0;
            assert(pair.definitions.take(0) =~= Seq::<Entry>::empty());
            while j < submissions.len()
                invariant
                    j <= submissions@.len(),
                    i < commits@.len(),
                    batch == batch_view(commits@),
                    all_named(batch),
                    pair == batch[i as int],
                    pair.module == module_name@,
                    pair.definitions == submissions@.map_values(|d: FunkData| d@),
                    interner@ == file_members(before, pair.module, pair.definitions.take(j as int)),
                decreases submissions@.len() - j,
            {
                proof {
                    assert(pair.definitions.take(j + 1).drop_last() =~= pair.definitions.take(
                        j as int,
                    ));
                    assert(pair.definitions.take(j + 1).last() == pair.definitions[j as int]);
                    assert(batch[i as int].definitions[j as int].name() is Some);
                }
                let identity = submissions[j].get_name().unwrap();
                interner.insert(Key::of_member(module_name, identity), submissions[j].clone());
                j = j + 1;
            }
            assert(pair.definitions.take(j as int) =~= pair.definitions);
            i = i + 1;
        }
        assert(batch.take(i as int) =~= batch);
        self.interner = interner;
    }

    /// Commits a batch of definitions, all of them or none. Every naming
    /// conflict of the batch is looked for first; if there is any, the
    /// namespace stays as it is and the conflicts are handed back in the
    /// order in which they were met. Otherwise every definition is filed
    /// under its module and its name. Every definition has to have a name,
    /// and none may be a placeholder: a commit files real entries only.
    pub fn try_commit(&mut self, commits: &Vec<(Module, Vec<FunkData>)>) -> (r: Result<
        (),
        Vec<Collision>,
    >)
        requires
            all_named(batch_view(commits@)),
            no_placeholders(batch_view(commits@)),
        ensures
            match old(self)@.commit_outcome(batch_view(commits@)) {
                Ok(next) => r is Ok && final(self)@ == next,
                Err(conflicts) => r is Err && conflict_views(r->Err_0@) == conflicts && final(self)@
                    == old(self)@,
            },
            final(self).registered() == old(self).registered(),
    {
        let errors = self.find_conflicts(commits);
        if errors.len() > 0 {
            return Err(errors);
        }
        self.file_all(commits);
        Ok(())
    }

    /// Seeds the namespace with the built-in kinds: registers the module
    /// `std` and files every scalar kind in it under its name, all of it
    /// or nothing. Refused with a collision on the module if `std` cannot
    /// be registered, else on the first kind whose key is taken.
    pub fn seed_primitives(&mut self) -> (r: Result<(), FunkError>)
        ensures
            match old(self)@.seed_outcome() {
                Ok(next) => r is Ok && final(self)@ == next && final(self).registered().drop_last()
                    == old(self).registered() && final(self).registered().last().member_list().len()
                    == 0,
                Err(why) => r is Err && r->Err_0@ == why && final(self)@ == old(self)@
                    && final(self).registered() == old(self).registered(),
            },
    {
        if self.has_module("std") || !self.is_name_available(Some("std"), None, None) {
            return Err(FunkError::Collision(Collision::of_module("std")));
        }
        let kinds = funkstd::iter().collect();
        let mut n: usize = 0;
        while n < kinds.len()
            invariant
                n <= kinds@.len(),
                kinds@ == all_kinds(),
                kinds@.len() == KIND_COUNT,
                self@.first_taken_kind(n as int) == n,
                self@.can_register("std"@),
                self@ == old(self)@,
                self.registered() == old(self).registered(),
            decreases kinds@.len() - n,
        {
            let name = kinds[n].get_name().unwrap();
            if !self.is_name_available(Some("std"), Some(name), None) {
                proof {
                    self@.lemma_first_taken(n as int, KIND_COUNT as int);
                }
                return Err(FunkError::Collision(Collision::of_member("std", name)));
            }
            n = n + 1;
        }
        let ghost start = self@;
        if let Err(refused) = self.register_module(Module::builder().module_name("std").build()) {
            return Err(refused);
        }
        let ghost base = self@.catalog;
        let ghost modules = self.registered();
        assert(modules.drop_last() =~= old(self).registered());
        n = 0;
        while n < kinds.len()
            invariant
                n <= kinds@.len(),
                kinds@ == all_kinds(),
                kinds@.len() == KIND_COUNT,
                start.first_taken_kind(KIND_COUNT as int) == KIND_COUNT,
                base == start.catalog.insert(QualifiedKey::of_module("std"@), Entry::Placeholder),
                self@.modules == start.modules.push("std"@),
                self.registered() == modules,
                self@.catalog.dom() =~= base.dom().union(
                    Set::new(
                        |k: QualifiedKey|
                            exists|m: int| 0 <= m < n && k == std_key(#[trigger] all_kinds()[m]),
                    ),
                ),
                forall|k: QualifiedKey| base.contains_key(k) ==> self@.catalog[k] == base[k],
                forall|m: int|
                    0 <= m < n ==> self@.catalog[std_key(#[trigger] all_kinds()[m])]
                        == Entry::Primitive(all_kinds()[m]),
            decreases kinds@.len() - n,
        {
            let ghost kind = all_kinds()[n as int];
            proof {
                start.lemma_none_taken(n as int);
                assert forall|m: int| 0 <= m < n implies std_key(all_kinds()[m]) != std_key(
                    kind,
                ) by {
                    lemma_names_distinct(all_kinds()[m], kind);
                    lemma_kinds_enumerated(kind);
                }
            }
            if let Err(refused) = self.commit_member(None, FunkData::primitive(kinds[n])) {
                return Err(refused);
            }
            n = n + 1;
        }
        proof {
            let seeded = start.seed().catalog;
            assert forall|k: QualifiedKey| seeded.contains_key(k) <==> self@.catalog.contains_key(
                k,
            ) by {
                if is_std_key(k) {
                    let kind = kind_of_key(k);
                    lemma_kinds_enumerated(kind);
                    assert(k == std_key(all_kinds()[kind.ordinal()]));
                }
            }
            assert forall|k: QualifiedKey| seeded.contains_key(k) implies seeded[k]
                == self@.catalog[k] by {
                if is_std_key(k) {
                    let kind = kind_of_key(k);
                    lemma_kinds_enumerated(kind);
                    assert(all_kinds()[kind.ordinal()] == kind);
                } else if k == QualifiedKey::of_module("std"@) {
                    assert(base[k] == Entry::Placeholder);
                } else {
                    assert(base[k] == start.catalog[k]);
                }
            }
            assert(self@.catalog =~= seeded);
        }
        Ok(())
    }

    /// Registers a module: adds it to the registered modules and reserves
    /// its key in the catalog, both or neither. Refused with a collision if
    /// a module of the same name is registered or the key is taken.
    pub fn register_module(&mut self, new_module: Module) -> (r: Result<(), FunkError>)
        ensures
            match old(self)@.register_outcome(new_module.name_view()) {
                Ok(next) => r is Ok && final(self)@ == next
                    && final(self).registered() == old(self).registered().push(new_module),
                Err(why) => r is Err && r->Err_0@ == why && final(self)@ == old(self)@
                    && final(self).registered() == old(self).registered(),
            },
    {
        if self.has_module(new_module.get_name()) {
            return Err(FunkError::Collision(Collision::of_module(new_module.get_name())));
        }
        if let Err(collision) = self.commit_module(&new_module) {
            return Err(collision);
        }
        proof {
            use_type_invariant(&*self);
        }
        let mut modules: Vec<Module> = Vec::new();
        std::mem::swap(&mut modules, &mut self.modules);
        modules.push(new_module);
        proof {
            let names = module_names(modules@);
            assert(names =~= old(self)@.modules.push(new_module.name_view()));
            assert forall|i: int, j: int| 0 <= i < j < names.len() implies names[i] != names[j] by {
                if j == names.len() - 1 {
                    assert(old(self)@.modules[i] == names[i]);
                } else {
                    assert(old(self)@.modules[i] == names[i] && old(self)@.modules[j] == names[j]);
                }
            }
        }
        self.modules = modules;
        Ok(())
    }
}

/// Collects the parts of a namespace; both have to be given, each once,
/// before the namespace can be built.
pub struct NamespaceBuilder<I, M> {
    pub fields: (I, M),
}

impl<M> NamespaceBuilder<(), M> {
    /// Gives the catalog.
    pub fn interner(self, interner: Interner) -> (builder: NamespaceBuilder<(Interner,), M>)
        ensures
            builder.fields == ((interner,), self.fields.1),
    {
        NamespaceBuilder { fields: ((interner,), self.fields.1) }
    }
}

impl<I> NamespaceBuilder<I, ()> {
    /// Gives the registered modules.
    pub fn modules(self, modules: Vec<Module>) -> (builder: NamespaceBuilder<I, (Vec<Module>,)>)
        ensures
            builder.fields == (self.fields.0, (modules,)),
    {
        NamespaceBuilder { fields: (self.fields.0, (modules,)) }
    }
}

impl NamespaceBuilder<(Interner,), (Vec<Module>,)> {
    /// The namespace with the given catalog and modules. No two of the
    /// modules may have the same name.
    pub fn build(self) -> (namespace: Namespace)
        requires
            names_apart(module_names(self.fields.1.0@)),
        ensures
            namespace@.catalog == self.fields.0.0@,
            namespace@.modules == module_names(self.fields.1.0@),
            namespace.registered() == self.fields.1.0@,
    {
        let (interner, modules) = self.fields;
        Namespace { interner: interner.0, modules: modules.0 }
    }
}

} // verus!
