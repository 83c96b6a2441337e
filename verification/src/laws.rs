//! What holds of registration, seeding and commits across several calls.
use vstd::prelude::*;
use crate::entry::Entry;
use crate::error::{Conflict, Failure};
use crate::interner::name_query;
use crate::key::QualifiedKey;
use crate::batch::{
    all_named, explained, lemma_batch_extend, lemma_conflict_explained, lemma_file_batch,
    lemma_file_batch_elsewhere, lemma_file_batch_value, lemma_members_extend,
    lemma_taken_module_conflicts, lemma_taken_then_conflict, lemma_twice_ordered,
    member_conflict_at, module_conflict_at, no_placeholders, proposes, proposes_key, scan_batch,
    Proposal, Scan,
};
use crate::namespace::{names_apart, Schema};

verus! {

/// How often `name` occurs in a list of names.
pub open spec fn occurrences(names: Seq<Seq<char>>, name: Seq<char>) -> nat
    decreases names.len(),
{
    if names.len() == 0 {
        0
    } else {
        occurrences(names.drop_last(), name) + if names.last() == name {
            1nat
        } else {
            0nat
        }
    }
}

/// A name that a list does not contain occurs in it zero times.
pub proof fn lemma_absent_occurs_never(names: Seq<Seq<char>>, name: Seq<char>)
    requires
        !names.contains(name),
    ensures
        occurrences(names, name) == 0,
    decreases names.len(),
{
    if names.len() > 0 {
        assert(names.last() == names[names.len() - 1]);
        assert forall|i: int| 0 <= i < names.drop_last().len() implies names.drop_last()[i]
            != name by {
            assert(names.drop_last()[i] == names[i]);
        }
        lemma_absent_occurs_never(names.drop_last(), name);
    }
}

/// A name query with all three parts is answered by whether the catalog
/// holds an entry under exactly that key; one with the module alone, by
/// whether the key of the module is reserved; one with module and identity,
/// by whether the key of the member is. A query without a module, or with a
/// field and no identity, is a usage error.
pub proof fn law_name_queries(
    catalog: Map<QualifiedKey, Entry>,
    module: Option<Seq<char>>,
    identity: Option<Seq<char>>,
    field: Option<Seq<char>>,
)
    ensures
        module is Some && identity is Some && field is Some ==> name_query(
            catalog,
            module,
            identity,
            field,
        ) == Ok::<bool, Failure>(!catalog.contains_key(QualifiedKey { module, identity, field })),
        module is Some && identity is None && field is None ==> name_query(
            catalog,
            module,
            identity,
            field,
        ) == Ok::<bool, Failure>(!catalog.contains_key(QualifiedKey::of_module(module->0))),
        module is Some && identity is Some && field is None ==> name_query(
            catalog,
            module,
            identity,
            field,
        ) == Ok::<bool, Failure>(
            !catalog.contains_key(QualifiedKey::of_member(module->0, identity->0)),
        ),
        module is None || (identity is None && field is Some) ==> name_query(
            catalog,
            module,
            identity,
            field,
        ) == Err::<bool, Failure>(Failure::UsageError),
{
}

/// Whoever registers a module under a name a second time is refused with a
/// collision on that name, whatever came of the first attempt, and the
/// namespace stays as the first attempt left it.
pub proof fn law_second_registration_collides(schema: Schema, name: Seq<char>)
    ensures
        ({
            let after = match schema.register_outcome(name) {
                Ok(next) => next,
                Err(_) => schema,
            };
            after.register_outcome(name) == Err::<Schema, Failure>(
                Failure::Collision(Conflict::Module(name)),
            )
        }),
{
    if schema.can_register(name) {
        let next = schema.register(name);
        assert(next.modules[schema.modules.len() as int] == name);
    }
}

/// After a module was registered under a name, exactly one registered
/// module has that name; so it is after a refused attempt where exactly one
/// had it before.
pub proof fn law_one_module_per_name(schema: Schema, name: Seq<char>)
    requires
        schema.can_register(name) || occurrences(schema.modules, name) == 1,
    ensures
        ({
            let after = match schema.register_outcome(name) {
                Ok(next) => next,
                Err(_) => schema,
            };
            occurrences(after.modules, name) == 1
        }),
{
    if schema.can_register(name) {
        lemma_absent_occurs_never(schema.modules, name);
        assert(schema.modules.push(name).drop_last() =~= schema.modules);
    }
}

/// A batch that proposes the same name twice for one module is refused.
/// Wherever the key of the module is free, so that the definitions of the
/// module are looked at, the name is among the conflicts handed back;
/// wherever it is taken, the module is.
pub proof fn law_twice_in_one_batch(
    schema: Schema,
    batch: Seq<Proposal>,
    i: int,
    j: int,
    i2: int,
    j2: int,
    module: Seq<char>,
    identity: Seq<char>,
)
    requires
        proposes(batch, i, j, module, identity),
        proposes(batch, i2, j2, module, identity),
        i != i2 || j != j2,
    ensures
        schema.commit_outcome(batch) == Err::<Schema, Seq<Conflict>>(schema.conflicts(batch)),
        schema.conflicts(batch).contains(
            if schema.catalog.contains_key(QualifiedKey::of_module(module)) {
                Conflict::Module(module)
            } else {
                Conflict::Member(module, identity)
            },
        ),
{
    let start = Scan { taken: schema.catalog.dom(), conflicts: Seq::empty() };
    if schema.catalog.contains_key(QualifiedKey::of_module(module)) {
        lemma_taken_module_conflicts(start, batch, i);
    } else if i < i2 || (i == i2 && j < j2) {
        lemma_twice_ordered(start, batch, i, j, i2, j2, module, identity);
    } else {
        lemma_twice_ordered(start, batch, i2, j2, i, j, module, identity);
    }
}

/// A committed batch has filed each of its definitions under the key of
/// its module and name: a batch that commits proposes no name twice for one
/// module, and none for a module whose key is taken.
pub proof fn law_commit_files_each_definition(
    schema: Schema,
    batch: Seq<Proposal>,
    i: int,
    j: int,
    module: Seq<char>,
    identity: Seq<char>,
)
    requires
        all_named(batch),
        schema.commit_outcome(batch) is Ok,
        proposes(batch, i, j, module, identity),
    ensures
        !schema.catalog.contains_key(QualifiedKey::of_module(module)),
        ({
            let after = schema.commit_outcome(batch)->Ok_0;
            &&& after.catalog.contains_key(QualifiedKey::of_member(module, identity))
            &&& after.catalog[QualifiedKey::of_member(module, identity)] == batch[i].definitions[j]
            &&& !after.catalog.contains_key(QualifiedKey::of_module(module))
        }),
{
    let start = Scan { taken: schema.catalog.dom(), conflicts: Seq::empty() };
    if schema.catalog.contains_key(QualifiedKey::of_module(module)) {
        lemma_taken_module_conflicts(start, batch, i);
    }
    assert forall|i2: int, j2: int|
        proposes(batch, i2, j2, module, identity) && (i < i2 || (i == i2 && j < j2))
            implies false by {
        law_twice_in_one_batch(schema, batch, i, j, i2, j2, module, identity);
    }
    lemma_file_batch_value(schema.catalog, batch, i, j, module, identity);
    lemma_file_batch(schema.catalog, batch);
    assert(batch[i].definitions[j].name()->0 == identity);
}

/// A committed batch has left no placeholder behind: where no definition
/// of the batch is a placeholder, none of its keys holds one after the
/// commit.
pub proof fn law_commit_leaves_no_placeholder(
    schema: Schema,
    batch: Seq<Proposal>,
    i: int,
    j: int,
    module: Seq<char>,
    identity: Seq<char>,
)
    requires
        all_named(batch),
        no_placeholders(batch),
        schema.commit_outcome(batch) is Ok,
        proposes(batch, i, j, module, identity),
    ensures
        !(schema.commit_outcome(batch)->Ok_0.catalog[QualifiedKey::of_member(module, identity)]
            is Placeholder),
{
    law_commit_files_each_definition(schema, batch, i, j, module, identity);
    assert(!(batch[i].definitions[j] is Placeholder));
}

/// A committed batch has changed nothing else: under a key that is the key
/// of none of its definitions the catalog holds what it held before.
pub proof fn law_commit_changes_nothing_else(
    schema: Schema,
    batch: Seq<Proposal>,
    key: QualifiedKey,
)
    requires
        schema.commit_outcome(batch) is Ok,
        forall|i: int, j: int| !#[trigger] proposes_key(batch, i, j, key),
    ensures
        ({
            let after = schema.commit_outcome(batch)->Ok_0;
            &&& after.modules == schema.modules
            &&& after.catalog.contains_key(key) == schema.catalog.contains_key(key)
            &&& schema.catalog.contains_key(key) ==> after.catalog[key] == schema.catalog[key]
        }),
{
    lemma_file_batch_elsewhere(schema.catalog, batch, key);
}

/// A batch that proposes a name again that a committed batch proposed for
/// the same module is refused, with the name among the conflicts handed
/// back, and the catalog goes on holding the one entry that the committed
/// batch filed under the name.
pub proof fn law_again_in_later_batch(
    schema: Schema,
    first: Seq<Proposal>,
    second: Seq<Proposal>,
    i: int,
    j: int,
    i2: int,
    j2: int,
    module: Seq<char>,
    identity: Seq<char>,
)
    requires
        all_named(first),
        schema.commit_outcome(first) is Ok,
        proposes(first, i, j, module, identity),
        proposes(second, i2, j2, module, identity),
    ensures
        ({
            let after = schema.commit_outcome(first)->Ok_0;
            let key = QualifiedKey::of_member(module, identity);
            &&& after.catalog.contains_key(key)
            &&& after.catalog[key] == first[i].definitions[j]
            &&& after.conflicts(second).contains(Conflict::Member(module, identity))
            &&& after.commit_outcome(second) == Err::<Schema, Seq<Conflict>>(
                after.conflicts(second),
            )
        }),
{
    let after = schema.commit(first);
    law_commit_files_each_definition(schema, first, i, j, module, identity);
    let start = Scan { taken: after.catalog.dom(), conflicts: Seq::empty() };
    lemma_batch_extend(start, second.take(i2));
    lemma_members_extend(
        scan_batch(start, second.take(i2)),
        second[i2].module,
        second[i2].definitions.take(j2),
    );
    lemma_taken_then_conflict(start, second, i2, j2, module, identity);
}

/// The conflicts of a batch are those that have a reason, all of them and
/// no others: a conflict names a module that the batch proposes
/// definitions for and whose key is taken in the catalog, or a definition
/// whose module key is free and whose own key is taken in the catalog or is
/// the key of a definition that comes before it in the batch.
pub proof fn law_conflicts_have_reasons(schema: Schema, batch: Seq<Proposal>, conflict: Conflict)
    requires
        all_named(batch),
    ensures
        schema.conflicts(batch).contains(conflict) <==> explained(
            schema.catalog.dom(),
            batch,
            conflict,
        ),
{
    let start = Scan { taken: schema.catalog.dom(), conflicts: Seq::empty() };
    if schema.conflicts(batch).contains(conflict) {
        lemma_conflict_explained(start, batch, conflict);
    }
    if exists|i: int| #[trigger] module_conflict_at(start.taken, batch, i, conflict) {
        let i = choose|i: int| #[trigger] module_conflict_at(start.taken, batch, i, conflict);
        lemma_taken_module_conflicts(start, batch, i);
    }
    if exists|i: int, j: int| #[trigger] member_conflict_at(start.taken, batch, i, j, conflict) {
        let (i, j) = choose|i: int, j: int| #[trigger]
            member_conflict_at(start.taken, batch, i, j, conflict);
        let module = batch[i].module;
        assert(batch[i].definitions[j].name() is Some);
        let identity = batch[i].definitions[j].name()->0;
        let key = QualifiedKey::of_member(module, identity);
        if start.taken.contains(key) {
            lemma_batch_extend(start, batch.take(i));
            lemma_members_extend(
                scan_batch(start, batch.take(i)),
                module,
                batch[i].definitions.take(j),
            );
            lemma_taken_then_conflict(start, batch, i, j, module, identity);
        } else {
            let (i2, j2) = choose|i2: int, j2: int|
                #[trigger] proposes_key(batch, i2, j2, key) && (i2 < i || (i2 == i && j2 < j));
            assert(batch[i2].definitions[j2].name() is Some);
            lemma_twice_ordered(start, batch, i2, j2, i, j, module, identity);
        }
    }
}

/// A batch that proposes definitions for a module that was registered is
/// refused with a collision on the module: registration has taken the key
/// of the module.
pub proof fn law_commit_after_registration(
    schema: Schema,
    name: Seq<char>,
    batch: Seq<Proposal>,
    i: int,
)
    requires
        schema.register_outcome(name) is Ok,
        0 <= i < batch.len(),
        batch[i].module == name,
    ensures
        ({
            let after = schema.register_outcome(name)->Ok_0;
            &&& after.conflicts(batch).contains(Conflict::Module(name))
            &&& after.commit_outcome(batch) == Err::<Schema, Seq<Conflict>>(after.conflicts(batch))
        }),
{
    let after = schema.register(name);
    let start = Scan { taken: after.catalog.dom(), conflicts: Seq::empty() };
    lemma_taken_module_conflicts(start, batch, i);
}

/// Registration keeps the names of the registered modules apart: where no
/// two registered modules have the same name, none have after an attempt
/// to register one more.
pub proof fn law_registration_keeps_names_apart(schema: Schema, name: Seq<char>)
    requires
        names_apart(schema.modules),
    ensures
        ({
            let after = match schema.register_outcome(name) {
                Ok(next) => next,
                Err(_) => schema,
            };
            names_apart(after.modules)
        }),
{
}

/// Seeding a namespace that was seeded before is refused with a collision
/// on the module `std`.
pub proof fn law_seeding_twice_collides(schema: Schema)
    requires
        schema.seed_outcome() is Ok,
    ensures
        schema.seed_outcome()->Ok_0.seed_outcome() == Err::<Schema, Failure>(
            Failure::Collision(Conflict::Module("std"@)),
        ),
{
    let seeded = schema.seed();
    assert(seeded.modules[schema.modules.len() as int] == "std"@);
}

} // verus!
