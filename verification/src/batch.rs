//! Batches of proposed definitions as mathematical values: how a batch is
//! checked for naming conflicts and what the catalog holds once it is
//! applied.
use vstd::prelude::*;
use crate::entry::{Entry, FunkData};
use crate::error::{Collision, Conflict};
use crate::key::QualifiedKey;
use crate::module::Module;

verus! {

/// One pair of a batch as a mathematical value: the name of a module and
/// the definitions proposed for it.
pub struct Proposal {
    pub module: Seq<char>,
    pub definitions: Seq<Entry>,
}

/// What a pair of a batch stands for.
pub open spec fn proposal_view(pair: (Module, Vec<FunkData>)) -> Proposal {
    Proposal {
        module: pair.0.name_view(),
        definitions: pair.1@.map_values(|definition: FunkData| definition@),
    }
}

/// What a batch stands for.
pub open spec fn batch_view(commits: Seq<(Module, Vec<FunkData>)>) -> Seq<Proposal> {
    commits.map_values(|pair: (Module, Vec<FunkData>)| proposal_view(pair))
}

/// What a list of collisions stands for.
pub open spec fn conflict_views(collisions: Seq<Collision>) -> Seq<Conflict> {
    collisions.map_values(|collision: Collision| collision@)
}

/// Whether every definition of the batch has a name.
pub open spec fn all_named(batch: Seq<Proposal>) -> bool {
    forall|i: int, j: int|
        0 <= i < batch.len() && 0 <= j < batch[i].definitions.len() ==> (
        #[trigger] batch[i].definitions[j]).name() is Some
}

/// Whether no definition of the batch is a placeholder.
pub open spec fn no_placeholders(batch: Seq<Proposal>) -> bool {
    forall|i: int, j: int|
        0 <= i < batch.len() && 0 <= j < batch[i].definitions.len() ==> !((
        #[trigger] batch[i].definitions[j]) is Placeholder)
}

/// How far the check of a batch has come: the keys that are taken, in the
/// catalog or by a definition met earlier, and the conflicts found.
pub struct Scan {
    pub taken: Set<QualifiedKey>,
    pub conflicts: Seq<Conflict>,
}

/// The check of the definitions proposed for one module, one after the
/// other: a definition whose key is taken is a conflict, any other takes its
/// key.
pub open spec fn scan_members(start: Scan, module: Seq<char>, definitions: Seq<Entry>) -> Scan
    decreases definitions.len(),
{
    if definitions.len() == 0 {
        start
    } else {
        let before = scan_members(start, module, definitions.drop_last());
        let identity = definitions.last().name()->0;
        let key = QualifiedKey::of_member(module, identity);
        if before.taken.contains(key) {
            Scan { conflicts: before.conflicts.push(Conflict::Member(module, identity)), ..before }
        } else {
            Scan { taken: before.taken.insert(key), ..before }
        }
    }
}

/// The check of a batch, one pair after the other: a pair whose module key
/// is taken is a conflict and its definitions are passed over; the
/// definitions of any other pair are checked in turn.
pub open spec fn scan_batch(start: Scan, batch: Seq<Proposal>) -> Scan
    decreases batch.len(),
{
    if batch.len() == 0 {
        start
    } else {
        let before = scan_batch(start, batch.drop_last());
        let pair = batch.last();
        if before.taken.contains(QualifiedKey::of_module(pair.module)) {
            Scan { conflicts: before.conflicts.push(Conflict::Module(pair.module)), ..before }
        } else {
            scan_members(before, pair.module, pair.definitions)
        }
    }
}

/// The catalog with the definitions proposed for one module filed under
/// the module and their names.
pub open spec fn file_members(
    catalog: Map<QualifiedKey, Entry>,
    module: Seq<char>,
    definitions: Seq<Entry>,
) -> Map<QualifiedKey, Entry>
    decreases definitions.len(),
{
    if definitions.len() == 0 {
        catalog
    } else {
        file_members(catalog, module, definitions.drop_last()).insert(
            QualifiedKey::of_member(module, definitions.last().name()->0),
            definitions.last(),
        )
    }
}

/// The catalog with every definition of the batch filed under its module
/// and its name.
pub open spec fn file_batch(catalog: Map<QualifiedKey, Entry>, batch: Seq<Proposal>) -> Map<
    QualifiedKey,
    Entry,
>
    decreases batch.len(),
{
    if batch.len() == 0 {
        catalog
    } else {
        file_members(
            file_batch(catalog, batch.drop_last()),
            batch.last().module,
            batch.last().definitions,
        )
    }
}

/// Whether the batch proposes, as the definition `j` of its pair `i`, a
/// definition named `identity` for the module `module`.
pub open spec fn proposes(
    batch: Seq<Proposal>,
    i: int,
    j: int,
    module: Seq<char>,
    identity: Seq<char>,
) -> bool {
    &&& 0 <= i < batch.len()
    &&& 0 <= j < batch[i].definitions.len()
    &&& batch[i].module == module
    &&& batch[i].definitions[j].name() == Some(identity)
}

/// Whether a check that has come to `later` has gone on from `earlier`:
/// what was taken is still taken, what was found is still found, and only
/// keys of members were taken since.
pub open spec fn extends(later: Scan, earlier: Scan) -> bool {
    &&& forall|k: QualifiedKey| earlier.taken.contains(k) ==> later.taken.contains(k)
    &&& forall|c: Conflict| earlier.conflicts.contains(c) ==> later.conflicts.contains(c)
    &&& forall|k: QualifiedKey|
        later.taken.contains(k) && !earlier.taken.contains(k) ==> k.identity is Some
}

/// How far the check has come when it reaches the definition `j` of the
/// pair `i`, where the pair is not passed over.
pub open spec fn state_before(start: Scan, batch: Seq<Proposal>, i: int, j: int) -> Scan {
    scan_members(
        scan_batch(start, batch.take(i)),
        batch[i].module,
        batch[i].definitions.take(j),
    )
}

/// Whether the definition `j` of the pair `i` of the batch is to be filed
/// under `key`.
pub open spec fn proposes_key(batch: Seq<Proposal>, i: int, j: int, key: QualifiedKey) -> bool {
    &&& 0 <= i < batch.len()
    &&& 0 <= j < batch[i].definitions.len()
    &&& QualifiedKey::of_member(batch[i].module, batch[i].definitions[j].name()->0) == key
}

/// Whether a definition that comes before the definition `j` of the pair
/// `i` is to be filed under `key`.
pub open spec fn proposed_before(batch: Seq<Proposal>, i: int, j: int, key: QualifiedKey) -> bool {
    exists|i2: int, j2: int|
        #[trigger] proposes_key(batch, i2, j2, key) && (i2 < i || (i2 == i && j2 < j))
}

/// Whether `conflict` is the conflict of the pair `i`: the key of its
/// module was taken from the start.
pub open spec fn module_conflict_at(
    taken: Set<QualifiedKey>,
    batch: Seq<Proposal>,
    i: int,
    conflict: Conflict,
) -> bool {
    &&& 0 <= i < batch.len()
    &&& conflict == Conflict::Module(batch[i].module)
    &&& taken.contains(QualifiedKey::of_module(batch[i].module))
}

/// Whether `conflict` is the conflict of the definition `j` of the pair
/// `i`: the key of its module was free from the start, and its own key was
/// taken from the start or is the key of a definition that comes before it.
pub open spec fn member_conflict_at(
    taken: Set<QualifiedKey>,
    batch: Seq<Proposal>,
    i: int,
    j: int,
    conflict: Conflict,
) -> bool {
    &&& 0 <= i < batch.len()
    &&& 0 <= j < batch[i].definitions.len()
    &&& conflict == Conflict::Member(batch[i].module, batch[i].definitions[j].name()->0)
    &&& !taken.contains(QualifiedKey::of_module(batch[i].module))
    &&& {
        let key = QualifiedKey::of_member(batch[i].module, batch[i].definitions[j].name()->0);
        taken.contains(key) || proposed_before(batch, i, j, key)
    }
}

/// Whether `conflict` is the conflict of some pair or definition of the
/// batch.
pub open spec fn explained(taken: Set<QualifiedKey>, batch: Seq<Proposal>, conflict: Conflict) -> bool {
    ||| exists|i: int| #[trigger] module_conflict_at(taken, batch, i, conflict)
    ||| exists|i: int, j: int| #[trigger] member_conflict_at(taken, batch, i, j, conflict)
}

/// A conflict that a list holds is still held after another is added.
pub proof fn lemma_push_keeps(conflicts: Seq<Conflict>, added: Conflict)
    ensures
        conflicts.push(added).contains(added),
        forall|c: Conflict| conflicts.contains(c) ==> conflicts.push(added).contains(c),
{
    assert(conflicts.push(added)[conflicts.len() as int] == added);
    assert forall|c: Conflict| conflicts.contains(c) implies conflicts.push(added).contains(c) by {
        let i = choose|i: int| 0 <= i < conflicts.len() && conflicts[i] == c;
        assert(conflicts.push(added)[i] == c);
    }
}

/// The check of one more definition goes on from the check of those
/// before it.
pub proof fn lemma_member_step(start: Scan, module: Seq<char>, definitions: Seq<Entry>)
    requires
        definitions.len() > 0,
    ensures
        extends(
            scan_members(start, module, definitions),
            scan_members(start, module, definitions.drop_last()),
        ),
{
    let before = scan_members(start, module, definitions.drop_last());
    let identity = definitions.last().name()->0;
    lemma_push_keeps(before.conflicts, Conflict::Member(module, identity));
}

/// The check of the first `b` definitions goes on from the check of the
/// first `a`.
pub proof fn lemma_members_prefix(
    start: Scan,
    module: Seq<char>,
    definitions: Seq<Entry>,
    a: int,
    b: int,
)
    requires
        0 <= a <= b <= definitions.len(),
    ensures
        extends(
            scan_members(start, module, definitions.take(b)),
            scan_members(start, module, definitions.take(a)),
        ),
    decreases b - a,
{
    if a < b {
        lemma_members_prefix(start, module, definitions, a, b - 1);
        assert(definitions.take(b).drop_last() =~= definitions.take(b - 1));
        lemma_member_step(start, module, definitions.take(b));
    }
}

/// The check of the definitions of a module goes on from where it started.
pub proof fn lemma_members_extend(start: Scan, module: Seq<char>, definitions: Seq<Entry>)
    ensures
        extends(scan_members(start, module, definitions), start),
{
    lemma_members_prefix(start, module, definitions, 0, definitions.len() as int);
    assert(definitions.take(definitions.len() as int) =~= definitions);
    assert(definitions.take(0) =~= Seq::<Entry>::empty());
}

/// The check of one more pair goes on from the check of those before it.
pub proof fn lemma_pair_step(start: Scan, batch: Seq<Proposal>)
    requires
        batch.len() > 0,
    ensures
        extends(scan_batch(start, batch), scan_batch(start, batch.drop_last())),
{
    let before = scan_batch(start, batch.drop_last());
    let pair = batch.last();
    lemma_push_keeps(before.conflicts, Conflict::Module(pair.module));
    lemma_members_extend(before, pair.module, pair.definitions);
}

/// The check of the first `b` pairs goes on from the check of the first
/// `a`.
pub proof fn lemma_batch_prefix(start: Scan, batch: Seq<Proposal>, a: int, b: int)
    requires
        0 <= a <= b <= batch.len(),
    ensures
        extends(scan_batch(start, batch.take(b)), scan_batch(start, batch.take(a))),
    decreases b - a,
{
    if a < b {
        lemma_batch_prefix(start, batch, a, b - 1);
        assert(batch.take(b).drop_last() =~= batch.take(b - 1));
        lemma_pair_step(start, batch.take(b));
    }
}

/// The check of a batch goes on from where it started.
pub proof fn lemma_batch_extend(start: Scan, batch: Seq<Proposal>)
    ensures
        extends(scan_batch(start, batch), start),
{
    lemma_batch_prefix(start, batch, 0, batch.len() as int);
    assert(batch.take(batch.len() as int) =~= batch);
    assert(batch.take(0) =~= Seq::<Proposal>::empty());
}

/// A pair whose module key was free at the start is not passed over: the
/// check of the batch up to and with the pair is the check of all the
/// definitions of the pair.
pub proof fn lemma_pair_checked(start: Scan, batch: Seq<Proposal>, i: int)
    requires
        0 <= i < batch.len(),
        !start.taken.contains(QualifiedKey::of_module(batch[i].module)),
    ensures
        scan_batch(start, batch.take(i + 1)) == state_before(
            start,
            batch,
            i,
            batch[i].definitions.len() as int,
        ),
{
    lemma_batch_extend(start, batch.take(i));
    assert(batch.take(i + 1).drop_last() =~= batch.take(i));
    assert(batch.take(i + 1).last() == batch[i]);
    assert(batch[i].definitions.take(batch[i].definitions.len() as int) =~= batch[i].definitions);
}

/// Once the check has passed a definition, the key of the definition is
/// taken.
pub proof fn lemma_taken_after(start: Scan, batch: Seq<Proposal>, i: int, j: int)
    requires
        0 <= i < batch.len(),
        0 <= j < batch[i].definitions.len(),
    ensures
        state_before(start, batch, i, j + 1).taken.contains(
            QualifiedKey::of_member(batch[i].module, batch[i].definitions[j].name()->0),
        ),
{
    let d = batch[i].definitions;
    assert(d.take(j + 1).drop_last() =~= d.take(j));
    assert(d.take(j + 1).last() == d[j]);
}

/// A definition whose key is taken when the check reaches it is among the
/// conflicts of the batch.
pub proof fn lemma_taken_then_conflict(
    start: Scan,
    batch: Seq<Proposal>,
    i: int,
    j: int,
    module: Seq<char>,
    identity: Seq<char>,
)
    requires
        proposes(batch, i, j, module, identity),
        !start.taken.contains(QualifiedKey::of_module(module)),
        state_before(start, batch, i, j).taken.contains(QualifiedKey::of_member(module, identity)),
    ensures
        scan_batch(start, batch).conflicts.contains(Conflict::Member(module, identity)),
{
    let d = batch[i].definitions;
    let reached = scan_batch(start, batch.take(i));
    let found = Conflict::Member(module, identity);
    assert(d.take(j + 1).drop_last() =~= d.take(j));
    assert(d.take(j + 1).last() == d[j]);
    lemma_push_keeps(state_before(start, batch, i, j).conflicts, found);
    assert(state_before(start, batch, i, j + 1).conflicts.contains(found));
    lemma_members_prefix(reached, module, d, j + 1, d.len() as int);
    lemma_pair_checked(start, batch, i);
    lemma_batch_prefix(start, batch, i + 1, batch.len() as int);
    assert(batch.take(batch.len() as int) =~= batch);
}

/// When the check reaches a definition, it has gone on from where it
/// stood after any definition that comes earlier in the batch.
pub proof fn lemma_state_order(
    start: Scan,
    batch: Seq<Proposal>,
    i: int,
    j: int,
    i2: int,
    j2: int,
)
    requires
        0 <= i < batch.len(),
        0 <= j < batch[i].definitions.len(),
        0 <= i2 < batch.len(),
        0 <= j2 <= batch[i2].definitions.len(),
        i < i2 || (i == i2 && j < j2),
        !start.taken.contains(QualifiedKey::of_module(batch[i].module)),
    ensures
        extends(state_before(start, batch, i2, j2), state_before(start, batch, i, j + 1)),
{
    if i == i2 {
        lemma_members_prefix(
            scan_batch(start, batch.take(i)),
            batch[i].module,
            batch[i].definitions,
            j + 1,
            j2,
        );
    } else {
        let d = batch[i].definitions;
        lemma_members_prefix(scan_batch(start, batch.take(i)), batch[i].module, d, j + 1, d.len() as int);
        lemma_pair_checked(start, batch, i);
        lemma_batch_prefix(start, batch, i + 1, i2);
        lemma_members_extend(
            scan_batch(start, batch.take(i2)),
            batch[i2].module,
            batch[i2].definitions.take(j2),
        );
    }
}

/// A pair whose module key is taken at the start is among the conflicts
/// of the batch.
pub proof fn lemma_taken_module_conflicts(start: Scan, batch: Seq<Proposal>, i: int)
    requires
        0 <= i < batch.len(),
        start.taken.contains(QualifiedKey::of_module(batch[i].module)),
    ensures
        scan_batch(start, batch).conflicts.contains(Conflict::Module(batch[i].module)),
{
    let reached = scan_batch(start, batch.take(i));
    lemma_batch_extend(start, batch.take(i));
    assert(batch.take(i + 1).drop_last() =~= batch.take(i));
    assert(batch.take(i + 1).last() == batch[i]);
    lemma_push_keeps(reached.conflicts, Conflict::Module(batch[i].module));
    lemma_batch_prefix(start, batch, i + 1, batch.len() as int);
    assert(batch.take(batch.len() as int) =~= batch);
}

/// Filing the definitions of a module leaves a key alone that is the key
/// of none of them.
pub proof fn lemma_file_members_elsewhere(
    catalog: Map<QualifiedKey, Entry>,
    module: Seq<char>,
    definitions: Seq<Entry>,
    key: QualifiedKey,
)
    requires
        forall|j: int|
            0 <= j < definitions.len() ==> QualifiedKey::of_member(
                module,
                (#[trigger] definitions[j]).name()->0,
            ) != key,
    ensures
        file_members(catalog, module, definitions).contains_key(key) == catalog.contains_key(key),
        catalog.contains_key(key) ==> file_members(catalog, module, definitions)[key] == catalog[key],
    decreases definitions.len(),
{
    if definitions.len() > 0 {
        let front = definitions.drop_last();
        assert forall|j: int| 0 <= j < front.len() implies QualifiedKey::of_member(
            module,
            (#[trigger] front[j]).name()->0,
        ) != key by {
            assert(front[j] == definitions[j]);
        }
        lemma_file_members_elsewhere(catalog, module, front, key);
        assert(definitions.last() == definitions[definitions.len() - 1]);
    }
}

/// Filing a batch leaves a key alone that is the key of none of its
/// definitions.
pub proof fn lemma_file_batch_elsewhere(
    catalog: Map<QualifiedKey, Entry>,
    batch: Seq<Proposal>,
    key: QualifiedKey,
)
    requires
        forall|i: int, j: int| !#[trigger] proposes_key(batch, i, j, key),
    ensures
        file_batch(catalog, batch).contains_key(key) == catalog.contains_key(key),
        catalog.contains_key(key) ==> file_batch(catalog, batch)[key] == catalog[key],
    decreases batch.len(),
{
    if batch.len() > 0 {
        let front = batch.drop_last();
        let pair = batch.last();
        let n = batch.len() - 1;
        assert(batch[n] == pair);
        assert forall|i: int, j: int| !#[trigger] proposes_key(front, i, j, key) by {
            if proposes_key(front, i, j, key) {
                assert(front[i] == batch[i]);
                assert(proposes_key(batch, i, j, key));
            }
        }
        lemma_file_batch_elsewhere(catalog, front, key);
        assert forall|j: int| 0 <= j < pair.definitions.len() implies QualifiedKey::of_member(
            pair.module,
            (#[trigger] pair.definitions[j]).name()->0,
        ) != key by {
            assert(!proposes_key(batch, n, j, key));
        }
        lemma_file_members_elsewhere(file_batch(catalog, front), pair.module, pair.definitions, key);
    }
}

/// Filing the definitions of a module files a definition under the key of
/// its name, unless a later definition has the same name.
pub proof fn lemma_file_members_value(
    catalog: Map<QualifiedKey, Entry>,
    module: Seq<char>,
    definitions: Seq<Entry>,
    j: int,
)
    requires
        0 <= j < definitions.len(),
        forall|later: int|
            j < later < definitions.len() ==> (#[trigger] definitions[later]).name()
                != definitions[j].name(),
        forall|any: int| 0 <= any < definitions.len() ==> (#[trigger] definitions[any]).name() is Some,
    ensures
        file_members(catalog, module, definitions)[QualifiedKey::of_member(
            module,
            definitions[j].name()->0,
        )] == definitions[j],
    decreases definitions.len(),
{
    let front = definitions.drop_last();
    if j < definitions.len() - 1 {
        assert(front[j] == definitions[j]);
        assert forall|later: int| j < later < front.len() implies (#[trigger] front[later]).name()
            != front[j].name() by {
            assert(front[later] == definitions[later]);
        }
        assert forall|any: int| 0 <= any < front.len() implies (#[trigger] front[any]).name() is Some by {
            assert(front[any] == definitions[any]);
        }
        lemma_file_members_value(catalog, module, front, j);
        assert(definitions.last() == definitions[definitions.len() - 1]);
        assert(definitions[definitions.len() - 1].name() != definitions[j].name());
    }
}

/// Filing a batch files a definition under the key of its module and
/// name, unless a definition that comes later in the batch has the same
/// module and name.
pub proof fn lemma_file_batch_value(
    catalog: Map<QualifiedKey, Entry>,
    batch: Seq<Proposal>,
    i: int,
    j: int,
    module: Seq<char>,
    identity: Seq<char>,
)
    requires
        all_named(batch),
        proposes(batch, i, j, module, identity),
        forall|i2: int, j2: int|
            proposes(batch, i2, j2, module, identity) && (i < i2 || (i == i2 && j < j2)) ==> false,
    ensures
        file_batch(catalog, batch)[QualifiedKey::of_member(module, identity)]
            == batch[i].definitions[j],
    decreases batch.len(),
{
    let key = QualifiedKey::of_member(module, identity);
    let front = batch.drop_last();
    let pair = batch.last();
    assert(pair == batch[batch.len() - 1]);
    if i == batch.len() - 1 {
        let d = pair.definitions;
        assert forall|later: int| j < later < d.len() implies (#[trigger] d[later]).name()
            != d[j].name() by {
            if d[later].name() == d[j].name() {
                assert(proposes(batch, i, later, module, identity));
            }
        }
        assert forall|any: int| 0 <= any < d.len() implies (#[trigger] d[any]).name() is Some by {
            assert(batch[i].definitions[any].name() is Some);
        }
        lemma_file_members_value(file_batch(catalog, front), module, d, j);
    } else {
        assert(front[i] == batch[i]);
        assert(all_named(front)) by {
            assert forall|a: int, b: int|
                0 <= a < front.len() && 0 <= b < front[a].definitions.len() implies (
            #[trigger] front[a].definitions[b]).name() is Some by {
                assert(front[a] == batch[a]);
                assert(batch[a].definitions[b].name() is Some);
            }
        }
        assert forall|i2: int, j2: int|
            proposes(front, i2, j2, module, identity) && (i < i2 || (i == i2 && j < j2))
                implies false by {
            assert(front[i2] == batch[i2]);
            assert(proposes(batch, i2, j2, module, identity));
        }
        lemma_file_batch_value(catalog, front, i, j, module, identity);
        lemma_file_batch(catalog, front);
        assert(front[i].definitions[j].name()->0 == identity);
        assert(file_batch(catalog, front).contains_key(key));
        assert forall|b: int| 0 <= b < pair.definitions.len() implies QualifiedKey::of_member(
            pair.module,
            (#[trigger] pair.definitions[b]).name()->0,
        ) != key by {
            assert(batch[batch.len() - 1].definitions[b].name() is Some);
            if QualifiedKey::of_member(pair.module, pair.definitions[b].name()->0) == key {
                assert(proposes(batch, batch.len() - 1, b, module, identity));
            }
        }
        lemma_file_members_elsewhere(
            file_batch(catalog, front),
            pair.module,
            pair.definitions,
            key,
        );
    }
}

/// A batch that proposes the same name twice for one module, whose key is
/// free, has the conflict of that name among its conflicts.
pub proof fn lemma_twice_ordered(
    start: Scan,
    batch: Seq<Proposal>,
    i: int,
    j: int,
    i2: int,
    j2: int,
    module: Seq<char>,
    identity: Seq<char>,
)
    requires
        proposes(batch, i, j, module, identity),
        proposes(batch, i2, j2, module, identity),
        i < i2 || (i == i2 && j < j2),
        !start.taken.contains(QualifiedKey::of_module(module)),
    ensures
        scan_batch(start, batch).conflicts.contains(Conflict::Member(module, identity)),
{
    lemma_taken_after(start, batch, i, j);
    lemma_state_order(start, batch, i, j, i2, j2);
    lemma_taken_then_conflict(start, batch, i2, j2, module, identity);
}

/// Filing the definitions of a module keeps what the catalog held under
/// other keys, files each definition under the key of its name, and adds
/// keys of members only.
pub proof fn lemma_file_members(
    catalog: Map<QualifiedKey, Entry>,
    module: Seq<char>,
    definitions: Seq<Entry>,
)
    ensures
        forall|k: QualifiedKey|
            catalog.contains_key(k) ==> file_members(catalog, module, definitions).contains_key(k),
        forall|k: QualifiedKey|
            file_members(catalog, module, definitions).contains_key(k) && !catalog.contains_key(k)
                ==> k.identity is Some,
        forall|j: int|
            0 <= j < definitions.len() ==> file_members(catalog, module, definitions).contains_key(
                QualifiedKey::of_member(module, (#[trigger] definitions[j]).name()->0),
            ),
    decreases definitions.len(),
{
    if definitions.len() > 0 {
        lemma_file_members(catalog, module, definitions.drop_last());
        assert forall|j: int| 0 <= j < definitions.len() implies file_members(
            catalog,
            module,
            definitions,
        ).contains_key(QualifiedKey::of_member(module, (#[trigger] definitions[j]).name()->0)) by {
            if j < definitions.len() - 1 {
                assert(definitions.drop_last()[j] == definitions[j]);
            }
        }
    }
}

/// Filing a batch keeps what the catalog held under other keys, files each
/// definition under the key of its module and name, and adds keys of members
/// only.
pub proof fn lemma_file_batch(catalog: Map<QualifiedKey, Entry>, batch: Seq<Proposal>)
    ensures
        forall|k: QualifiedKey|
            catalog.contains_key(k) ==> file_batch(catalog, batch).contains_key(k),
        forall|k: QualifiedKey|
            file_batch(catalog, batch).contains_key(k) && !catalog.contains_key(k)
                ==> k.identity is Some,
        forall|i: int, j: int|
            0 <= i < batch.len() && 0 <= j < batch[i].definitions.len() ==> file_batch(
                catalog,
                batch,
            ).contains_key(
                QualifiedKey::of_member(
                    batch[i].module,
                    (#[trigger] batch[i].definitions[j]).name()->0,
                ),
            ),
    decreases batch.len(),
{
    if batch.len() > 0 {
        let front = batch.drop_last();
        lemma_file_batch(catalog, front);
        lemma_file_members(file_batch(catalog, front), batch.last().module, batch.last().definitions);
        assert forall|i: int, j: int|
            0 <= i < batch.len() && 0 <= j < batch[i].definitions.len() implies file_batch(
            catalog,
            batch,
        ).contains_key(
            QualifiedKey::of_member(batch[i].module, (#[trigger] batch[i].definitions[j]).name()->0),
        ) by {
            if i < batch.len() - 1 {
                assert(front[i] == batch[i]);
                assert(file_batch(catalog, front).contains_key(
                    QualifiedKey::of_member(front[i].module, front[i].definitions[j].name()->0),
                ));
            }
        }
    }
}

/// A key that is taken after the check of the definitions of a module was
/// taken before or is the key of one of the definitions.
pub proof fn lemma_members_taken(
    start: Scan,
    module: Seq<char>,
    definitions: Seq<Entry>,
    key: QualifiedKey,
)
    requires
        scan_members(start, module, definitions).taken.contains(key),
        !start.taken.contains(key),
    ensures
        exists|j: int|
            0 <= j < definitions.len() && QualifiedKey::of_member(
                module,
                (#[trigger] definitions[j]).name()->0,
            ) == key,
    decreases definitions.len(),
{
    if definitions.len() > 0 {
        let front = definitions.drop_last();
        if scan_members(start, module, front).taken.contains(key) {
            lemma_members_taken(start, module, front, key);
            let j = choose|j: int|
                0 <= j < front.len() && QualifiedKey::of_member(
                    module,
                    (#[trigger] front[j]).name()->0,
                ) == key;
            assert(definitions[j] == front[j]);
        } else {
            assert(definitions[definitions.len() - 1] == definitions.last());
        }
    }
}

/// A conflict that is found after the check of the definitions of a module
/// was found before or is the conflict of one of the definitions, whose key
/// was taken when the check reached it.
pub proof fn lemma_members_conflict(
    start: Scan,
    module: Seq<char>,
    definitions: Seq<Entry>,
    conflict: Conflict,
)
    requires
        scan_members(start, module, definitions).conflicts.contains(conflict),
        !start.conflicts.contains(conflict),
    ensures
        exists|j: int|
            0 <= j < definitions.len() && conflict == Conflict::Member(
                module,
                (#[trigger] definitions[j]).name()->0,
            ) && scan_members(start, module, definitions.take(j)).taken.contains(
                QualifiedKey::of_member(module, definitions[j].name()->0),
            ),
    decreases definitions.len(),
{
    if definitions.len() > 0 {
        let front = definitions.drop_last();
        let before = scan_members(start, module, front);
        if before.conflicts.contains(conflict) {
            lemma_members_conflict(start, module, front, conflict);
            let j = choose|j: int|
                0 <= j < front.len() && conflict == Conflict::Member(
                    module,
                    (#[trigger] front[j]).name()->0,
                ) && scan_members(start, module, front.take(j)).taken.contains(
                    QualifiedKey::of_member(module, front[j].name()->0),
                );
            assert(definitions[j] == front[j]);
            assert(definitions.take(j) =~= front.take(j));
        } else {
            let j = definitions.len() - 1;
            let identity = definitions.last().name()->0;
            assert(definitions[j] == definitions.last());
            assert(definitions.take(j) =~= front);
            let found = before.conflicts.push(Conflict::Member(module, identity));
            if before.taken.contains(QualifiedKey::of_member(module, identity)) {
                let at = choose|at: int| 0 <= at < found.len() && found[at] == conflict;
                assert(at == before.conflicts.len()) by {
                    if at < before.conflicts.len() {
                        assert(before.conflicts[at] == conflict);
                    }
                }
            }
        }
    }
}

/// A key that is taken after the check of a batch was taken before or is
/// the key of one of the definitions of the batch.
pub proof fn lemma_batch_taken(start: Scan, batch: Seq<Proposal>, key: QualifiedKey)
    requires
        scan_batch(start, batch).taken.contains(key),
        !start.taken.contains(key),
    ensures
        exists|i: int, j: int| #[trigger] proposes_key(batch, i, j, key),
    decreases batch.len(),
{
    if batch.len() > 0 {
        let front = batch.drop_last();
        let before = scan_batch(start, front);
        let n = batch.len() - 1;
        assert(batch[n] == batch.last());
        if before.taken.contains(key) {
            lemma_batch_taken(start, front, key);
            let (i, j) = choose|i: int, j: int| #[trigger] proposes_key(front, i, j, key);
            assert(front[i] == batch[i]);
            assert(proposes_key(batch, i, j, key));
        } else {
            lemma_members_taken(before, batch.last().module, batch.last().definitions, key);
            let j = choose|j: int|
                0 <= j < batch.last().definitions.len() && QualifiedKey::of_member(
                    batch.last().module,
                    (#[trigger] batch.last().definitions[j]).name()->0,
                ) == key;
            assert(proposes_key(batch, n, j, key));
        }
    }
}

/// A conflict of a batch is found for a reason: it is the conflict of a
/// pair whose module key was taken from the start, or of a definition
/// whose key was taken from the start or is the key of a definition that
/// comes before it.
pub proof fn lemma_conflict_explained(start: Scan, batch: Seq<Proposal>, conflict: Conflict)
    requires
        scan_batch(start, batch).conflicts.contains(conflict),
        !start.conflicts.contains(conflict),
    ensures
        explained(start.taken, batch, conflict),
    decreases batch.len(),
{
    if batch.len() > 0 {
        let front = batch.drop_last();
        let before = scan_batch(start, front);
        let n = batch.len() - 1;
        let pair = batch.last();
        assert(batch[n] == pair);
        lemma_batch_extend(start, front);
        if before.conflicts.contains(conflict) {
            lemma_conflict_explained(start, front, conflict);
            if exists|i: int| #[trigger] module_conflict_at(start.taken, front, i, conflict) {
                let i = choose|i: int| #[trigger] module_conflict_at(start.taken, front, i, conflict);
                assert(front[i] == batch[i]);
                assert(module_conflict_at(start.taken, batch, i, conflict));
            } else {
                let (i, j) = choose|i: int, j: int| #[trigger]
                    member_conflict_at(start.taken, front, i, j, conflict);
                assert(front[i] == batch[i]);
                let key = QualifiedKey::of_member(front[i].module, front[i].definitions[j].name()->0);
                if proposed_before(front, i, j, key) {
                    let (i2, j2) = choose|i2: int, j2: int|
                        #[trigger] proposes_key(front, i2, j2, key) && (i2 < i || (i2 == i && j2 < j));
                    assert(front[i2] == batch[i2]);
                    assert(proposes_key(batch, i2, j2, key));
                }
                assert(member_conflict_at(start.taken, batch, i, j, conflict));
            }
        } else if before.taken.contains(QualifiedKey::of_module(pair.module)) {
            let found = before.conflicts.push(Conflict::Module(pair.module));
            let at = choose|at: int| 0 <= at < found.len() && found[at] == conflict;
            assert(at == before.conflicts.len()) by {
                if at < before.conflicts.len() {
                    assert(before.conflicts[at] == conflict);
                }
            }
            assert(module_conflict_at(start.taken, batch, n, conflict));
        } else {
            lemma_members_conflict(before, pair.module, pair.definitions, conflict);
            let j = choose|j: int|
                0 <= j < pair.definitions.len() && conflict == Conflict::Member(
                    pair.module,
                    (#[trigger] pair.definitions[j]).name()->0,
                ) && scan_members(before, pair.module, pair.definitions.take(j)).taken.contains(
                    QualifiedKey::of_member(pair.module, pair.definitions[j].name()->0),
                );
            let key = QualifiedKey::of_member(pair.module, pair.definitions[j].name()->0);
            if !start.taken.contains(key) {
                if before.taken.contains(key) {
                    lemma_batch_taken(start, front, key);
                    let (i2, j2) = choose|i2: int, j2: int| #[trigger] proposes_key(front, i2, j2, key);
                    assert(front[i2] == batch[i2]);
                    assert(proposes_key(batch, i2, j2, key) && (i2 < n || (i2 == n && j2 < j)));
                } else {
                    lemma_members_taken(before, pair.module, pair.definitions.take(j), key);
                    let j2 = choose|j2: int|
                        0 <= j2 < pair.definitions.take(j).len() && QualifiedKey::of_member(
                            pair.module,
                            (#[trigger] pair.definitions.take(j)[j2]).name()->0,
                        ) == key;
                    assert(pair.definitions.take(j)[j2] == pair.definitions[j2]);
                    assert(proposes_key(batch, n, j2, key) && (n < n || (n == n && j2 < j)));
                }
                assert(proposed_before(batch, n, j, key));
            }
            assert(member_conflict_at(start.taken, batch, n, j, conflict));
        }
    }
}

} // verus!
