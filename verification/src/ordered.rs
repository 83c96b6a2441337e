//! Keys with a strict total order, and lists of entries kept in key order.
//!
//! A list of `(key, value)` pairs whose keys strictly ascend holds each key at
//! most once and enumerates in key order; it stands for the map `contents`.
use vstd::prelude::*;

verus! {

/// Where one key stands relative to another.
#[derive(Clone, Copy, Debug, PartialEq, Eq, Structural)]
pub enum Rank {
    Before,
    Same,
    After,
}

/// A key type whose mathematical model is strictly and totally ordered.
///
/// Two keys count as the same key exactly when their models are equal.
pub trait Sortable: Sized {
    type Model;

    /// What the key stands for in specifications.
    spec fn model(&self) -> Self::Model;

    /// The strict order on models.
    spec fn precedes(a: Self::Model, b: Self::Model) -> bool;

    /// `precedes` is irreflexive, transitive and total.
    proof fn order_laws(a: Self::Model, b: Self::Model, c: Self::Model)
        ensures
            !Self::precedes(a, a),
            Self::precedes(a, b) && Self::precedes(b, c) ==> Self::precedes(a, c),
            a == b || Self::precedes(a, b) || Self::precedes(b, a),
    ;

    /// Compares two keys by their models.
    fn rank(&self, other: &Self) -> (r: Rank)
        ensures
            match r {
                Rank::Before => Self::precedes(self.model(), other.model()),
                Rank::Same => self.model() == other.model(),
                Rank::After => Self::precedes(other.model(), self.model()),
            },
    ;
}

/// Whether the keys of `s` strictly ascend.
pub open spec fn ascending<K: Sortable, V>(s: Seq<(K, V)>) -> bool {
    forall|i: int, j: int|
        0 <= i < j < s.len() ==> K::precedes(
            #[trigger] s[i].0.model(),
            #[trigger] s[j].0.model(),
        )
}

/// Whether some entry of `s` has the key `k`.
pub open spec fn has_key<K: Sortable, V>(s: Seq<(K, V)>, k: K::Model) -> bool {
    exists|i: int| 0 <= i < s.len() && (#[trigger] s[i].0.model()) == k
}

/// The position of an entry of `s` with the key `k`, where there is one.
pub open spec fn index_of<K: Sortable, V>(s: Seq<(K, V)>, k: K::Model) -> int {
    choose|i: int| 0 <= i < s.len() && (#[trigger] s[i].0.model()) == k
}

/// The map that the entries of `s` stand for.
pub open spec fn contents<K: Sortable, V>(s: Seq<(K, V)>) -> Map<K::Model, V> {
    Map::new(|k: K::Model| has_key(s, k), |k: K::Model| s[index_of(s, k)].1)
}

/// Whether `k` belongs at position `pos` of `s`: every entry before `pos`
/// precedes it and it precedes every entry from `pos` on.
pub open spec fn belongs_at<K: Sortable, V>(s: Seq<(K, V)>, pos: int, k: K::Model) -> bool {
    &&& 0 <= pos <= s.len()
    &&& forall|i: int| 0 <= i < pos ==> K::precedes(#[trigger] s[i].0.model(), k)
    &&& forall|i: int| pos <= i < s.len() ==> K::precedes(k, #[trigger] s[i].0.model())
}

/// In an ascending list each key is held at one position only.
pub proof fn lemma_entry<K: Sortable, V>(s: Seq<(K, V)>, i: int)
    requires
        ascending(s),
        0 <= i < s.len(),
    ensures
        has_key(s, s[i].0.model()),
        index_of(s, s[i].0.model()) == i,
        contents(s).contains_key(s[i].0.model()),
        contents(s)[s[i].0.model()] == s[i].1,
{
    let k = s[i].0.model();
    let j = index_of(s, k);
    K::order_laws(k, k, k);
    if j < i {
        assert(K::precedes(s[j].0.model(), s[i].0.model()));
    } else if i < j {
        assert(K::precedes(s[i].0.model(), s[j].0.model()));
    }
}

/// A key that belongs at a position is not in the list.
pub proof fn lemma_belongs_absent<K: Sortable, V>(s: Seq<(K, V)>, pos: int, k: K::Model)
    requires
        belongs_at(s, pos, k),
    ensures
        !has_key(s, k),
{
    K::order_laws(k, k, k);
    if has_key(s, k) {
        let i = index_of(s, k);
        if i < pos {
            assert(K::precedes(s[i].0.model(), k));
        } else {
            assert(K::precedes(k, s[i].0.model()));
        }
    }
}

/// Putting a new key where it belongs keeps the list ascending and adds the
/// key to the contents.
pub proof fn lemma_insert<K: Sortable, V>(s: Seq<(K, V)>, pos: int, key: K, value: V)
    requires
        ascending(s),
        belongs_at(s, pos, key.model()),
    ensures
        ascending(s.insert(pos, (key, value))),
        contents(s.insert(pos, (key, value))) == contents(s).insert(key.model(), value),
{
    let t = s.insert(pos, (key, value));
    assert forall|i: int, j: int| 0 <= i < j < t.len() implies K::precedes(
        #[trigger] t[i].0.model(),
        #[trigger] t[j].0.model(),
    ) by {
        let a = if i < pos { i } else { i - 1 };
        let b = if j < pos { j } else { j - 1 };
        if i != pos && j != pos {
            assert(t[i] == s[a] && t[j] == s[b]);
            assert(K::precedes(s[a].0.model(), s[b].0.model()));
        } else if i == pos {
            assert(t[j] == s[b]);
            assert(K::precedes(key.model(), s[b].0.model()));
        } else {
            assert(t[i] == s[a]);
            assert(K::precedes(s[a].0.model(), key.model()));
        }
    }
    assert forall|k: K::Model| #[trigger] has_key(t, k) <==> (has_key(s, k) || k == key.model()) by {
        if has_key(t, k) {
            let i = index_of(t, k);
            if i != pos {
                let a = if i < pos { i } else { i - 1 };
                assert(t[i] == s[a]);
                assert(s[a].0.model() == k);
            }
        }
        if has_key(s, k) {
            let a = index_of(s, k);
            let i = if a < pos { a } else { a + 1 };
            assert(t[i] == s[a]);
            assert(t[i].0.model() == k);
        }
        if k == key.model() {
            assert(t[pos].0.model() == k);
        }
    }
    lemma_belongs_absent(s, pos, key.model());
    assert forall|k: K::Model| has_key(t, k) implies #[trigger] contents(t)[k] == contents(s).insert(
        key.model(),
        value,
    )[k] by {
        let i = index_of(t, k);
        lemma_entry(t, i);
        if i != pos {
            let a = if i < pos { i } else { i - 1 };
            assert(t[i] == s[a]);
            lemma_entry(s, a);
        }
    }
    assert(contents(t) =~= contents(s).insert(key.model(), value));
}

/// Replacing the entry of a key by another entry of the same key keeps the
/// list ascending and changes the contents at that key only.
pub proof fn lemma_replace<K: Sortable, V>(s: Seq<(K, V)>, pos: int, key: K, value: V)
    requires
        ascending(s),
        0 <= pos < s.len(),
        s[pos].0.model() == key.model(),
    ensures
        ascending(s.update(pos, (key, value))),
        contents(s.update(pos, (key, value))) == contents(s).insert(key.model(), value),
{
    let t = s.update(pos, (key, value));
    assert(t.len() == s.len());
    assert forall|i: int, j: int| 0 <= i < j < t.len() implies K::precedes(
        #[trigger] t[i].0.model(),
        #[trigger] t[j].0.model(),
    ) by {
        assert(t[i].0.model() == s[i].0.model() && t[j].0.model() == s[j].0.model());
        assert(K::precedes(s[i].0.model(), s[j].0.model()));
    }
    assert forall|k: K::Model| #[trigger] has_key(t, k) <==> (has_key(s, k) || k == key.model()) by {
        if has_key(t, k) {
            let i = index_of(t, k);
            assert(s[i].0.model() == k);
        }
        if has_key(s, k) {
            let i = index_of(s, k);
            assert(t[i].0.model() == k);
        }
        if k == key.model() {
            assert(t[pos].0.model() == k);
        }
    }
    assert forall|k: K::Model| has_key(t, k) implies #[trigger] contents(t)[k] == contents(s).insert(
        key.model(),
        value,
    )[k] by {
        let i = index_of(t, k);
        lemma_entry(t, i);
        lemma_entry(s, pos);
        if i != pos {
            assert(t[i] == s[i]);
            lemma_entry(s, i);
        }
    }
    assert(contents(t) =~= contents(s).insert(key.model(), value));
}

/// An ascending list has as many entries as its contents have keys.
pub proof fn lemma_count<K: Sortable, V>(s: Seq<(K, V)>)
    requires
        ascending(s),
    ensures
        contents(s).dom().finite(),
        contents(s).len() == s.len(),
    decreases s.len(),
{
    if s.len() == 0 {
        assert(contents(s).dom() =~= Set::<K::Model>::empty());
    } else {
        let front = s.drop_last();
        let last = s.last();
        assert forall|i: int, j: int| 0 <= i < j < front.len() implies K::precedes(
            #[trigger] front[i].0.model(),
            #[trigger] front[j].0.model(),
        ) by {
            assert(K::precedes(s[i].0.model(), s[j].0.model()));
        }
        assert forall|i: int| 0 <= i < front.len() implies K::precedes(
            #[trigger] front[i].0.model(),
            last.0.model(),
        ) by {
            assert(K::precedes(s[i].0.model(), s[s.len() - 1].0.model()));
        }
        lemma_count(front);
        lemma_belongs_absent(front, front.len() as int, last.0.model());
        lemma_insert(front, front.len() as int, last.0, last.1);
        assert(front.insert(front.len() as int, last) =~= s);
        assert(contents(s).dom() =~= contents(front).dom().insert(last.0.model()));
    }
}

/// Where a key is in a list, or where it belongs.
#[derive(Clone, Copy, Debug, PartialEq, Eq, Structural)]
pub enum Place {
    /// The key is held at this position.
    Held(usize),
    /// The key is absent and belongs at this position.
    Free(usize),
}

/// Searches an ascending list for `key` by bisection.
pub fn locate<K: Sortable, V>(list: &Vec<(K, V)>, key: &K) -> (r: Place)
    requires
        ascending(list@),
    ensures
        match r {
            Place::Held(i) => i < list@.len() && list@[i as int].0.model() == key.model()
                && has_key(list@, key.model()),
            Place::Free(i) => belongs_at(list@, i as int, key.model()) && !has_key(
                list@,
                key.model(),
            ),
        },
{
    let mut lo: usize = 0;
    let mut hi: usize = list.len();
    while lo < hi
        invariant
            lo <= hi <= list@.len(),
            ascending(list@),
            forall|i: int| 0 <= i < lo ==> K::precedes(#[trigger] list@[i].0.model(), key.model()),
            forall|i: int|
                hi <= i < list@.len() ==> K::precedes(key.model(), #[trigger] list@[i].0.model()),
        decreases hi - lo,
    {
        let mid: usize = lo + (hi - lo) / 2;
        match list[mid].0.rank(key) {
            Rank::Before => {
                proof {
                    assert forall|i: int| 0 <= i < mid + 1 implies K::precedes(
                        #[trigger] list@[i].0.model(),
                        key.model(),
                    ) by {
                        if i < mid {
                            assert(K::precedes(list@[i].0.model(), list@[mid as int].0.model()));
                            K::order_laws(
                                list@[i].0.model(),
                                list@[mid as int].0.model(),
                                key.model(),
                            );
                        }
                    }
                }
                lo = mid + 1;
            },
            Rank::Same => {
                return Place::Held(mid);
            },
            Rank::After => {
                proof {
                    assert forall|i: int| mid <= i < list@.len() implies K::precedes(
                        key.model(),
                        #[trigger] list@[i].0.model(),
                    ) by {
                        if mid < i {
                            assert(K::precedes(list@[mid as int].0.model(), list@[i].0.model()));
                            K::order_laws(
                                key.model(),
                                list@[mid as int].0.model(),
                                list@[i].0.model(),
                            );
                        }
                    }
                }
                hi = mid;
            },
        }
    }
    proof {
        lemma_belongs_absent(list@, lo as int, key.model());
    }
    Place::Free(lo)
}

/// Files `value` under `key`, in place of what `key` held before, and
/// returns what it held.
pub fn put<K: Sortable, V>(list: &mut Vec<(K, V)>, key: K, value: V) -> (prev: Option<V>)
    requires
        ascending(old(list)@),
    ensures
        ascending(final(list)@),
        contents(final(list)@) == contents(old(list)@).insert(key.model(), value),
        prev == if has_key(old(list)@, key.model()) {
            Some(contents(old(list)@)[key.model()])
        } else {
            None::<V>
        },
{
    match locate(list, &key) {
        Place::Held(i) => {
            proof {
                lemma_entry(list@, i as int);
                lemma_replace(list@, i as int, key, value);
            }
            list.push((key, value));
            let displaced = list.swap_remove(i);
            assert(list@ =~= old(list)@.update(i as int, (key, value)));
            Some(displaced.1)
        },
        Place::Free(i) => {
            proof {
                lemma_insert(list@, i as int, key, value);
            }
            list.insert(i, (key, value));
            None
        },
    }
}

/// Files `value` under `key` if `key` holds nothing yet; hands the pair back
/// and leaves the list alone if it does.
pub fn put_new<K: Sortable, V>(list: &mut Vec<(K, V)>, key: K, value: V) -> (refused: Option<(K, V)>)
    requires
        ascending(old(list)@),
    ensures
        ascending(final(list)@),
        refused is Some <==> has_key(old(list)@, key.model()),
        refused is Some ==> refused == Some((key, value)) && final(list)@ == old(list)@,
        refused is None ==> contents(final(list)@) == contents(old(list)@).insert(
            key.model(),
            value,
        ) && final(list)@.len() == old(list)@.len() + 1,
{
    match locate(list, &key) {
        Place::Held(_) => Some((key, value)),
        Place::Free(i) => {
            proof {
                lemma_insert(list@, i as int, key, value);
            }
            list.insert(i, (key, value));
            None
        },
    }
}

} // verus!
