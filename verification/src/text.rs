//! The order on text: lexicographic by character, a proper prefix first.
use vstd::prelude::*;
use vstd::std_specs::iter::IteratorSpec;
use crate::ordered::{Rank, Sortable};

verus! {

/// The strict lexicographic order on text. Characters compare by code point.
pub open spec fn text_precedes(a: Seq<char>, b: Seq<char>) -> bool
    decreases a.len(),
{
    if b.len() == 0 {
        false
    } else if a.len() == 0 {
        true
    } else if a[0] != b[0] {
        a[0] < b[0]
    } else {
        text_precedes(a.drop_first(), b.drop_first())
    }
}

/// Two non-empty texts with the same first character are equal exactly when
/// what follows the first character is equal.
pub proof fn lemma_same_head(a: Seq<char>, b: Seq<char>)
    requires
        a.len() > 0,
        b.len() > 0,
        a[0] == b[0],
    ensures
        (a == b) <==> (a.drop_first() == b.drop_first()),
{
    if a.drop_first() == b.drop_first() {
        assert(a =~= seq![a[0]] + a.drop_first());
        assert(b =~= seq![b[0]] + b.drop_first());
    }
}

/// No text precedes itself.
pub proof fn lemma_text_irreflexive(a: Seq<char>)
    ensures
        !text_precedes(a, a),
    decreases a.len(),
{
    if a.len() > 0 {
        lemma_text_irreflexive(a.drop_first());
    }
}

/// The order on text is transitive.
pub proof fn lemma_text_transitive(a: Seq<char>, b: Seq<char>, c: Seq<char>)
    requires
        text_precedes(a, b),
        text_precedes(b, c),
    ensures
        text_precedes(a, c),
    decreases a.len(),
{
    if a.len() > 0 && a[0] == b[0] && b[0] == c[0] {
        lemma_text_transitive(a.drop_first(), b.drop_first(), c.drop_first());
    }
}

/// Any two texts are equal or one precedes the other.
pub proof fn lemma_text_total(a: Seq<char>, b: Seq<char>)
    ensures
        a == b || text_precedes(a, b) || text_precedes(b, a),
    decreases a.len(),
{
    if a.len() == 0 || b.len() == 0 {
        if a.len() == 0 && b.len() == 0 {
            assert(a =~= b);
        }
    } else if a[0] == b[0] {
        lemma_text_total(a.drop_first(), b.drop_first());
        lemma_same_head(a, b);
    }
}

/// Compares two texts in the lexicographic order.
pub fn text_rank(a: &str, b: &str) -> (r: Rank)
    ensures
        match r {
            Rank::Before => text_precedes(a@, b@),
            Rank::Same => a@ == b@,
            Rank::After => text_precedes(b@, a@),
        },
{
    let mut left = a.chars();
    let mut right = b.chars();
    loop
        invariant
            text_precedes(a@, b@) == text_precedes(left.remaining(), right.remaining()),
            text_precedes(b@, a@) == text_precedes(right.remaining(), left.remaining()),
            (a@ == b@) == (left.remaining() == right.remaining()),
            left.decrease() is Some,
        decreases left.decrease()->0,
    {
        let ghost rest_left = left.remaining();
        let ghost rest_right = right.remaining();
        let x = left.next();
        let y = right.next();
        match (x, y) {
            (None, None) => {
                assert(rest_left =~= rest_right);
                return Rank::Same;
            },
            (None, Some(_)) => {
                return Rank::Before;
            },
            (Some(_), None) => {
                return Rank::After;
            },
            (Some(p), Some(q)) => {
                if p != q {
                    if p < q {
                        return Rank::Before;
                    } else {
                        return Rank::After;
                    }
                }
                proof {
                    lemma_same_head(rest_left, rest_right);
                }
            },
        }
    }
}

/// Whether two texts are the same.
pub fn text_same(a: &str, b: &str) -> (same: bool)
    ensures
        same == (a@ == b@),
{
    proof {
        lemma_text_irreflexive(a@);
    }
    match text_rank(a, b) {
        Rank::Same => true,
        _ => false,
    }
}

impl Sortable for String {
    type Model = Seq<char>;

    open spec fn model(&self) -> Seq<char> {
        self@
    }

    open spec fn precedes(a: Seq<char>, b: Seq<char>) -> bool {
        text_precedes(a, b)
    }

    proof fn order_laws(a: Seq<char>, b: Seq<char>, c: Seq<char>) {
        lemma_text_irreflexive(a);
        lemma_text_total(a, b);
        if text_precedes(a, b) && text_precedes(b, c) {
            lemma_text_transitive(a, b, c);
        }
    }

    fn rank(&self, other: &Self) -> (r: Rank) {
        text_rank(self.as_str(), other.as_str())
    }
}

} // verus!
