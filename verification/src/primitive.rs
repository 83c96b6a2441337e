//! The built-in scalar kinds and their enumeration.
use vstd::prelude::*;

verus! {

/// A built-in scalar kind.
#[derive(Clone, Copy, Debug, PartialEq, Eq, Structural)]
pub enum funkstd {
    bool,
    int8,
    int16,
    int32,
    int64,
    int128,
    str,
    uint8,
    uint16,
    uint32,
    uint64,
    uint128,
}

/// How many scalar kinds there are.
pub const KIND_COUNT: usize = 12;

/// Every scalar kind once, in the order in which they are enumerated.
pub open spec fn all_kinds() -> Seq<funkstd> {
    seq![
        funkstd::bool,
        funkstd::int8,
        funkstd::int16,
        funkstd::int32,
        funkstd::int64,
        funkstd::int128,
        funkstd::str,
        funkstd::uint8,
        funkstd::uint16,
        funkstd::uint32,
        funkstd::uint64,
        funkstd::uint128,
    ]
}

impl funkstd {
    /// The name under which the kind is filed.
    pub open spec fn name(self) -> Seq<char> {
        match self {
            funkstd::bool => "bool"@,
            funkstd::int8 => "int8"@,
            funkstd::int16 => "int16"@,
            funkstd::int32 => "int32"@,
            funkstd::int64 => "int64"@,
            funkstd::int128 => "int128"@,
            funkstd::str => "str"@,
            funkstd::uint8 => "uint8"@,
            funkstd::uint16 => "uint16"@,
            funkstd::uint32 => "uint32"@,
            funkstd::uint64 => "uint64"@,
            funkstd::uint128 => "uint128"@,
        }
    }

    /// The position of the kind in the enumeration.
    pub open spec fn ordinal(self) -> int {
        match self {
            funkstd::bool => 0,
            funkstd::int8 => 1,
            funkstd::int16 => 2,
            funkstd::int32 => 3,
            funkstd::int64 => 4,
            funkstd::int128 => 5,
            funkstd::str => 6,
            funkstd::uint8 => 7,
            funkstd::uint16 => 8,
            funkstd::uint32 => 9,
            funkstd::uint64 => 10,
            funkstd::uint128 => 11,
        }
    }

    /// The name of the kind.
    pub fn get_name(&self) -> (r: Option<&'static str>)
        ensures
            r is Some,
            r->0@ == self.name(),
    {
        match self {
            funkstd::bool => Some("bool"),
            funkstd::int8 => Some("int8"),
            funkstd::int16 => Some("int16"),
            funkstd::int32 => Some("int32"),
            funkstd::int64 => Some("int64"),
            funkstd::int128 => Some("int128"),
            funkstd::str => Some("str"),
            funkstd::uint8 => Some("uint8"),
            funkstd::uint16 => Some("uint16"),
            funkstd::uint32 => Some("uint32"),
            funkstd::uint64 => Some("uint64"),
            funkstd::uint128 => Some("uint128"),
        }
    }

    /// A fresh enumeration of all the kinds.
    pub fn iter() -> (it: funkstdIter)
        ensures
            it.remaining() == all_kinds(),
    {
        let it = funkstdIter { idx: 0, back_idx: 0 };
        assert(it.remaining() =~= all_kinds());
        it
    }
}

/// Every kind stands in the enumeration at its ordinal, and nowhere else.
pub proof fn lemma_kinds_enumerated(kind: funkstd)
    ensures
        all_kinds().len() == KIND_COUNT,
        0 <= kind.ordinal() < KIND_COUNT,
        all_kinds()[kind.ordinal()] == kind,
        forall|i: int| 0 <= i < KIND_COUNT && all_kinds()[i] == kind ==> i == kind.ordinal(),
{
}

/// Different kinds have different names.
pub proof fn lemma_names_distinct(a: funkstd, b: funkstd)
    ensures
        a.name() == b.name() ==> a == b,
{
    reveal_strlit("bool");
    reveal_strlit("int8");
    reveal_strlit("int16");
    reveal_strlit("int32");
    reveal_strlit("int64");
    reveal_strlit("int128");
    reveal_strlit("str");
    reveal_strlit("uint8");
    reveal_strlit("uint16");
    reveal_strlit("uint32");
    reveal_strlit("uint64");
    reveal_strlit("uint128");
    if a != b && a.name() == b.name() {
        let x = a.name();
        let y = b.name();
        assert(x.len() == y.len());
        assert(x[0] == y[0]);
        assert(x[1] == y[1]);
        assert(x[2] == y[2]);
        assert(x[3] == y[3]);
        if x.len() > 4 {
            assert(x[4] == y[4]);
        }
    }
}

/// An enumeration of the scalar kinds that can be taken from both ends.
#[derive(Debug)]
pub struct funkstdIter {
    idx: usize,
    back_idx: usize,
}

impl Clone for funkstdIter {
    /// An enumeration that stands where this one stands.
    fn clone(&self) -> (it: Self)
        ensures
            it.remaining() == self.remaining(),
    {
        proof {
            use_type_invariant(self);
        }
        funkstdIter { idx: self.idx, back_idx: self.back_idx }
    }
}

impl funkstdIter {
    #[verifier::type_invariant]
    spec fn bounded(self) -> bool {
        self.idx <= KIND_COUNT && self.back_idx <= KIND_COUNT
    }

    /// The kinds still to come, front first.
    pub closed spec fn remaining(self) -> Seq<funkstd> {
        if self.idx + self.back_idx >= KIND_COUNT {
            Seq::empty()
        } else {
            all_kinds().subrange(self.idx as int, KIND_COUNT - self.back_idx)
        }
    }

    /// The kind at a position of the full enumeration.
    pub fn get(&self, idx: usize) -> (r: Option<funkstd>)
        ensures
            r == if idx < KIND_COUNT {
                Some(all_kinds()[idx as int])
            } else {
                None
            },
    {
        match idx {
            0 => Some(funkstd::bool),
            1 => Some(funkstd::int8),
            2 => Some(funkstd::int16),
            3 => Some(funkstd::int32),
            4 => Some(funkstd::int64),
            5 => Some(funkstd::int128),
            6 => Some(funkstd::str),
            7 => Some(funkstd::uint8),
            8 => Some(funkstd::uint16),
            9 => Some(funkstd::uint32),
            10 => Some(funkstd::uint64),
            11 => Some(funkstd::uint128),
            _ => None,
        }
    }

    /// How many kinds are still to come.
    pub fn len(&self) -> (n: usize)
        ensures
            n == self.remaining().len(),
    {
        proof {
            use_type_invariant(self);
        }
        if self.idx + self.back_idx >= KIND_COUNT {
            0
        } else {
            KIND_COUNT - self.idx - self.back_idx
        }
    }

    /// The number of kinds still to come, as a lower and an upper bound.
    pub fn size_hint(&self) -> (r: (usize, Option<usize>))
        ensures
            r.0 == self.remaining().len(),
            r.1 == Some(r.0),
    {
        let n = self.len();
        (n, Some(n))
    }

    /// Skips `n` kinds at the front and takes the one after them.
    pub fn nth(&mut self, n: usize) -> (r: Option<funkstd>)
        ensures
            n < old(self).remaining().len() ==> r == Some(old(self).remaining()[n as int])
                && final(self).remaining() == old(self).remaining().skip(n + 1),
            n >= old(self).remaining().len() ==> r is None && final(self).remaining().len() == 0,
    {
        proof {
            use_type_invariant(&*self);
        }
        if n >= self.len() {
            self.idx = KIND_COUNT;
            None
        } else {
            let at: usize = self.idx + n;
            self.idx = at + 1;
            assert(final(self).remaining() =~= old(self).remaining().skip(n + 1));
            self.get(at)
        }
    }

    /// Takes the next kind at the front.
    pub fn next(&mut self) -> (r: Option<funkstd>)
        ensures
            old(self).remaining().len() > 0 ==> r == Some(old(self).remaining().first())
                && final(self).remaining() == old(self).remaining().drop_first(),
            old(self).remaining().len() == 0 ==> r is None && final(self).remaining().len() == 0,
    {
        let r = self.nth(0);
        assert(old(self).remaining().len() > 0 ==> old(self).remaining().skip(1)
            =~= old(self).remaining().drop_first());
        r
    }

    /// Takes the next kind at the back.
    pub fn next_back(&mut self) -> (r: Option<funkstd>)
        ensures
            old(self).remaining().len() > 0 ==> r == Some(old(self).remaining().last())
                && final(self).remaining() == old(self).remaining().drop_last(),
            old(self).remaining().len() == 0 ==> r is None && final(self).remaining().len() == 0,
    {
        proof {
            use_type_invariant(&*self);
        }
        if self.len() == 0 {
            self.back_idx = KIND_COUNT;
            None
        } else {
            self.back_idx = self.back_idx + 1;
            assert(final(self).remaining() =~= old(self).remaining().drop_last());
            self.get(KIND_COUNT - self.back_idx)
        }
    }

    /// Takes all the kinds that are still to come, front first.
    pub fn collect(self) -> (kinds: Vec<funkstd>)
        ensures
            kinds@ == self.remaining(),
    {
        let mut it = self;
        let mut kinds: Vec<funkstd> = Vec::new();
        loop
            invariant
                kinds@ + it.remaining() == self.remaining(),
            decreases it.remaining().len(),
        {
            let ghost before = it.remaining();
            match it.next() {
                Some(kind) => {
                    kinds.push(kind);
                    assert(kinds@ + it.remaining() =~= self.remaining()) by {
                        assert(before =~= seq![kind] + it.remaining());
                    }
                },
                None => {
                    assert(kinds@ =~= self.remaining());
                    return kinds;
                },
            }
        }
    }
}

} // verus!
