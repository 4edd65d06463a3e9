//! What is known of the layout of a type before a value of it is seen.
use vstd::prelude::*;

verus! {

/// What is known of the layout of a type before a value of it is seen.
#[derive(Debug, Clone, Copy, PartialEq, Eq, Structural)]
pub enum TypeMeta {
    /// Every value takes the same number of bytes.
    Static {
        /// That number.
        size: usize,
        /// Whether the bytes of a value are those that it has in memory.
        zero_copy: bool,
    },
    /// The number of bytes depends on the value.
    Dynamic,
}

/// The sum of the static sizes of `types`.
pub open spec fn size_sum(types: Seq<TypeMeta>) -> nat
    decreases types.len(),
{
    if types.len() == 0 {
        0
    } else {
        size_sum(types.drop_last()) + match types.last() {
            TypeMeta::Static { size, .. } => size as nat,
            TypeMeta::Dynamic => 0,
        }
    }
}

/// Whether all of `types` have a static size.
pub open spec fn all_static(types: Seq<TypeMeta>) -> bool {
    forall|i: int| 0 <= i < types.len() ==> #[trigger] types[i] is Static
}

/// Whether all of `types` are eligible for zero-copy.
pub open spec fn all_zero_copy(types: Seq<TypeMeta>) -> bool {
    forall|i: int| 0 <= i < types.len() ==> (#[trigger] types[i])->zero_copy
}

/// What is known of values of `types` that stand one after the other.
pub open spec fn joined(types: Seq<TypeMeta>) -> TypeMeta {
    if all_static(types) {
        TypeMeta::Static { size: size_sum(types) as usize, zero_copy: all_zero_copy(types) }
    } else {
        TypeMeta::Dynamic
    }
}

/// Whether the sizes in front of the first type without a static size add up to a `usize`.
pub open spec fn joinable(types: Seq<TypeMeta>) -> bool {
    forall|i: int|
        0 <= i <= types.len() && all_static(#[trigger] types.take(i)) ==> size_sum(types.take(i))
            <= usize::MAX
}

impl TypeMeta {
    /// Whether a value of the type can be used where it stands in the input.
    pub open spec fn is_zero_copy(self) -> bool {
        self matches TypeMeta::Static { zero_copy, .. } && zero_copy
    }

    /// The size of a zero-copy type.
    pub fn size_assert_zero_copy(self) -> (size: usize)
        requires
            self.is_zero_copy(),
        ensures
            self == (TypeMeta::Static { size, zero_copy: true }),
    {
        match self {
            TypeMeta::Static { size, .. } => size,
            TypeMeta::Dynamic => 0,
        }
    }

    /// The size of a type of static size.
    pub fn size_assert_static(self) -> (size: usize)
        requires
            self is Static,
        ensures
            self == (TypeMeta::Static { size, zero_copy: self->zero_copy }),
    {
        match self {
            TypeMeta::Static { size, .. } => size,
            TypeMeta::Dynamic => 0,
        }
    }

    /// See [`TypeMeta::keep_zero_copy`].
    pub open spec fn masked(self, keep_zero_copy: bool) -> TypeMeta {
        match self {
            TypeMeta::Static { size, zero_copy } => TypeMeta::Static {
                size,
                zero_copy: zero_copy && keep_zero_copy,
            },
            TypeMeta::Dynamic => TypeMeta::Dynamic,
        }
    }

    /// The same with `zero_copy` masked by `keep_zero_copy`: it may be cleared, and is never set.
    pub fn keep_zero_copy(self, keep_zero_copy: bool) -> (m: TypeMeta)
        ensures
            m == self.masked(keep_zero_copy),
    {
        match self {
            TypeMeta::Static { size, zero_copy } => TypeMeta::Static {
                size,
                zero_copy: zero_copy && keep_zero_copy,
            },
            TypeMeta::Dynamic => TypeMeta::Dynamic,
        }
    }

    /// What is known of values of `types` that stand one after the other: they have a static size
    /// if each of them has, namely the sum, and are eligible for zero-copy if each of them is.
    /// This says nothing of padding between them.
    pub fn join_types<const N: usize>(types: [TypeMeta; N]) -> (m: TypeMeta)
        requires
            joinable(types@),
        ensures
            m == joined(types@),
    {
        let mut acc_size: usize = 0;
        let mut all_zero: bool = true;
        let mut i: usize = 0;
        while i < N
            invariant
                i <= N,
                types@.len() == N,
                joinable(types@),
                acc_size == size_sum(types@.take(i as int)),
                all_static(types@.take(i as int)),
                all_zero == all_zero_copy(types@.take(i as int)),
            decreases N - i,
        {
            let ghost before = types@.take(i as int);
            let ghost after = types@.take(i + 1);
            proof {
                assert(after.drop_last() =~= before);
            }
            match types[i] {
                TypeMeta::Dynamic => {
                    proof {
                        assert(types@[i as int] is Dynamic);
                    }
                    return TypeMeta::Dynamic;
                },
                TypeMeta::Static { size, zero_copy } => {
                    proof {
                        assert(after.last() == types@[i as int]);
                        assert forall|j: int| 0 <= j < after.len() implies #[trigger] after[j] is Static by {
                            if j < i {
                                assert(before[j] is Static);
                            }
                        }
                        assert((all_zero && zero_copy) == all_zero_copy(after)) by {
                            assert(after[i as int]->zero_copy == zero_copy);
                            assert(forall|j: int| 0 <= j < i ==> after[j] == before[j]);
                            if all_zero_copy(after) {
                                assert forall|j: int| 0 <= j < before.len() implies (
                                #[trigger] before[j])->zero_copy by {
                                    assert(after[j]->zero_copy);
                                }
                            }
                        }
                    }
                    assert(size_sum(after) <= usize::MAX);
                    acc_size = acc_size + size;
                    all_zero = all_zero && zero_copy;
                },
            }
            i = i + 1;
        }
        proof {
            assert(types@.take(N as int) =~= types@);
        }
        TypeMeta::Static { size: acc_size, zero_copy: all_zero }
    }
}

/// Masking never makes a type eligible for zero-copy, keeps its size, and masking twice is masking
/// by both.
pub proof fn law_keep_zero_copy(m: TypeMeta, a: bool, b: bool)
    ensures
        m.masked(true) == m,
        !m.masked(false).is_zero_copy(),
        m.masked(a).is_zero_copy() ==> m.is_zero_copy(),
        m.masked(a) is Static <==> m is Static,
        m is Static ==> m.masked(a)->size == m->size,
        m.masked(a).masked(b) == m.masked(a && b),
{
}

/// Joining no types at all gives the size zero, and zero-copy.
pub proof fn law_join_nothing()
    ensures
        joined(Seq::empty()) == (TypeMeta::Static { size: 0, zero_copy: true }),
{
}

/// What is known of types one after the other does not depend on how they are grouped.
pub proof fn law_join_groups(a: Seq<TypeMeta>, b: Seq<TypeMeta>)
    requires
        size_sum(a + b) <= usize::MAX,
    ensures
        joined(a + b) == joined(seq![joined(a), joined(b)]),
{
    lemma_size_sum_concat(a, b);
    let s = a + b;
    assert(forall|i: int| 0 <= i < a.len() ==> s[i] == a[i]);
    assert(forall|i: int| 0 <= i < b.len() ==> s[a.len() + i] == b[i]);
    let p = seq![joined(a), joined(b)];
    reveal_with_fuel(size_sum, 3);
    assert(p.drop_last() =~= seq![joined(a)]);
    assert(p.drop_last().drop_last() =~= Seq::empty());
    assert(p[0] == joined(a) && p[1] == joined(b));
    if all_static(s) {
        assert forall|i: int| 0 <= i < a.len() implies #[trigger] a[i] is Static by {
            assert(s[i] is Static);
        }
        assert forall|i: int| 0 <= i < b.len() implies #[trigger] b[i] is Static by {
            assert(s[a.len() + i] is Static);
        }
        if all_zero_copy(s) {
            assert forall|i: int| 0 <= i < a.len() implies (#[trigger] a[i])->zero_copy by {
                assert(s[i]->zero_copy);
            }
            assert forall|i: int| 0 <= i < b.len() implies (#[trigger] b[i])->zero_copy by {
                assert(s[a.len() + i]->zero_copy);
            }
        }
        if all_zero_copy(p) {
            assert(p[0]->zero_copy && p[1]->zero_copy);
        }
    } else {
        if all_static(p) {
            assert(p[0] is Static && p[1] is Static);
            assert(all_static(s));
        }
    }
}

proof fn lemma_size_sum_concat(a: Seq<TypeMeta>, b: Seq<TypeMeta>)
    ensures
        size_sum(a + b) == size_sum(a) + size_sum(b),
    decreases b.len(),
{
    if b.len() == 0 {
        assert(a + b =~= a);
    } else {
        assert((a + b).drop_last() =~= a + b.drop_last());
        lemma_size_sum_concat(a, b.drop_last());
    }
}

} // verus!
