//! Sets: their length and then their elements.
use crate::config::{Config, ConfigCore};
use crate::error::{ReadResult, WriteError, WriteResult};
use crate::io::{Reader, Writer};
use crate::len::{limit_kept, SeqLen};
use crate::model::{Emit, Fault, Input};
use crate::schema::containers::decode::dst_vals;
use crate::schema::containers::keyed::{
    elem_dec, key_injective, lemma_elem_dec, made_of_elems, read_elem_seq, SetTarget,
};
use crate::schema::containers::policy::{AllowDuplicateKeys, DuplicateKeyPolicy};
use crate::schema::containers::set_rules::{
    dst_set_vals, lemma_dst_set_vals, lemma_set_emit, lemma_set_round_trip, lists,
    set_round_trips, set_valid, src_set_vals,
};
use crate::schema::elems::{
    iter_emit_checked, iter_size_err, size_of_elem_iter, write_elem_iter_prealloc_check,
};
use crate::schema::{Model, RoundTrip, SchemaRead, SchemaWrite, TypeMeta};
use core::hash::{BuildHasher, Hash};
use core::marker::PhantomData;
use std::collections::btree_set;
use std::collections::hash_map::RandomState;
use std::collections::hash_set;
use vstd::prelude::*;
use vstd::std_specs::btree;
use vstd::std_specs::hash;
use vstd::std_specs::iter::IteratorSpec;

verus! {

broadcast use {
    crate::model::lemma_follows_transitive,
    crate::model::lemma_follows_reflexive,
    crate::schema::elems::lemma_lent_refs,
    vstd::std_specs::hash::group_hash_axioms,
    vstd::std_specs::btree::group_btree_axioms,
};

/// The order in which a walk through `s` comes by its elements.
pub open spec fn hash_set_order<K, S>(s: &std::collections::HashSet<K, S>) -> Seq<K> {
    hash::into_iter_hash_keys(hash::spec_hash_keys_iter(s))
}

/// Whether elements are told apart as they should be.
pub open spec fn hash_set_model<K, S>() -> bool {
    hash::obeys_key_model::<K>() && hash::builds_valid_hashers::<S>()
}

/// A walk through the elements of `s`.
pub(crate) fn walk_hash_set<'a, K, S>(
    s: &'a std::collections::HashSet<K, S>,
) -> (it: hash_set::Iter<'a, K>)
    ensures
        it.obeys_prophetic_iter_laws(),
        hash_set_model::<K, S>() ==> {
            &&& it.remaining().unref() == hash_set_order(s)
            &&& lists(hash_set_order(s), s@)
            &&& hash_set_order(s).len() == s.len()
        },
{
    let it = s.iter();
    proof {
        walked_hash_set(s, it);
    }
    it
}

proof fn walked_hash_set<'a, K, S>(
    s: &'a std::collections::HashSet<K, S>,
    it: hash_set::Iter<'a, K>,
)
    ensures
        hash_set_model::<K, S>() && it == hash::spec_hash_keys_iter(s)
            && it.remaining().no_duplicates() && IteratorSpec::initial_value_relation(&it, &it)
            ==> {
            &&& it.remaining().unref() == hash_set_order(s)
            &&& lists(hash_set_order(s), s@)
            &&& hash_set_order(s).len() == s.len()
        },
{
    if hash_set_model::<K, S>() && it == hash::spec_hash_keys_iter(s)
        && it.remaining().no_duplicates() && IteratorSpec::initial_value_relation(&it, &it) {
        let ks = hash::spec_hash_keys_iter(s).remaining();
        let us = ks.unref();
        assert forall|i: int, j: int| 0 <= i < us.len() && 0 <= j < us.len() && i != j implies us[i]
            != us[j] by {
            assert(ks[i] != ks[j]);
        }
        assert(us.to_set() =~= s@);
        us.unique_seq_to_set();
    }
}

impl<K: Hash + Eq, S: BuildHasher + Default> SetTarget<K> for std::collections::HashSet<K, S> {
    open spec fn key_model() -> bool {
        hash_set_model::<K, S>()
    }

    open spec fn holds(&self, ks: Seq<K>) -> bool {
        self@ == ks.to_set()
    }

    fn empty_set() -> (s: Self) {
        let s: Self = std::collections::HashSet::default();
        proof {
            assert(s@ =~= Seq::<K>::empty().to_set());
        }
        s
    }

    fn put(&mut self, k: K) -> (collided: bool) {
        let fresh: bool = self.insert(k);
        proof {
            assert forall|ks: Seq<K>| #[trigger] old(self).holds(ks) && Self::key_model() implies {
                &&& final(self).holds(ks.push(k))
                &&& !fresh == ks.contains(k)
            } by {
                assert(ks.push(k).to_set() =~= ks.to_set().insert(k)) by {
                    assert forall|x: K| ks.push(k).to_set().contains(x) <==> ks.to_set().insert(
                        k,
                    ).contains(x) by {
                        if ks.to_set().contains(x) {
                            let i = ks.index_of(x);
                            assert(ks.push(k)[i] == x);
                        }
                        assert(ks.push(k)[ks.len() as int] == k);
                        if ks.push(k).to_set().contains(x) {
                            let i = ks.push(k).index_of(x);
                            if i < ks.len() {
                                assert(ks[i] == x);
                            }
                        }
                    }
                }
            }
        }
        !fresh
    }
}

/// A [`std::collections::HashSet`] with the length encoding `Len` and the policy `Dup` for
/// repeated elements: a set is keyed by the elements themselves.
pub struct HashSet<K, Len, Dup = AllowDuplicateKeys, S = RandomState>(
    PhantomData<(K, Len, Dup, S)>,
);

impl<K: Model, Len, Dup, S> Model for HashSet<K, Len, Dup, S> {
    type Val = Set<K::Val>;
}

impl<
    C: ConfigCore,
    K: SchemaWrite<C>,
    Len: SeqLen<C>,
    Dup,
    S: BuildHasher + Default,
> SchemaWrite<C> for HashSet<K, Len, Dup, S> {
    type Src = std::collections::HashSet<K::Src, S>;

    open spec fn src_val(src: &std::collections::HashSet<K::Src, S>) -> Set<K::Val> {
        src_set_vals::<K, C>(src@)
    }

    open spec fn emit(src: &std::collections::HashSet<K::Src, S>) -> Emit {
        iter_emit_checked::<K, Len, C>(hash_set_order(src), src.len() as nat)
    }

    /// A walk that comes by another number of elements than the set has leaves nothing to say.
    open spec fn size_err(src: &std::collections::HashSet<K::Src, S>) -> Option<WriteError> {
        if hash_set_order(src).len() == src.len() {
            iter_size_err::<K, Len, C>(hash_set_order(src), src.len() as nat)
        } else {
            None
        }
    }

    open spec fn write_meta() -> TypeMeta {
        TypeMeta::Dynamic
    }

    open spec fn write_lawful() -> bool {
        &&& K::write_lawful()
        &&& hash_set_model::<K::Src, S>()
    }

    proof fn lemma_emit(src: &std::collections::HashSet<K::Src, S>) {
        lemma_set_emit::<K, Len, C>(hash_set_order(src), src.len() as nat);
    }

    fn type_meta() -> (m: TypeMeta) {
        TypeMeta::Dynamic
    }

    fn size_of(src: &std::collections::HashSet<K::Src, S>) -> (r: WriteResult<usize>) {
        proof {
            lemma_set_emit::<K, Len, C>(hash_set_order(src), src.len() as nat);
        }
        let it = walk_hash_set(src);
        size_of_elem_iter::<K, Len, C, _, _>(src.len(), it)
    }

    /// Writing a set comes by each of its elements once.
    fn write<W: Writer>(
        writer: &mut W,
        src: &std::collections::HashSet<K::Src, S>,
    ) -> (r: WriteResult<()>)
        ensures
            limit_kept::<C, K::Src>(
                src.len() as nat,
                old(writer).output(),
                final(writer).output(),
                r,
            ),
            <Self as SchemaWrite<C>>::write_lawful() ==> {
                &&& lists(hash_set_order(src), src@)
                &&& hash_set_order(src).len() == src.len()
            },
    {
        let it = walk_hash_set(src);
        write_elem_iter_prealloc_check::<K, Len, C, W, _, _>(writer, src.len(), it)
    }
}

impl<
    'de,
    C: ConfigCore,
    K: SchemaRead<'de, C>,
    Len: SeqLen<C>,
    Dup: DuplicateKeyPolicy,
    S: BuildHasher + Default,
> SchemaRead<'de, C> for HashSet<K, Len, Dup, S> where
    K::Dst: Hash + Eq,
 {
    type Dst = std::collections::HashSet<K::Dst, S>;

    open spec fn dst_val(dst: &std::collections::HashSet<K::Dst, S>) -> Set<K::Val> {
        dst_set_vals::<K, C>(dst@)
    }

    open spec fn dec(inp: Input) -> Result<(Set<K::Val>, Input), Fault> {
        match elem_dec::<K, Len, Dup, C>(inp) {
            Ok((ks, rest)) => Ok((ks.to_set(), rest)),
            Err(e) => Err(e),
        }
    }

    open spec fn read_meta() -> TypeMeta {
        TypeMeta::Dynamic
    }

    open spec fn read_lawful() -> bool {
        &&& K::read_lawful()
        &&& key_injective::<K, C>()
        &&& hash_set_model::<K::Dst, S>()
    }

    proof fn lemma_dec(inp: Input) {
        lemma_elem_dec::<K, Len, Dup, C>(inp);
    }

    fn type_meta() -> (m: TypeMeta) {
        TypeMeta::Dynamic
    }

    fn get<R: Reader<'de>>(
        reader: &mut R,
    ) -> (r: ReadResult<std::collections::HashSet<K::Dst, S>>) {
        let r = read_elem_seq::<K, Len, Dup, C, R, std::collections::HashSet<K::Dst, S>>(reader);
        proof {
            if <Self as SchemaRead<'de, C>>::read_lawful() {
                if let Ok((ks, rest)) = elem_dec::<K, Len, Dup, C>(old(reader).input()) {
                    let s = r->Ok_0;
                    assert(made_of_elems::<K, C, std::collections::HashSet<K::Dst, S>>(s, ks));
                    let xs = choose|xs: Seq<K::Dst>| #[trigger]
                        s.holds(xs) && dst_vals::<K, C>(xs) == ks;
                    lemma_dst_set_vals::<K, C>(xs);
                }
            }
        }
        r
    }
}

impl<
    'de,
    C: ConfigCore,
    K: RoundTrip<'de, C>,
    Len: SeqLen<C>,
    Dup: DuplicateKeyPolicy,
    S: BuildHasher + Default,
> RoundTrip<'de, C> for HashSet<K, Len, Dup, S> where
    K::Dst: Hash + Eq,
 {
    open spec fn round_trips() -> bool {
        set_round_trips::<K, C>()
    }

    open spec fn src_valid(src: &std::collections::HashSet<K::Src, S>) -> bool {
        set_valid::<K, C>(hash_set_order(src), src@, src.len() as nat)
    }

    open spec fn needs_backing() -> bool {
        K::needs_backing()
    }

    proof fn lemma_round_trip(src: &std::collections::HashSet<K::Src, S>, rest: Input) {
        lemma_set_round_trip::<K, Len, Dup, C>(
            hash_set_order(src),
            src@,
            src.len() as nat,
            rest,
        );
    }
}

/// As [`HashSet`], with the length encoding of the configuration; elements may be repeated.
impl<K: Model, S> Model for std::collections::HashSet<K, S> {
    type Val = Set<K::Val>;
}

impl<
    C: Config,
    K: SchemaWrite<C>,
    S: BuildHasher + Default,
> SchemaWrite<C> for std::collections::HashSet<K, S> {
    type Src = std::collections::HashSet<K::Src, S>;

    open spec fn src_val(src: &std::collections::HashSet<K::Src, S>) -> Set<K::Val> {
        src_set_vals::<K, C>(src@)
    }

    open spec fn emit(src: &std::collections::HashSet<K::Src, S>) -> Emit {
        iter_emit_checked::<K, C::LengthEncoding, C>(hash_set_order(src), src.len() as nat)
    }

    /// A walk that comes by another number of elements than the set has leaves nothing to say.
    open spec fn size_err(src: &std::collections::HashSet<K::Src, S>) -> Option<WriteError> {
        if hash_set_order(src).len() == src.len() {
            iter_size_err::<K, C::LengthEncoding, C>(hash_set_order(src), src.len() as nat)
        } else {
            None
        }
    }

    open spec fn write_meta() -> TypeMeta {
        TypeMeta::Dynamic
    }

    open spec fn write_lawful() -> bool {
        &&& K::write_lawful()
        &&& hash_set_model::<K::Src, S>()
    }

    proof fn lemma_emit(src: &std::collections::HashSet<K::Src, S>) {
        lemma_set_emit::<K, C::LengthEncoding, C>(hash_set_order(src), src.len() as nat);
    }

    fn type_meta() -> (m: TypeMeta) {
        TypeMeta::Dynamic
    }

    fn size_of(src: &std::collections::HashSet<K::Src, S>) -> (r: WriteResult<usize>) {
        proof {
            lemma_set_emit::<K, C::LengthEncoding, C>(hash_set_order(src), src.len() as nat);
        }
        let it = walk_hash_set(src);
        size_of_elem_iter::<K, C::LengthEncoding, C, _, _>(src.len(), it)
    }

    /// Writing a set comes by each of its elements once.
    fn write<W: Writer>(
        writer: &mut W,
        src: &std::collections::HashSet<K::Src, S>,
    ) -> (r: WriteResult<()>)
        ensures
            limit_kept::<C, K::Src>(
                src.len() as nat,
                old(writer).output(),
                final(writer).output(),
                r,
            ),
            <Self as SchemaWrite<C>>::write_lawful() ==> {
                &&& lists(hash_set_order(src), src@)
                &&& hash_set_order(src).len() == src.len()
            },
    {
        let it = walk_hash_set(src);
        write_elem_iter_prealloc_check::<K, C::LengthEncoding, C, W, _, _>(writer, src.len(), it)
    }
}

impl<
    'de,
    C: Config,
    K: SchemaRead<'de, C>,
    S: BuildHasher + Default,
> SchemaRead<'de, C> for std::collections::HashSet<K, S> where
    K::Dst: Hash + Eq,
 {
    type Dst = std::collections::HashSet<K::Dst, S>;

    open spec fn dst_val(dst: &std::collections::HashSet<K::Dst, S>) -> Set<K::Val> {
        dst_set_vals::<K, C>(dst@)
    }

    open spec fn dec(inp: Input) -> Result<(Set<K::Val>, Input), Fault> {
        match elem_dec::<K, C::LengthEncoding, AllowDuplicateKeys, C>(inp) {
            Ok((ks, rest)) => Ok((ks.to_set(), rest)),
            Err(e) => Err(e),
        }
    }

    open spec fn read_meta() -> TypeMeta {
        TypeMeta::Dynamic
    }

    open spec fn read_lawful() -> bool {
        &&& K::read_lawful()
        &&& key_injective::<K, C>()
        &&& hash_set_model::<K::Dst, S>()
    }

    proof fn lemma_dec(inp: Input) {
        lemma_elem_dec::<K, C::LengthEncoding, AllowDuplicateKeys, C>(inp);
    }

    fn type_meta() -> (m: TypeMeta) {
        TypeMeta::Dynamic
    }

    fn get<R: Reader<'de>>(
        reader: &mut R,
    ) -> (r: ReadResult<std::collections::HashSet<K::Dst, S>>) {
        let r = read_elem_seq::<K, C::LengthEncoding, AllowDuplicateKeys, C, R, std::collections::HashSet<K::Dst, S>>(reader);
        proof {
            if <Self as SchemaRead<'de, C>>::read_lawful() {
                if let Ok((ks, rest)) = elem_dec::<K, C::LengthEncoding, AllowDuplicateKeys, C>(
                    old(reader).input(),
                ) {
                    let s = r->Ok_0;
                    assert(made_of_elems::<K, C, std::collections::HashSet<K::Dst, S>>(s, ks));
                    let xs = choose|xs: Seq<K::Dst>| #[trigger]
                        s.holds(xs) && dst_vals::<K, C>(xs) == ks;
                    lemma_dst_set_vals::<K, C>(xs);
                }
            }
        }
        r
    }
}

impl<
    'de,
    C: Config,
    K: RoundTrip<'de, C>,
    S: BuildHasher + Default,
> RoundTrip<'de, C> for std::collections::HashSet<K, S> where
    K::Dst: Hash + Eq,
 {
    open spec fn round_trips() -> bool {
        set_round_trips::<K, C>()
    }

    open spec fn src_valid(src: &std::collections::HashSet<K::Src, S>) -> bool {
        set_valid::<K, C>(hash_set_order(src), src@, src.len() as nat)
    }

    open spec fn needs_backing() -> bool {
        K::needs_backing()
    }

    proof fn lemma_round_trip(src: &std::collections::HashSet<K::Src, S>, rest: Input) {
        lemma_set_round_trip::<K, C::LengthEncoding, AllowDuplicateKeys, C>(
            hash_set_order(src),
            src@,
            src.len() as nat,
            rest,
        );
    }
}

/// The order in which a walk through `s` comes by its elements.
pub open spec fn btree_set_order<K>(s: &std::collections::BTreeSet<K>) -> Seq<K> {
    btree::into_iter_btree_keys(btree::spec_btree_keys_iter(s))
}

/// Whether `ks` are in ascending order.
pub open spec fn ascending<K>(ks: Seq<K>) -> bool {
    exists|refs: Seq<&K>| refs.unref() == ks && #[trigger] btree::increasing_seq(refs)
}

/// Whether elements are told apart as they should be.
pub open spec fn btree_set_model<K>() -> bool {
    btree::key_obeys_cmp_spec::<K>()
}

/// A walk through the elements of `s`.
pub(crate) fn walk_btree_set<'a, K>(
    s: &'a std::collections::BTreeSet<K>,
) -> (it: btree_set::Iter<'a, K>)
    ensures
        it.obeys_prophetic_iter_laws(),
        btree_set_model::<K>() ==> {
            &&& it.remaining().unref() == btree_set_order(s)
            &&& lists(btree_set_order(s), s@)
            &&& ascending(btree_set_order(s))
            &&& btree_set_order(s).len() == s.len()
        },
{
    let it = s.iter();
    proof {
        walked_btree_set(s, it);
    }
    it
}

proof fn walked_btree_set<'a, K>(s: &'a std::collections::BTreeSet<K>, it: btree_set::Iter<'a, K>)
    ensures
        btree_set_model::<K>() && it == btree::spec_btree_keys_iter(s)
            && it.remaining().no_duplicates() && IteratorSpec::initial_value_relation(&it, &it)
            ==> {
            &&& it.remaining().unref() == btree_set_order(s)
            &&& lists(btree_set_order(s), s@)
            &&& ascending(btree_set_order(s))
            &&& btree_set_order(s).len() == s.len()
        },
{
    if btree_set_model::<K>() && it == btree::spec_btree_keys_iter(s)
        && it.remaining().no_duplicates() && IteratorSpec::initial_value_relation(&it, &it) {
        let ks = btree::spec_btree_keys_iter(s).remaining();
        let us = ks.unref();
        assert forall|i: int, j: int| 0 <= i < us.len() && 0 <= j < us.len() && i != j implies us[i]
            != us[j] by {
            assert(ks[i] != ks[j]);
        }
        assert(us.to_set() =~= s@);
        us.unique_seq_to_set();
    }
}

impl<K: Ord> SetTarget<K> for std::collections::BTreeSet<K> {
    open spec fn key_model() -> bool {
        btree_set_model::<K>()
    }

    open spec fn holds(&self, ks: Seq<K>) -> bool {
        self@ == ks.to_set()
    }

    fn empty_set() -> (s: Self) {
        let s: Self = std::collections::BTreeSet::new();
        proof {
            assert(s@ =~= Seq::<K>::empty().to_set());
        }
        s
    }

    fn put(&mut self, k: K) -> (collided: bool) {
        let fresh: bool = self.insert(k);
        proof {
            assert forall|ks: Seq<K>| #[trigger] old(self).holds(ks) && Self::key_model() implies {
                &&& final(self).holds(ks.push(k))
                &&& !fresh == ks.contains(k)
            } by {
                assert(ks.push(k).to_set() =~= ks.to_set().insert(k)) by {
                    assert forall|x: K| ks.push(k).to_set().contains(x) <==> ks.to_set().insert(
                        k,
                    ).contains(x) by {
                        if ks.to_set().contains(x) {
                            let i = ks.index_of(x);
                            assert(ks.push(k)[i] == x);
                        }
                        assert(ks.push(k)[ks.len() as int] == k);
                        if ks.push(k).to_set().contains(x) {
                            let i = ks.push(k).index_of(x);
                            if i < ks.len() {
                                assert(ks[i] == x);
                            }
                        }
                    }
                }
            }
        }
        !fresh
    }
}

/// A [`std::collections::BTreeSet`] with the length encoding `Len` and the policy `Dup` for
/// repeated elements.
pub struct BTreeSet<K, Len, Dup = AllowDuplicateKeys>(PhantomData<(K, Len, Dup)>);

impl<K: Model, Len, Dup> Model for BTreeSet<K, Len, Dup> {
    type Val = Set<K::Val>;
}

impl<
    C: ConfigCore,
    K: SchemaWrite<C>,
    Len: SeqLen<C>,
    Dup,
> SchemaWrite<C> for BTreeSet<K, Len, Dup> {
    type Src = std::collections::BTreeSet<K::Src>;

    open spec fn src_val(src: &std::collections::BTreeSet<K::Src>) -> Set<K::Val> {
        src_set_vals::<K, C>(src@)
    }

    open spec fn emit(src: &std::collections::BTreeSet<K::Src>) -> Emit {
        iter_emit_checked::<K, Len, C>(btree_set_order(src), src.len() as nat)
    }

    /// A walk that comes by another number of elements than the set has leaves nothing to say.
    open spec fn size_err(src: &std::collections::BTreeSet<K::Src>) -> Option<WriteError> {
        if btree_set_order(src).len() == src.len() {
            iter_size_err::<K, Len, C>(btree_set_order(src), src.len() as nat)
        } else {
            None
        }
    }

    open spec fn write_meta() -> TypeMeta {
        TypeMeta::Dynamic
    }

    open spec fn write_lawful() -> bool {
        &&& K::write_lawful()
        &&& btree_set_model::<K::Src>()
    }

    proof fn lemma_emit(src: &std::collections::BTreeSet<K::Src>) {
        lemma_set_emit::<K, Len, C>(btree_set_order(src), src.len() as nat);
    }

    fn type_meta() -> (m: TypeMeta) {
        TypeMeta::Dynamic
    }

    fn size_of(src: &std::collections::BTreeSet<K::Src>) -> (r: WriteResult<usize>) {
        proof {
            lemma_set_emit::<K, Len, C>(btree_set_order(src), src.len() as nat);
        }
        let it = walk_btree_set(src);
        size_of_elem_iter::<K, Len, C, _, _>(src.len(), it)
    }

    /// Writing a set comes by each of its elements once, in ascending order.
    fn write<W: Writer>(
        writer: &mut W,
        src: &std::collections::BTreeSet<K::Src>,
    ) -> (r: WriteResult<()>)
        ensures
            limit_kept::<C, K::Src>(
                src.len() as nat,
                old(writer).output(),
                final(writer).output(),
                r,
            ),
            <Self as SchemaWrite<C>>::write_lawful() ==> {
                &&& lists(btree_set_order(src), src@)
                &&& ascending(btree_set_order(src))
                &&& btree_set_order(src).len() == src.len()
            },
    {
        let it = walk_btree_set(src);
        write_elem_iter_prealloc_check::<K, Len, C, W, _, _>(writer, src.len(), it)
    }
}

impl<
    'de,
    C: ConfigCore,
    K: SchemaRead<'de, C>,
    Len: SeqLen<C>,
    Dup: DuplicateKeyPolicy,
> SchemaRead<'de, C> for BTreeSet<K, Len, Dup> where
    K::Dst: Ord,
 {
    type Dst = std::collections::BTreeSet<K::Dst>;

    open spec fn dst_val(dst: &std::collections::BTreeSet<K::Dst>) -> Set<K::Val> {
        dst_set_vals::<K, C>(dst@)
    }

    open spec fn dec(inp: Input) -> Result<(Set<K::Val>, Input), Fault> {
        match elem_dec::<K, Len, Dup, C>(inp) {
            Ok((ks, rest)) => Ok((ks.to_set(), rest)),
            Err(e) => Err(e),
        }
    }

    open spec fn read_meta() -> TypeMeta {
        TypeMeta::Dynamic
    }

    open spec fn read_lawful() -> bool {
        &&& K::read_lawful()
        &&& key_injective::<K, C>()
        &&& btree_set_model::<K::Dst>()
    }

    proof fn lemma_dec(inp: Input) {
        lemma_elem_dec::<K, Len, Dup, C>(inp);
    }

    fn type_meta() -> (m: TypeMeta) {
        TypeMeta::Dynamic
    }

    fn get<R: Reader<'de>>(reader: &mut R) -> (r: ReadResult<std::collections::BTreeSet<K::Dst>>) {
        let r = read_elem_seq::<K, Len, Dup, C, R, std::collections::BTreeSet<K::Dst>>(reader);
        proof {
            if <Self as SchemaRead<'de, C>>::read_lawful() {
                if let Ok((ks, rest)) = elem_dec::<K, Len, Dup, C>(old(reader).input()) {
                    let s = r->Ok_0;
                    assert(made_of_elems::<K, C, std::collections::BTreeSet<K::Dst>>(s, ks));
                    let xs = choose|xs: Seq<K::Dst>| #[trigger]
                        s.holds(xs) && dst_vals::<K, C>(xs) == ks;
                    lemma_dst_set_vals::<K, C>(xs);
                }
            }
        }
        r
    }
}

impl<
    'de,
    C: ConfigCore,
    K: RoundTrip<'de, C>,
    Len: SeqLen<C>,
    Dup: DuplicateKeyPolicy,
> RoundTrip<'de, C> for BTreeSet<K, Len, Dup> where
    K::Dst: Ord,
 {
    open spec fn round_trips() -> bool {
        set_round_trips::<K, C>()
    }

    open spec fn src_valid(src: &std::collections::BTreeSet<K::Src>) -> bool {
        set_valid::<K, C>(btree_set_order(src), src@, src.len() as nat)
    }

    open spec fn needs_backing() -> bool {
        K::needs_backing()
    }

    proof fn lemma_round_trip(src: &std::collections::BTreeSet<K::Src>, rest: Input) {
        lemma_set_round_trip::<K, Len, Dup, C>(
            btree_set_order(src),
            src@,
            src.len() as nat,
            rest,
        );
    }
}

/// As [`BTreeSet`], with the length encoding of the configuration; elements may be repeated.
impl<K: Model> Model for std::collections::BTreeSet<K> {
    type Val = Set<K::Val>;
}

impl<C: Config, K: SchemaWrite<C>> SchemaWrite<C> for std::collections::BTreeSet<K> {
    type Src = std::collections::BTreeSet<K::Src>;

    open spec fn src_val(src: &std::collections::BTreeSet<K::Src>) -> Set<K::Val> {
        src_set_vals::<K, C>(src@)
    }

    open spec fn emit(src: &std::collections::BTreeSet<K::Src>) -> Emit {
        iter_emit_checked::<K, C::LengthEncoding, C>(btree_set_order(src), src.len() as nat)
    }

    /// A walk that comes by another number of elements than the set has leaves nothing to say.
    open spec fn size_err(src: &std::collections::BTreeSet<K::Src>) -> Option<WriteError> {
        if btree_set_order(src).len() == src.len() {
            iter_size_err::<K, C::LengthEncoding, C>(btree_set_order(src), src.len() as nat)
        } else {
            None
        }
    }

    open spec fn write_meta() -> TypeMeta {
        TypeMeta::Dynamic
    }

    open spec fn write_lawful() -> bool {
        &&& K::write_lawful()
        &&& btree_set_model::<K::Src>()
    }

    proof fn lemma_emit(src: &std::collections::BTreeSet<K::Src>) {
        lemma_set_emit::<K, C::LengthEncoding, C>(btree_set_order(src), src.len() as nat);
    }

    fn type_meta() -> (m: TypeMeta) {
        TypeMeta::Dynamic
    }

    fn size_of(src: &std::collections::BTreeSet<K::Src>) -> (r: WriteResult<usize>) {
        proof {
            lemma_set_emit::<K, C::LengthEncoding, C>(btree_set_order(src), src.len() as nat);
        }
        let it = walk_btree_set(src);
        size_of_elem_iter::<K, C::LengthEncoding, C, _, _>(src.len(), it)
    }

    /// Writing a set comes by each of its elements once, in ascending order.
    fn write<W: Writer>(
        writer: &mut W,
        src: &std::collections::BTreeSet<K::Src>,
    ) -> (r: WriteResult<()>)
        ensures
            limit_kept::<C, K::Src>(
                src.len() as nat,
                old(writer).output(),
                final(writer).output(),
                r,
            ),
            <Self as SchemaWrite<C>>::write_lawful() ==> {
                &&& lists(btree_set_order(src), src@)
                &&& ascending(btree_set_order(src))
                &&& btree_set_order(src).len() == src.len()
            },
    {
        let it = walk_btree_set(src);
        write_elem_iter_prealloc_check::<K, C::LengthEncoding, C, W, _, _>(writer, src.len(), it)
    }
}

impl<
    'de,
    C: Config,
    K: SchemaRead<'de, C>,
> SchemaRead<'de, C> for std::collections::BTreeSet<K> where
    K::Dst: Ord,
 {
    type Dst = std::collections::BTreeSet<K::Dst>;

    open spec fn dst_val(dst: &std::collections::BTreeSet<K::Dst>) -> Set<K::Val> {
        dst_set_vals::<K, C>(dst@)
    }

    open spec fn dec(inp: Input) -> Result<(Set<K::Val>, Input), Fault> {
        match elem_dec::<K, C::LengthEncoding, AllowDuplicateKeys, C>(inp) {
            Ok((ks, rest)) => Ok((ks.to_set(), rest)),
            Err(e) => Err(e),
        }
    }

    open spec fn read_meta() -> TypeMeta {
        TypeMeta::Dynamic
    }

    open spec fn read_lawful() -> bool {
        &&& K::read_lawful()
        &&& key_injective::<K, C>()
        &&& btree_set_model::<K::Dst>()
    }

    proof fn lemma_dec(inp: Input) {
        lemma_elem_dec::<K, C::LengthEncoding, AllowDuplicateKeys, C>(inp);
    }

    fn type_meta() -> (m: TypeMeta) {
        TypeMeta::Dynamic
    }

    fn get<R: Reader<'de>>(reader: &mut R) -> (r: ReadResult<std::collections::BTreeSet<K::Dst>>) {
        let r = read_elem_seq::<K, C::LengthEncoding, AllowDuplicateKeys, C, R, std::collections::BTreeSet<K::Dst>>(reader);
        proof {
            if <Self as SchemaRead<'de, C>>::read_lawful() {
                if let Ok((ks, rest)) = elem_dec::<K, C::LengthEncoding, AllowDuplicateKeys, C>(
                    old(reader).input(),
                ) {
                    let s = r->Ok_0;
                    assert(made_of_elems::<K, C, std::collections::BTreeSet<K::Dst>>(s, ks));
                    let xs = choose|xs: Seq<K::Dst>| #[trigger]
                        s.holds(xs) && dst_vals::<K, C>(xs) == ks;
                    lemma_dst_set_vals::<K, C>(xs);
                }
            }
        }
        r
    }
}

impl<'de, C: Config, K: RoundTrip<'de, C>> RoundTrip<'de, C> for std::collections::BTreeSet<K> where
    K::Dst: Ord,
 {
    open spec fn round_trips() -> bool {
        set_round_trips::<K, C>()
    }

    open spec fn src_valid(src: &std::collections::BTreeSet<K::Src>) -> bool {
        set_valid::<K, C>(btree_set_order(src), src@, src.len() as nat)
    }

    open spec fn needs_backing() -> bool {
        K::needs_backing()
    }

    proof fn lemma_round_trip(src: &std::collections::BTreeSet<K::Src>, rest: Input) {
        lemma_set_round_trip::<K, C::LengthEncoding, AllowDuplicateKeys, C>(
            btree_set_order(src),
            src@,
            src.len() as nat,
            rest,
        );
    }
}

} // verus!
