//! The collections of the standard library and of `indexmap`, as collections that can be walked
//! through and gathered.
use crate::config::ConfigCore;
use crate::error::WriteResult;
use crate::io::Writer;
use crate::len::SeqLen;
use crate::model::Input;
use crate::schema::containers::decode::{all_valid, dst_vals, src_vals};
use crate::schema::containers::iter::{Gather, Walk, WalkPairs};
use crate::schema::containers::keyed::{
    entry_vals, enumerates, key_injective, lemma_map_vals, map_of, map_vals, MapTarget, SetTarget,
};
use crate::schema::containers::map_rules::{
    lemma_src_map_vals, src_entry_vals, src_key_injective, src_map_vals,
};
use crate::schema::containers::maps::{
    ascending_keys, btree_map_model, btree_map_order, hash_map_model, hash_map_order,
    walk_btree_map, walk_hash_map,
};
use crate::schema::containers::seq::{deque_from_vec, lemma_seq_round_trip, seq_round_trips};
use crate::schema::containers::set_rules::{
    dst_set_vals, lemma_dst_set_vals, lemma_src_set_vals, lists, src_set_vals,
};
use crate::schema::containers::sets::{
    ascending, btree_set_model, btree_set_order, hash_set_model, hash_set_order, walk_btree_set,
    walk_hash_set,
};
use crate::schema::containers::walked::{
    size_of_walked, size_of_walked_pairs, write_walked, write_walked_pairs, ReadItems,
    RoundTripItems, WriteItems,
};
use crate::schema::external::ordered::{index_model, OrderedMap, OrderedSet};
use crate::schema::external::ordered_rules::{
    distinct_keys, in_order, law_distinct_elements_keep_their_order,
    law_distinct_entries_keep_their_order, lemma_in_order_vals, lemma_set_in_order_vals,
    set_in_order,
};
use crate::schema::external::ordered_schema::{walk_map, walk_set};
use crate::schema::{RoundTrip, SchemaRead, SchemaWrite};
use core::hash::{BuildHasher, Hash};
use vstd::prelude::*;
use vstd::std_specs::iter::IteratorSpec;

verus! {

broadcast use {
    vstd::std_specs::hash::group_hash_axioms,
    vstd::std_specs::btree::group_btree_axioms,
};

/// The first `n` items that an iterator yields.
pub(crate) fn first_of<X, I: Iterator<Item = X>>(it: I, n: usize) -> (v: Vec<X>)
    requires
        it.obeys_prophetic_iter_laws(),
    ensures
        v@ == it.remaining().take(
            if n <= it.remaining().len() {
                n as int
            } else {
                it.remaining().len() as int
            },
        ),
{
    let mut rest = it;
    let mut v: Vec<X> = Vec::new();
    while v.len() < n
        invariant
            v@.len() <= n,
            rest.obeys_prophetic_iter_laws(),
            v@ + rest.remaining() == it.remaining(),
        decreases n - v@.len(),
    {
        let ghost left = rest.remaining();
        let ghost had = v@;
        match rest.next() {
            None => {
                proof {
                    assert(v@ + rest.remaining() =~= v@);
                }
                return v;
            },
            Some(x) => {
                v.push(x);
                proof {
                    assert(had + left =~= v@ + left.drop_first());
                }
            },
        }
    }
    v
}

/// Puts what an iterator yields into an empty collection in turn.
fn put_all<K, S: SetTarget<K>, I: Iterator<Item = K>>(it: I) -> (s: S)
    requires
        it.obeys_prophetic_iter_laws(),
        it.decrease() is Some,
    ensures
        S::key_model() ==> s.holds(it.remaining()),
{
    let mut rest = it;
    let mut s = S::empty_set();
    let ghost mut done: Seq<K> = Seq::empty();
    loop
        invariant
            rest.obeys_prophetic_iter_laws(),
            rest.decrease() is Some,
            done + rest.remaining() == it.remaining(),
            S::key_model() ==> s.holds(done),
        decreases rest.decrease()->0,
    {
        let ghost left = rest.remaining();
        match rest.next() {
            None => {
                proof {
                    assert(done =~= it.remaining());
                }
                return s;
            },
            Some(k) => {
                s.put(k);
                proof {
                    assert(done + left =~= done.push(k) + left.drop_first());
                    done = done.push(k);
                }
            },
        }
    }
}

/// Puts what an iterator yields into an empty collection in turn.
fn put_all_pairs<K, V, M: MapTarget<K, V>, I: Iterator<Item = (K, V)>>(it: I) -> (m: M)
    requires
        it.obeys_prophetic_iter_laws(),
        it.decrease() is Some,
    ensures
        M::key_model() ==> m.holds(it.remaining()),
{
    let mut rest = it;
    let mut m = M::empty_map();
    let ghost mut done: Seq<(K, V)> = Seq::empty();
    loop
        invariant
            rest.obeys_prophetic_iter_laws(),
            rest.decrease() is Some,
            done + rest.remaining() == it.remaining(),
            M::key_model() ==> m.holds(done),
        decreases rest.decrease()->0,
    {
        let ghost left = rest.remaining();
        match rest.next() {
            None => {
                proof {
                    assert(done =~= it.remaining());
                }
                return m;
            },
            Some((k, v)) => {
                m.put(k, v);
                proof {
                    assert(done + left =~= done.push((k, v)) + left.drop_first());
                    done = done.push((k, v));
                }
            },
        }
    }
}

/// The values of pairs are the pairs of values.
proof fn lemma_dst_pairs<'de, K: SchemaRead<'de, C>, V: SchemaRead<'de, C>, C: ConfigCore>(
    xs: Seq<(K::Dst, V::Dst)>,
)
    ensures
        dst_vals::<(K, V), C>(xs) == entry_vals::<K, V, C>(xs),
{
    assert(dst_vals::<(K, V), C>(xs) =~= entry_vals::<K, V, C>(xs));
}

/// The values of pairs are the pairs of values.
proof fn lemma_src_pairs<K: SchemaWrite<C>, V: SchemaWrite<C>, C: ConfigCore>(
    xs: Seq<(K::Src, V::Src)>,
)
    ensures
        src_vals::<(K, V), C>(xs) == src_entry_vals::<K, V, C>(xs),
{
    assert(src_vals::<(K, V), C>(xs) =~= src_entry_vals::<K, V, C>(xs));
}

impl<T> Walk for Vec<T> {
    type Item = T;

    open spec fn walk_lawful() -> bool {
        true
    }

    open spec fn items(&self) -> Seq<T> {
        self@
    }

    open spec fn walks_all(&self) -> bool {
        true
    }

    fn walk(&self) -> (refs: Vec<&T>) {
        let refs = first_of(self.iter(), self.len());
        proof {
            assert(refs@.unref() =~= self@);
        }
        refs
    }
}

impl<T> Gather<T> for Vec<T> {
    type Made = Seq<T>;

    open spec fn lawful() -> bool {
        true
    }

    open spec fn made_of(items: Seq<T>) -> Seq<T> {
        items
    }

    open spec fn made(&self) -> Seq<T> {
        self@
    }

    fn gather(items: Vec<T>) -> (coll: Vec<T>) {
        items
    }
}

impl<C: ConfigCore, T: SchemaWrite<C>> WriteItems<C> for Vec<T> {
    type Item = T;

    type Written = Vec<T::Src>;

    open spec fn walk_ok() -> bool {
        true
    }

    open spec fn items_of(coll: &Vec<T::Src>) -> Seq<T::Src> {
        coll@
    }

    open spec fn lists_all(coll: &Vec<T::Src>) -> bool {
        true
    }

    open spec fn written_val(coll: &Vec<T::Src>) -> Seq<T::Val> {
        src_vals::<T, C>(coll@)
    }

    fn size_items<Len: SeqLen<C>>(coll: &Vec<T::Src>) -> (r: WriteResult<usize>) {
        size_of_walked::<T, Len, C, Vec<T::Src>>(coll)
    }

    fn write_items<Len: SeqLen<C>, W: Writer>(
        writer: &mut W,
        coll: &Vec<T::Src>,
    ) -> (r: WriteResult<()>) {
        write_walked::<T, Len, C, W, Vec<T::Src>>(writer, coll)
    }
}

impl<'de, C: ConfigCore, T: SchemaRead<'de, C>> ReadItems<'de, C> for Vec<T> {
    type Item = T;

    type Gathered = Vec<T::Dst>;

    open spec fn gather_ok() -> bool {
        true
    }

    open spec fn val_of(vals: Seq<T::Val>) -> Seq<T::Val> {
        vals
    }

    open spec fn gathered_val(coll: &Vec<T::Dst>) -> Seq<T::Val> {
        dst_vals::<T, C>(coll@)
    }

    fn from_items(items: Vec<T::Dst>) -> (coll: Vec<T::Dst>) {
        <Vec<T::Dst> as Gather<T::Dst>>::gather(items)
    }
}

impl<'de, C: ConfigCore, T: RoundTrip<'de, C>> RoundTripItems<'de, C> for Vec<T> {
    open spec fn items_round_trip() -> bool {
        seq_round_trips::<T, C>()
    }

    open spec fn items_valid(coll: &Vec<T::Src>) -> bool {
        all_valid::<T, C>(coll@) && coll@.len() <= usize::MAX
    }

    open spec fn items_need_backing() -> bool {
        T::needs_backing()
    }

    proof fn lemma_items_round_trip<Len: SeqLen<C>>(coll: &Vec<T::Src>, rest: Input) {
        lemma_seq_round_trip::<T, Len, C>(coll@, rest);
    }
}

impl<T> Walk for std::collections::VecDeque<T> {
    type Item = T;

    open spec fn walk_lawful() -> bool {
        true
    }

    open spec fn items(&self) -> Seq<T> {
        self@
    }

    open spec fn walks_all(&self) -> bool {
        true
    }

    fn walk(&self) -> (refs: Vec<&T>) {
        let refs = first_of(self.iter(), self.len());
        proof {
            assert(refs@.unref() =~= self@);
        }
        refs
    }
}

impl<T> Gather<T> for std::collections::VecDeque<T> {
    type Made = Seq<T>;

    open spec fn lawful() -> bool {
        true
    }

    open spec fn made_of(items: Seq<T>) -> Seq<T> {
        items
    }

    open spec fn made(&self) -> Seq<T> {
        self@
    }

    fn gather(items: Vec<T>) -> (coll: std::collections::VecDeque<T>) {
        deque_from_vec(items)
    }
}

impl<C: ConfigCore, T: SchemaWrite<C>> WriteItems<C> for std::collections::VecDeque<T> {
    type Item = T;

    type Written = std::collections::VecDeque<T::Src>;

    open spec fn walk_ok() -> bool {
        true
    }

    open spec fn items_of(coll: &std::collections::VecDeque<T::Src>) -> Seq<T::Src> {
        coll@
    }

    open spec fn lists_all(coll: &std::collections::VecDeque<T::Src>) -> bool {
        true
    }

    open spec fn written_val(coll: &std::collections::VecDeque<T::Src>) -> Seq<T::Val> {
        src_vals::<T, C>(coll@)
    }

    fn size_items<Len: SeqLen<C>>(
        coll: &std::collections::VecDeque<T::Src>,
    ) -> (r: WriteResult<usize>) {
        size_of_walked::<T, Len, C, std::collections::VecDeque<T::Src>>(coll)
    }

    fn write_items<Len: SeqLen<C>, W: Writer>(
        writer: &mut W,
        coll: &std::collections::VecDeque<T::Src>,
    ) -> (r: WriteResult<()>) {
        write_walked::<T, Len, C, W, std::collections::VecDeque<T::Src>>(writer, coll)
    }
}

impl<
    'de,
    C: ConfigCore,
    T: SchemaRead<'de, C>,
> ReadItems<'de, C> for std::collections::VecDeque<T> {
    type Item = T;

    type Gathered = std::collections::VecDeque<T::Dst>;

    open spec fn gather_ok() -> bool {
        true
    }

    open spec fn val_of(vals: Seq<T::Val>) -> Seq<T::Val> {
        vals
    }

    open spec fn gathered_val(coll: &std::collections::VecDeque<T::Dst>) -> Seq<T::Val> {
        dst_vals::<T, C>(coll@)
    }

    fn from_items(items: Vec<T::Dst>) -> (coll: std::collections::VecDeque<T::Dst>) {
        <std::collections::VecDeque<T::Dst> as Gather<T::Dst>>::gather(items)
    }
}

impl<
    'de,
    C: ConfigCore,
    T: RoundTrip<'de, C>,
> RoundTripItems<'de, C> for std::collections::VecDeque<T> {
    open spec fn items_round_trip() -> bool {
        seq_round_trips::<T, C>()
    }

    open spec fn items_valid(coll: &std::collections::VecDeque<T::Src>) -> bool {
        all_valid::<T, C>(coll@) && coll@.len() <= usize::MAX
    }

    open spec fn items_need_backing() -> bool {
        T::needs_backing()
    }

    proof fn lemma_items_round_trip<Len: SeqLen<C>>(
        coll: &std::collections::VecDeque<T::Src>,
        rest: Input,
    ) {
        lemma_seq_round_trip::<T, Len, C>(coll@, rest);
    }
}

impl<K, S> Walk for std::collections::HashSet<K, S> {
    type Item = K;

    open spec fn walk_lawful() -> bool {
        hash_set_model::<K, S>()
    }

    open spec fn items(&self) -> Seq<K> {
        hash_set_order(self)
    }

    open spec fn walks_all(&self) -> bool {
        lists(hash_set_order(self), self@) && hash_set_order(self).len() == self.len()
    }

    fn walk(&self) -> (refs: Vec<&K>) {
        let it = walk_hash_set(self);
        first_of(it, self.len())
    }
}

impl<K: Hash + Eq, S: BuildHasher + Default> Gather<K> for std::collections::HashSet<K, S> {
    type Made = Set<K>;

    open spec fn lawful() -> bool {
        hash_set_model::<K, S>()
    }

    open spec fn made_of(items: Seq<K>) -> Set<K> {
        items.to_set()
    }

    open spec fn made(&self) -> Set<K> {
        self@
    }

    fn gather(items: Vec<K>) -> (coll: std::collections::HashSet<K, S>) {
        put_all::<K, std::collections::HashSet<K, S>, std::vec::IntoIter<K>>(items.into_iter())
    }
}

impl<C: ConfigCore, K: SchemaWrite<C>, S> WriteItems<C> for std::collections::HashSet<K, S> {
    type Item = K;

    type Written = std::collections::HashSet<K::Src, S>;

    open spec fn walk_ok() -> bool {
        hash_set_model::<K::Src, S>()
    }

    open spec fn items_of(coll: &std::collections::HashSet<K::Src, S>) -> Seq<K::Src> {
        hash_set_order(coll)
    }

    open spec fn lists_all(coll: &std::collections::HashSet<K::Src, S>) -> bool {
        lists(hash_set_order(coll), coll@) && hash_set_order(coll).len() == coll.len()
    }

    open spec fn written_val(coll: &std::collections::HashSet<K::Src, S>) -> Set<K::Val> {
        src_set_vals::<K, C>(coll@)
    }

    fn size_items<Len: SeqLen<C>>(
        coll: &std::collections::HashSet<K::Src, S>,
    ) -> (r: WriteResult<usize>) {
        size_of_walked::<K, Len, C, std::collections::HashSet<K::Src, S>>(coll)
    }

    fn write_items<Len: SeqLen<C>, W: Writer>(
        writer: &mut W,
        coll: &std::collections::HashSet<K::Src, S>,
    ) -> (r: WriteResult<()>) {
        write_walked::<K, Len, C, W, std::collections::HashSet<K::Src, S>>(writer, coll)
    }
}

impl<
    'de,
    C: ConfigCore,
    K: SchemaRead<'de, C>,
    S: BuildHasher + Default,
> ReadItems<'de, C> for std::collections::HashSet<K, S> where
    K::Dst: Hash + Eq,
 {
    type Item = K;

    type Gathered = std::collections::HashSet<K::Dst, S>;

    open spec fn gather_ok() -> bool {
        hash_set_model::<K::Dst, S>()
    }

    open spec fn val_of(vals: Seq<K::Val>) -> Set<K::Val> {
        vals.to_set()
    }

    open spec fn gathered_val(coll: &std::collections::HashSet<K::Dst, S>) -> Set<K::Val> {
        dst_set_vals::<K, C>(coll@)
    }

    fn from_items(items: Vec<K::Dst>) -> (coll: std::collections::HashSet<K::Dst, S>) {
        proof {
            if <Self as ReadItems<'de, C>>::gather_ok() {
                lemma_dst_set_vals::<K, C>(items@);
            }
        }
        <std::collections::HashSet<K::Dst, S> as Gather<K::Dst>>::gather(items)
    }
}

impl<
    'de,
    C: ConfigCore,
    K: RoundTrip<'de, C>,
    S: BuildHasher + Default,
> RoundTripItems<'de, C> for std::collections::HashSet<K, S> where
    K::Dst: Hash + Eq,
 {
    open spec fn items_round_trip() -> bool {
        seq_round_trips::<K, C>()
    }

    open spec fn items_valid(coll: &std::collections::HashSet<K::Src, S>) -> bool {
        &&& lists(hash_set_order(coll), coll@)
        &&& all_valid::<K, C>(hash_set_order(coll))
        &&& hash_set_order(coll).len() == coll.len()
    }

    open spec fn items_need_backing() -> bool {
        K::needs_backing()
    }

    proof fn lemma_items_round_trip<Len: SeqLen<C>>(
        coll: &std::collections::HashSet<K::Src, S>,
        rest: Input,
    ) {
        lemma_seq_round_trip::<K, Len, C>(hash_set_order(coll), rest);
        lemma_src_set_vals::<K, C>(hash_set_order(coll));
    }
}

impl<K> Walk for std::collections::BTreeSet<K> {
    type Item = K;

    open spec fn walk_lawful() -> bool {
        btree_set_model::<K>()
    }

    open spec fn items(&self) -> Seq<K> {
        btree_set_order(self)
    }

    open spec fn walks_all(&self) -> bool {
        &&& lists(btree_set_order(self), self@)
        &&& ascending(btree_set_order(self))
        &&& btree_set_order(self).len() == self.len()
    }

    fn walk(&self) -> (refs: Vec<&K>) {
        let it = walk_btree_set(self);
        first_of(it, self.len())
    }
}

impl<K: Ord> Gather<K> for std::collections::BTreeSet<K> {
    type Made = Set<K>;

    open spec fn lawful() -> bool {
        btree_set_model::<K>()
    }

    open spec fn made_of(items: Seq<K>) -> Set<K> {
        items.to_set()
    }

    open spec fn made(&self) -> Set<K> {
        self@
    }

    fn gather(items: Vec<K>) -> (coll: std::collections::BTreeSet<K>) {
        put_all::<K, std::collections::BTreeSet<K>, std::vec::IntoIter<K>>(items.into_iter())
    }
}

impl<C: ConfigCore, K: SchemaWrite<C>> WriteItems<C> for std::collections::BTreeSet<K> {
    type Item = K;

    type Written = std::collections::BTreeSet<K::Src>;

    open spec fn walk_ok() -> bool {
        btree_set_model::<K::Src>()
    }

    open spec fn items_of(coll: &std::collections::BTreeSet<K::Src>) -> Seq<K::Src> {
        btree_set_order(coll)
    }

    open spec fn lists_all(coll: &std::collections::BTreeSet<K::Src>) -> bool {
        &&& lists(btree_set_order(coll), coll@)
        &&& ascending(btree_set_order(coll))
        &&& btree_set_order(coll).len() == coll.len()
    }

    open spec fn written_val(coll: &std::collections::BTreeSet<K::Src>) -> Set<K::Val> {
        src_set_vals::<K, C>(coll@)
    }

    fn size_items<Len: SeqLen<C>>(
        coll: &std::collections::BTreeSet<K::Src>,
    ) -> (r: WriteResult<usize>) {
        size_of_walked::<K, Len, C, std::collections::BTreeSet<K::Src>>(coll)
    }

    fn write_items<Len: SeqLen<C>, W: Writer>(
        writer: &mut W,
        coll: &std::collections::BTreeSet<K::Src>,
    ) -> (r: WriteResult<()>) {
        write_walked::<K, Len, C, W, std::collections::BTreeSet<K::Src>>(writer, coll)
    }
}

impl<
    'de,
    C: ConfigCore,
    K: SchemaRead<'de, C>,
> ReadItems<'de, C> for std::collections::BTreeSet<K> where
    K::Dst: Ord,
 {
    type Item = K;

    type Gathered = std::collections::BTreeSet<K::Dst>;

    open spec fn gather_ok() -> bool {
        btree_set_model::<K::Dst>()
    }

    open spec fn val_of(vals: Seq<K::Val>) -> Set<K::Val> {
        vals.to_set()
    }

    open spec fn gathered_val(coll: &std::collections::BTreeSet<K::Dst>) -> Set<K::Val> {
        dst_set_vals::<K, C>(coll@)
    }

    fn from_items(items: Vec<K::Dst>) -> (coll: std::collections::BTreeSet<K::Dst>) {
        proof {
            if <Self as ReadItems<'de, C>>::gather_ok() {
                lemma_dst_set_vals::<K, C>(items@);
            }
        }
        <std::collections::BTreeSet<K::Dst> as Gather<K::Dst>>::gather(items)
    }
}

impl<
    'de,
    C: ConfigCore,
    K: RoundTrip<'de, C>,
> RoundTripItems<'de, C> for std::collections::BTreeSet<K> where
    K::Dst: Ord,
 {
    open spec fn items_round_trip() -> bool {
        seq_round_trips::<K, C>()
    }

    open spec fn items_valid(coll: &std::collections::BTreeSet<K::Src>) -> bool {
        &&& lists(btree_set_order(coll), coll@)
        &&& all_valid::<K, C>(btree_set_order(coll))
        &&& btree_set_order(coll).len() == coll.len()
    }

    open spec fn items_need_backing() -> bool {
        K::needs_backing()
    }

    proof fn lemma_items_round_trip<Len: SeqLen<C>>(
        coll: &std::collections::BTreeSet<K::Src>,
        rest: Input,
    ) {
        lemma_seq_round_trip::<K, Len, C>(btree_set_order(coll), rest);
        lemma_src_set_vals::<K, C>(btree_set_order(coll));
    }
}

impl<K, S> Walk for OrderedSet<K, S> {
    type Item = K;

    open spec fn walk_lawful() -> bool {
        true
    }

    open spec fn items(&self) -> Seq<K> {
        self.elems()
    }

    open spec fn walks_all(&self) -> bool {
        self.lawful() ==> self.elems().no_duplicates()
    }

    fn walk(&self) -> (refs: Vec<&K>) {
        walk_set(self)
    }
}

impl<K: Hash + Eq, S: BuildHasher + Default> Gather<K> for OrderedSet<K, S> {
    type Made = Seq<K>;

    open spec fn lawful() -> bool {
        index_model::<K, S>()
    }

    open spec fn made_of(items: Seq<K>) -> Seq<K> {
        set_in_order(items)
    }

    open spec fn made(&self) -> Seq<K> {
        self.elems()
    }

    fn gather(items: Vec<K>) -> (coll: OrderedSet<K, S>) {
        put_all::<K, OrderedSet<K, S>, std::vec::IntoIter<K>>(items.into_iter())
    }
}

impl<C: ConfigCore, K: SchemaWrite<C>, S> WriteItems<C> for OrderedSet<K, S> {
    type Item = K;

    type Written = OrderedSet<K::Src, S>;

    open spec fn walk_ok() -> bool {
        true
    }

    open spec fn items_of(coll: &OrderedSet<K::Src, S>) -> Seq<K::Src> {
        coll.elems()
    }

    open spec fn lists_all(coll: &OrderedSet<K::Src, S>) -> bool {
        coll.lawful() ==> coll.elems().no_duplicates()
    }

    open spec fn written_val(coll: &OrderedSet<K::Src, S>) -> Seq<K::Val> {
        src_vals::<K, C>(coll.elems())
    }

    fn size_items<Len: SeqLen<C>>(coll: &OrderedSet<K::Src, S>) -> (r: WriteResult<usize>) {
        size_of_walked::<K, Len, C, OrderedSet<K::Src, S>>(coll)
    }

    fn write_items<Len: SeqLen<C>, W: Writer>(
        writer: &mut W,
        coll: &OrderedSet<K::Src, S>,
    ) -> (r: WriteResult<()>) {
        write_walked::<K, Len, C, W, OrderedSet<K::Src, S>>(writer, coll)
    }
}

impl<
    'de,
    C: ConfigCore,
    K: SchemaRead<'de, C>,
    S: BuildHasher + Default,
> ReadItems<'de, C> for OrderedSet<K, S> where
    K::Dst: Hash + Eq,
 {
    type Item = K;

    type Gathered = OrderedSet<K::Dst, S>;

    open spec fn gather_ok() -> bool {
        index_model::<K::Dst, S>() && key_injective::<K, C>()
    }

    open spec fn val_of(vals: Seq<K::Val>) -> Seq<K::Val> {
        set_in_order(vals)
    }

    open spec fn gathered_val(coll: &OrderedSet<K::Dst, S>) -> Seq<K::Val> {
        dst_vals::<K, C>(coll.elems())
    }

    fn from_items(items: Vec<K::Dst>) -> (coll: OrderedSet<K::Dst, S>) {
        proof {
            if <Self as ReadItems<'de, C>>::gather_ok() {
                lemma_set_in_order_vals::<K, C>(items@);
            }
        }
        <OrderedSet<K::Dst, S> as Gather<K::Dst>>::gather(items)
    }
}

impl<
    'de,
    C: ConfigCore,
    K: RoundTrip<'de, C>,
    S: BuildHasher + Default,
> RoundTripItems<'de, C> for OrderedSet<K, S> where
    K::Dst: Hash + Eq,
 {
    open spec fn items_round_trip() -> bool {
        seq_round_trips::<K, C>() && src_key_injective::<K, C>()
    }

    open spec fn items_valid(coll: &OrderedSet<K::Src, S>) -> bool {
        &&& coll.elems().no_duplicates()
        &&& all_valid::<K, C>(coll.elems())
        &&& coll.elems().len() <= usize::MAX
    }

    open spec fn items_need_backing() -> bool {
        K::needs_backing()
    }

    proof fn lemma_items_round_trip<Len: SeqLen<C>>(coll: &OrderedSet<K::Src, S>, rest: Input) {
        let ks = coll.elems();
        lemma_seq_round_trip::<K, Len, C>(ks, rest);
        let vs = src_vals::<K, C>(ks);
        assert(vs.no_duplicates()) by {
            assert forall|i: int, j: int|
                0 <= i < vs.len() && 0 <= j < vs.len() && i != j implies vs[i] != vs[j] by {
                if K::src_val(&ks[i]) == K::src_val(&ks[j]) {
                    assert(ks[i] == ks[j]);
                }
            }
        }
        law_distinct_elements_keep_their_order(vs);
    }
}

impl<K, V, S> WalkPairs for std::collections::HashMap<K, V, S> {
    type Key = K;

    type Value = V;

    open spec fn walk_lawful() -> bool {
        hash_map_model::<K, S>()
    }

    open spec fn pairs(&self) -> Seq<(K, V)> {
        hash_map_order(self)
    }

    open spec fn walks_all(&self) -> bool {
        enumerates(hash_map_order(self), self@) && hash_map_order(self).len() == self.len()
    }

    fn walk_pairs(&self) -> (refs: Vec<(&K, &V)>) {
        let it = walk_hash_map(self);
        first_of(it, self.len())
    }
}

impl<
    K: Hash + Eq,
    V,
    S: BuildHasher + Default,
> Gather<(K, V)> for std::collections::HashMap<K, V, S> {
    type Made = Map<K, V>;

    open spec fn lawful() -> bool {
        hash_map_model::<K, S>()
    }

    open spec fn made_of(items: Seq<(K, V)>) -> Map<K, V> {
        map_of(items)
    }

    open spec fn made(&self) -> Map<K, V> {
        self@
    }

    fn gather(items: Vec<(K, V)>) -> (coll: std::collections::HashMap<K, V, S>) {
        put_all_pairs::<K, V, std::collections::HashMap<K, V, S>, std::vec::IntoIter<(K, V)>>(
            items.into_iter(),
        )
    }
}

impl<
    C: ConfigCore,
    K: SchemaWrite<C>,
    V: SchemaWrite<C>,
    S,
> WriteItems<C> for std::collections::HashMap<K, V, S> {
    type Item = (K, V);

    type Written = std::collections::HashMap<K::Src, V::Src, S>;

    open spec fn walk_ok() -> bool {
        hash_map_model::<K::Src, S>()
    }

    open spec fn items_of(
        coll: &std::collections::HashMap<K::Src, V::Src, S>,
    ) -> Seq<(K::Src, V::Src)> {
        hash_map_order(coll)
    }

    open spec fn lists_all(coll: &std::collections::HashMap<K::Src, V::Src, S>) -> bool {
        enumerates(hash_map_order(coll), coll@) && hash_map_order(coll).len() == coll.len()
    }

    open spec fn written_val(
        coll: &std::collections::HashMap<K::Src, V::Src, S>,
    ) -> Map<K::Val, V::Val> {
        src_map_vals::<K, V, C>(coll@)
    }

    fn size_items<Len: SeqLen<C>>(
        coll: &std::collections::HashMap<K::Src, V::Src, S>,
    ) -> (r: WriteResult<usize>) {
        size_of_walked_pairs::<K, V, Len, C, std::collections::HashMap<K::Src, V::Src, S>>(coll)
    }

    fn write_items<Len: SeqLen<C>, W: Writer>(
        writer: &mut W,
        coll: &std::collections::HashMap<K::Src, V::Src, S>,
    ) -> (r: WriteResult<()>) {
        write_walked_pairs::<K, V, Len, C, W, std::collections::HashMap<K::Src, V::Src, S>>(
            writer,
            coll,
        )
    }
}

impl<
    'de,
    C: ConfigCore,
    K: SchemaRead<'de, C>,
    V: SchemaRead<'de, C>,
    S: BuildHasher + Default,
> ReadItems<'de, C> for std::collections::HashMap<K, V, S> where
    K::Dst: Hash + Eq,
 {
    type Item = (K, V);

    type Gathered = std::collections::HashMap<K::Dst, V::Dst, S>;

    open spec fn gather_ok() -> bool {
        hash_map_model::<K::Dst, S>() && key_injective::<K, C>()
    }

    open spec fn val_of(vals: Seq<(K::Val, V::Val)>) -> Map<K::Val, V::Val> {
        map_of(vals)
    }

    open spec fn gathered_val(
        coll: &std::collections::HashMap<K::Dst, V::Dst, S>,
    ) -> Map<K::Val, V::Val> {
        map_vals::<K, V, C>(coll@)
    }

    fn from_items(
        items: Vec<(K::Dst, V::Dst)>,
    ) -> (coll: std::collections::HashMap<K::Dst, V::Dst, S>) {
        proof {
            if <Self as ReadItems<'de, C>>::gather_ok() {
                lemma_dst_pairs::<K, V, C>(items@);
                lemma_map_vals::<K, V, C>(items@);
            }
        }
        <std::collections::HashMap<K::Dst, V::Dst, S> as Gather<(K::Dst, V::Dst)>>::gather(items)
    }
}

impl<
    'de,
    C: ConfigCore,
    K: RoundTrip<'de, C>,
    V: RoundTrip<'de, C>,
    S: BuildHasher + Default,
> RoundTripItems<'de, C> for std::collections::HashMap<K, V, S> where
    K::Dst: Hash + Eq,
 {
    open spec fn items_round_trip() -> bool {
        seq_round_trips::<(K, V), C>() && src_key_injective::<K, C>()
    }

    open spec fn items_valid(coll: &std::collections::HashMap<K::Src, V::Src, S>) -> bool {
        &&& enumerates(hash_map_order(coll), coll@)
        &&& all_valid::<(K, V), C>(hash_map_order(coll))
        &&& hash_map_order(coll).len() == coll.len()
    }

    open spec fn items_need_backing() -> bool {
        K::needs_backing() || V::needs_backing()
    }

    proof fn lemma_items_round_trip<Len: SeqLen<C>>(
        coll: &std::collections::HashMap<K::Src, V::Src, S>,
        rest: Input,
    ) {
        let es = hash_map_order(coll);
        lemma_seq_round_trip::<(K, V), Len, C>(es, rest);
        lemma_src_pairs::<K, V, C>(es);
        lemma_src_map_vals::<K, V, C>(es, coll@);
    }
}

impl<K, V> WalkPairs for std::collections::BTreeMap<K, V> {
    type Key = K;

    type Value = V;

    open spec fn walk_lawful() -> bool {
        btree_map_model::<K>()
    }

    open spec fn pairs(&self) -> Seq<(K, V)> {
        btree_map_order(self)
    }

    open spec fn walks_all(&self) -> bool {
        &&& enumerates(btree_map_order(self), self@)
        &&& ascending_keys(btree_map_order(self))
        &&& btree_map_order(self).len() == self.len()
    }

    fn walk_pairs(&self) -> (refs: Vec<(&K, &V)>) {
        let it = walk_btree_map(self);
        first_of(it, self.len())
    }
}

impl<K: Ord, V> Gather<(K, V)> for std::collections::BTreeMap<K, V> {
    type Made = Map<K, V>;

    open spec fn lawful() -> bool {
        btree_map_model::<K>()
    }

    open spec fn made_of(items: Seq<(K, V)>) -> Map<K, V> {
        map_of(items)
    }

    open spec fn made(&self) -> Map<K, V> {
        self@
    }

    fn gather(items: Vec<(K, V)>) -> (coll: std::collections::BTreeMap<K, V>) {
        put_all_pairs::<K, V, std::collections::BTreeMap<K, V>, std::vec::IntoIter<(K, V)>>(
            items.into_iter(),
        )
    }
}

impl<
    C: ConfigCore,
    K: SchemaWrite<C>,
    V: SchemaWrite<C>,
> WriteItems<C> for std::collections::BTreeMap<K, V> {
    type Item = (K, V);

    type Written = std::collections::BTreeMap<K::Src, V::Src>;

    open spec fn walk_ok() -> bool {
        btree_map_model::<K::Src>()
    }

    open spec fn items_of(
        coll: &std::collections::BTreeMap<K::Src, V::Src>,
    ) -> Seq<(K::Src, V::Src)> {
        btree_map_order(coll)
    }

    open spec fn lists_all(coll: &std::collections::BTreeMap<K::Src, V::Src>) -> bool {
        &&& enumerates(btree_map_order(coll), coll@)
        &&& ascending_keys(btree_map_order(coll))
        &&& btree_map_order(coll).len() == coll.len()
    }

    open spec fn written_val(
        coll: &std::collections::BTreeMap<K::Src, V::Src>,
    ) -> Map<K::Val, V::Val> {
        src_map_vals::<K, V, C>(coll@)
    }

    fn size_items<Len: SeqLen<C>>(
        coll: &std::collections::BTreeMap<K::Src, V::Src>,
    ) -> (r: WriteResult<usize>) {
        size_of_walked_pairs::<K, V, Len, C, std::collections::BTreeMap<K::Src, V::Src>>(coll)
    }

    fn write_items<Len: SeqLen<C>, W: Writer>(
        writer: &mut W,
        coll: &std::collections::BTreeMap<K::Src, V::Src>,
    ) -> (r: WriteResult<()>) {
        write_walked_pairs::<K, V, Len, C, W, std::collections::BTreeMap<K::Src, V::Src>>(
            writer,
            coll,
        )
    }
}

impl<
    'de,
    C: ConfigCore,
    K: SchemaRead<'de, C>,
    V: SchemaRead<'de, C>,
> ReadItems<'de, C> for std::collections::BTreeMap<K, V> where
    K::Dst: Ord,
 {
    type Item = (K, V);

    type Gathered = std::collections::BTreeMap<K::Dst, V::Dst>;

    open spec fn gather_ok() -> bool {
        btree_map_model::<K::Dst>() && key_injective::<K, C>()
    }

    open spec fn val_of(vals: Seq<(K::Val, V::Val)>) -> Map<K::Val, V::Val> {
        map_of(vals)
    }

    open spec fn gathered_val(
        coll: &std::collections::BTreeMap<K::Dst, V::Dst>,
    ) -> Map<K::Val, V::Val> {
        map_vals::<K, V, C>(coll@)
    }

    fn from_items(
        items: Vec<(K::Dst, V::Dst)>,
    ) -> (coll: std::collections::BTreeMap<K::Dst, V::Dst>) {
        proof {
            if <Self as ReadItems<'de, C>>::gather_ok() {
                lemma_dst_pairs::<K, V, C>(items@);
                lemma_map_vals::<K, V, C>(items@);
            }
        }
        <std::collections::BTreeMap<K::Dst, V::Dst> as Gather<(K::Dst, V::Dst)>>::gather(items)
    }
}

impl<
    'de,
    C: ConfigCore,
    K: RoundTrip<'de, C>,
    V: RoundTrip<'de, C>,
> RoundTripItems<'de, C> for std::collections::BTreeMap<K, V> where
    K::Dst: Ord,
 {
    open spec fn items_round_trip() -> bool {
        seq_round_trips::<(K, V), C>() && src_key_injective::<K, C>()
    }

    open spec fn items_valid(coll: &std::collections::BTreeMap<K::Src, V::Src>) -> bool {
        &&& enumerates(btree_map_order(coll), coll@)
        &&& all_valid::<(K, V), C>(btree_map_order(coll))
        &&& btree_map_order(coll).len() == coll.len()
    }

    open spec fn items_need_backing() -> bool {
        K::needs_backing() || V::needs_backing()
    }

    proof fn lemma_items_round_trip<Len: SeqLen<C>>(
        coll: &std::collections::BTreeMap<K::Src, V::Src>,
        rest: Input,
    ) {
        let es = btree_map_order(coll);
        lemma_seq_round_trip::<(K, V), Len, C>(es, rest);
        lemma_src_pairs::<K, V, C>(es);
        lemma_src_map_vals::<K, V, C>(es, coll@);
    }
}

impl<K, V, S> WalkPairs for OrderedMap<K, V, S> {
    type Key = K;

    type Value = V;

    open spec fn walk_lawful() -> bool {
        true
    }

    open spec fn pairs(&self) -> Seq<(K, V)> {
        self.entries()
    }

    open spec fn walks_all(&self) -> bool {
        self.lawful() ==> distinct_keys(self.entries())
    }

    fn walk_pairs(&self) -> (refs: Vec<(&K, &V)>) {
        walk_map(self)
    }
}

impl<K: Hash + Eq, V, S: BuildHasher + Default> Gather<(K, V)> for OrderedMap<K, V, S> {
    type Made = Seq<(K, V)>;

    open spec fn lawful() -> bool {
        index_model::<K, S>()
    }

    open spec fn made_of(items: Seq<(K, V)>) -> Seq<(K, V)> {
        in_order(items)
    }

    open spec fn made(&self) -> Seq<(K, V)> {
        self.entries()
    }

    fn gather(items: Vec<(K, V)>) -> (coll: OrderedMap<K, V, S>) {
        put_all_pairs::<K, V, OrderedMap<K, V, S>, std::vec::IntoIter<(K, V)>>(items.into_iter())
    }
}

impl<C: ConfigCore, K: SchemaWrite<C>, V: SchemaWrite<C>, S> WriteItems<C> for OrderedMap<K, V, S> {
    type Item = (K, V);

    type Written = OrderedMap<K::Src, V::Src, S>;

    open spec fn walk_ok() -> bool {
        true
    }

    open spec fn items_of(coll: &OrderedMap<K::Src, V::Src, S>) -> Seq<(K::Src, V::Src)> {
        coll.entries()
    }

    open spec fn lists_all(coll: &OrderedMap<K::Src, V::Src, S>) -> bool {
        coll.lawful() ==> distinct_keys(coll.entries())
    }

    open spec fn written_val(coll: &OrderedMap<K::Src, V::Src, S>) -> Seq<(K::Val, V::Val)> {
        src_entry_vals::<K, V, C>(coll.entries())
    }

    fn size_items<Len: SeqLen<C>>(coll: &OrderedMap<K::Src, V::Src, S>) -> (r: WriteResult<usize>) {
        size_of_walked_pairs::<K, V, Len, C, OrderedMap<K::Src, V::Src, S>>(coll)
    }

    fn write_items<Len: SeqLen<C>, W: Writer>(
        writer: &mut W,
        coll: &OrderedMap<K::Src, V::Src, S>,
    ) -> (r: WriteResult<()>) {
        write_walked_pairs::<K, V, Len, C, W, OrderedMap<K::Src, V::Src, S>>(writer, coll)
    }
}

impl<
    'de,
    C: ConfigCore,
    K: SchemaRead<'de, C>,
    V: SchemaRead<'de, C>,
    S: BuildHasher + Default,
> ReadItems<'de, C> for OrderedMap<K, V, S> where
    K::Dst: Hash + Eq,
 {
    type Item = (K, V);

    type Gathered = OrderedMap<K::Dst, V::Dst, S>;

    open spec fn gather_ok() -> bool {
        index_model::<K::Dst, S>() && key_injective::<K, C>()
    }

    open spec fn val_of(vals: Seq<(K::Val, V::Val)>) -> Seq<(K::Val, V::Val)> {
        in_order(vals)
    }

    open spec fn gathered_val(coll: &OrderedMap<K::Dst, V::Dst, S>) -> Seq<(K::Val, V::Val)> {
        entry_vals::<K, V, C>(coll.entries())
    }

    fn from_items(items: Vec<(K::Dst, V::Dst)>) -> (coll: OrderedMap<K::Dst, V::Dst, S>) {
        proof {
            if <Self as ReadItems<'de, C>>::gather_ok() {
                lemma_dst_pairs::<K, V, C>(items@);
                lemma_in_order_vals::<K, V, C>(items@);
            }
        }
        <OrderedMap<K::Dst, V::Dst, S> as Gather<(K::Dst, V::Dst)>>::gather(items)
    }
}

impl<
    'de,
    C: ConfigCore,
    K: RoundTrip<'de, C>,
    V: RoundTrip<'de, C>,
    S: BuildHasher + Default,
> RoundTripItems<'de, C> for OrderedMap<K, V, S> where
    K::Dst: Hash + Eq,
 {
    open spec fn items_round_trip() -> bool {
        seq_round_trips::<(K, V), C>() && src_key_injective::<K, C>()
    }

    open spec fn items_valid(coll: &OrderedMap<K::Src, V::Src, S>) -> bool {
        &&& distinct_keys(coll.entries())
        &&& all_valid::<(K, V), C>(coll.entries())
        &&& coll.entries().len() <= usize::MAX
    }

    open spec fn items_need_backing() -> bool {
        K::needs_backing() || V::needs_backing()
    }

    proof fn lemma_items_round_trip<Len: SeqLen<C>>(
        coll: &OrderedMap<K::Src, V::Src, S>,
        rest: Input,
    ) {
        let es = coll.entries();
        lemma_seq_round_trip::<(K, V), Len, C>(es, rest);
        lemma_src_pairs::<K, V, C>(es);
        let vs = src_entry_vals::<K, V, C>(es);
        assert(distinct_keys(vs)) by {
            assert forall|i: int, j: int| 0 <= i < j < vs.len() implies (#[trigger] vs[i]).0 != (
            #[trigger] vs[j]).0 by {
                if K::src_val(&es[i].0) == K::src_val(&es[j].0) {
                    assert(es[i].0 == es[j].0);
                }
            }
        }
        law_distinct_entries_keep_their_order(vs);
    }
}

} // verus!
