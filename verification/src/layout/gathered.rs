//! How heaps are kept, and what collections are walked through and gathered as.
use crate::schema::containers::heap::{above, is_heap, MaxHeap, Ranked};
use crate::schema::containers::iter::{
    all_ok, fails_first_at, first_error_is, gathered, stopped_at, Gather, Walk, WalkPairs,
};
use crate::schema::containers::keyed::map_of;
use crate::schema::containers::list::LinkedList;
use crate::schema::containers::maps::{
    btree_map_model, btree_map_order, hash_map_model, hash_map_order,
};
use crate::schema::containers::sets::{
    btree_set_model, btree_set_order, hash_set_model, hash_set_order,
};
use crate::schema::external::ordered::{index_model, OrderedMap, OrderedSet};
use crate::schema::external::ordered_rules::{in_order, set_in_order};
use core::hash::{BuildHasher, Hash};
use std::collections::{BTreeMap, BTreeSet, HashMap, HashSet, VecDeque};
use vstd::prelude::*;

verus! {

/// Numbers are ranked by their size.
pub proof fn law_numbers_are_ranked_by_size(
    u8s: (u8, u8),
    u16s: (u16, u16),
    u32s: (u32, u32),
    u64s: (u64, u64),
    u128s: (u128, u128),
    usizes: (usize, usize),
    i8s: (i8, i8),
    i16s: (i16, i16),
    i32s: (i32, i32),
    i64s: (i64, i64),
    i128s: (i128, i128),
    isizes: (isize, isize),
)
    ensures
        u8s.0.at_most(u8s.1) == (u8s.0 <= u8s.1),
        u16s.0.at_most(u16s.1) == (u16s.0 <= u16s.1),
        u32s.0.at_most(u32s.1) == (u32s.0 <= u32s.1),
        u64s.0.at_most(u64s.1) == (u64s.0 <= u64s.1),
        u128s.0.at_most(u128s.1) == (u128s.0 <= u128s.1),
        usizes.0.at_most(usizes.1) == (usizes.0 <= usizes.1),
        i8s.0.at_most(i8s.1) == (i8s.0 <= i8s.1),
        i16s.0.at_most(i16s.1) == (i16s.0 <= i16s.1),
        i32s.0.at_most(i32s.1) == (i32s.0 <= i32s.1),
        i64s.0.at_most(i64s.1) == (i64s.0 <= i64s.1),
        i128s.0.at_most(i128s.1) == (i128s.0 <= i128s.1),
        isizes.0.at_most(isizes.1) == (isizes.0 <= isizes.1),
{
}

/// In a heap each item is no less than the two at twice its place and behind that, so that the first
/// is no less than any.
pub proof fn law_heap_order<T: Ranked>(s: Seq<T>, j: int)
    requires
        is_heap(s),
        0 <= j < s.len(),
    ensures
        2 * j + 1 < s.len() ==> s[2 * j + 1].at_most(s[j]),
        2 * j + 2 < s.len() ==> s[2 * j + 2].at_most(s[j]),
        s[j].at_most(s[0]),
    decreases j,
{
    assert(2 * j + 1 < s.len() ==> above(2 * j + 1) == j);
    assert(2 * j + 2 < s.len() ==> above(2 * j + 2) == j);
    if j == 0 {
        T::lemma_total(s[0], s[0]);
    } else {
        assert(0 <= above(j) < j);
        assert(s[j].at_most(s[above(j)]));
        law_heap_order(s, above(j));
        T::lemma_transitive(s[j], s[above(j)], s[0]);
    }
}

/// Items are a heap if each is no less than the two at twice its place and behind that.
pub proof fn law_heaps<T: Ranked>(s: Seq<T>)
    requires
        forall|j: int|
            #![trigger s[j]]
            0 <= j < s.len() ==> (2 * j + 1 < s.len() ==> s[2 * j + 1].at_most(s[j])) && (2 * j + 2
                < s.len() ==> s[2 * j + 2].at_most(s[j])),
    ensures
        is_heap(s),
{
    assert forall|j: int| 0 < j < s.len() && 0 <= above(j) implies (#[trigger] s[j]).at_most(
        s[above(j)],
    ) by {
        let p = above(j);
        assert(j == 2 * p + 1 || j == 2 * p + 2);
        assert(0 <= p < s.len());
        assert(s[p] == s[p]);
    }
}

/// Sequences are walked through in order, and gathered as the items come; heaps and sets lose the
/// order.
pub proof fn law_sequences_are_walked_and_gathered<T: Ranked>(
    items: Seq<T>,
    v: Vec<T>,
    d: VecDeque<T>,
    l: LinkedList<T>,
    h: MaxHeap<T>,
)
    ensures
        <Vec<T> as Walk>::items(&v) == v@,
        <Vec<T> as Walk>::walk_lawful(),
        <Vec<T> as Gather<T>>::made_of(items) == items,
        <Vec<T> as Gather<T>>::made(&v) == v@,
        <Vec<T> as Gather<T>>::lawful(),
        <VecDeque<T> as Walk>::items(&d) == d@,
        <VecDeque<T> as Walk>::walk_lawful(),
        <VecDeque<T> as Gather<T>>::made_of(items) == items,
        <VecDeque<T> as Gather<T>>::made(&d) == d@,
        <VecDeque<T> as Gather<T>>::lawful(),
        <LinkedList<T> as Walk>::items(&l) == l@,
        <LinkedList<T> as Walk>::walk_lawful(),
        <LinkedList<T> as Gather<T>>::made_of(items) == items,
        <LinkedList<T> as Gather<T>>::made(&l) == l@,
        <LinkedList<T> as Gather<T>>::lawful(),
        <MaxHeap<T> as Walk>::items(&h) == h@,
        <MaxHeap<T> as Walk>::walk_lawful(),
        <MaxHeap<T> as Gather<T>>::made_of(items) == items.to_multiset(),
        <MaxHeap<T> as Gather<T>>::made(&h) == h@.to_multiset(),
        <MaxHeap<T> as Gather<T>>::lawful(),
{
}

/// Sets are walked through and gathered by their elements.
pub proof fn law_sets_are_walked_and_gathered<K: Hash + Eq + Ord, S: BuildHasher + Default>(
    ks: Seq<K>,
    s: HashSet<K, S>,
    u: BTreeSet<K>,
    o: OrderedSet<K, S>,
)
    ensures
        <HashSet<K, S> as Walk>::items(&s) == hash_set_order(&s),
        <HashSet<K, S> as Walk>::walk_lawful() == hash_set_model::<K, S>(),
        <HashSet<K, S> as Gather<K>>::made_of(ks) == ks.to_set(),
        <HashSet<K, S> as Gather<K>>::made(&s) == s@,
        <HashSet<K, S> as Gather<K>>::lawful() == hash_set_model::<K, S>(),
        <BTreeSet<K> as Walk>::items(&u) == btree_set_order(&u),
        <BTreeSet<K> as Walk>::walk_lawful() == btree_set_model::<K>(),
        <BTreeSet<K> as Gather<K>>::made_of(ks) == ks.to_set(),
        <BTreeSet<K> as Gather<K>>::made(&u) == u@,
        <BTreeSet<K> as Gather<K>>::lawful() == btree_set_model::<K>(),
        <OrderedSet<K, S> as Walk>::items(&o) == o.elems(),
        <OrderedSet<K, S> as Gather<K>>::made_of(ks) == set_in_order(ks),
        <OrderedSet<K, S> as Gather<K>>::made(&o) == o.elems(),
        <OrderedSet<K, S> as Gather<K>>::lawful() == index_model::<K, S>(),
{
}

/// Maps are walked through and gathered by their entries.
pub proof fn law_maps_are_walked_and_gathered<K: Hash + Eq + Ord, V, S: BuildHasher + Default>(
    es: Seq<(K, V)>,
    m: HashMap<K, V, S>,
    t: BTreeMap<K, V>,
    o: OrderedMap<K, V, S>,
)
    ensures
        <HashMap<K, V, S> as WalkPairs>::pairs(&m) == hash_map_order(&m),
        <HashMap<K, V, S> as WalkPairs>::walk_lawful() == hash_map_model::<K, S>(),
        <HashMap<K, V, S> as Gather<(K, V)>>::made_of(es) == map_of(es),
        <HashMap<K, V, S> as Gather<(K, V)>>::made(&m) == m@,
        <HashMap<K, V, S> as Gather<(K, V)>>::lawful() == hash_map_model::<K, S>(),
        <BTreeMap<K, V> as WalkPairs>::pairs(&t) == btree_map_order(&t),
        <BTreeMap<K, V> as WalkPairs>::walk_lawful() == btree_map_model::<K>(),
        <BTreeMap<K, V> as Gather<(K, V)>>::made_of(es) == map_of(es),
        <BTreeMap<K, V> as Gather<(K, V)>>::made(&t) == t@,
        <BTreeMap<K, V> as Gather<(K, V)>>::lawful() == btree_map_model::<K>(),
        <OrderedMap<K, V, S> as WalkPairs>::pairs(&o) == o.entries(),
        <OrderedMap<K, V, S> as Gather<(K, V)>>::made_of(es) == in_order(es),
        <OrderedMap<K, V, S> as Gather<(K, V)>>::made(&o) == o.entries(),
        <OrderedMap<K, V, S> as Gather<(K, V)>>::lawful() == index_model::<K, S>(),
{
}

/// What is gathered from results without an error is made of their values, and otherwise the first
/// error comes out and what is behind it is left.
pub proof fn law_gathering_results<A, E, V: Gather<A>>(
    results: Seq<Result<A, E>>,
    items: Seq<A>,
    e: E,
    i: int,
    coll: V,
    left: Seq<Result<A, E>>,
)
    ensures
        all_ok(results, items) <==> items.len() == results.len() && forall|j: int|
            0 <= j < results.len() ==> #[trigger] results[j] == Ok::<A, E>(items[j]),
        fails_first_at(results, i, e) <==> 0 <= i < results.len() && results[i] == Err::<A, E>(e)
            && forall|j: int| 0 <= j < i ==> #[trigger] results[j] is Ok,
        all_ok(results, items) ==> !first_error_is(results, e),
        all_ok(results, items) && gathered(results, coll) && V::lawful() ==> coll.made()
            == V::made_of(items),
        fails_first_at(results, i, e) && stopped_at(results, e, left) ==> left == results.skip(
            i + 1,
        ),
{
    if all_ok(results, items) {
        if first_error_is(results, e) {
            let k = choose|k: int| fails_first_at(results, k, e);
            assert(results[k] == Ok::<A, E>(items[k]));
        }
        if gathered(results, coll) && V::lawful() {
            let other = choose|other: Seq<A>| #[trigger]
                all_ok(results, other) && (V::lawful() ==> coll.made() == V::made_of(other));
            assert forall|j: int| 0 <= j < items.len() implies items[j] == other[j] by {
                assert(results[j] == Ok::<A, E>(items[j]));
                assert(results[j] == Ok::<A, E>(other[j]));
            }
            assert(other =~= items);
        }
    }
    if fails_first_at(results, i, e) && stopped_at(results, e, left) {
        let k = choose|k: int| #[trigger]
            fails_first_at(results, k, e) && left == results.skip(k + 1);
        if k < i {
            assert(results[k] is Ok);
        }
        if i < k {
            assert(results[i] is Ok);
        }
    }
}

} // verus!
