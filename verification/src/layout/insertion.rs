//! What becomes of entries that are put into a collection one after the other.
use crate::schema::containers::keyed::{has_key, lemma_map_of_keys, lemma_map_of_last, map_of};
use crate::schema::external::ordered_rules::{
    in_order, lemma_in_order, lemma_set_in_order, place_of, set_in_order,
};
use vstd::prelude::*;

verus! {

/// A map holds the keys that were put in, and under each the value that was put in last.
pub proof fn law_map_of_entries<K, V>(es: Seq<(K, V)>)
    ensures
        forall|k: K| #[trigger]
            map_of(es).contains_key(k) <==> exists|i: int|
                0 <= i < es.len() && (#[trigger] es[i]).0 == k,
        forall|i: int|
            0 <= i < es.len() && (forall|j: int|
                i < j < es.len() ==> (#[trigger] es[j]).0 != es[i].0) ==> map_of(es)[(
            #[trigger] es[i]).0] == es[i].1,
{
    lemma_map_of_keys(es);
    assert forall|k: K| #[trigger] map_of(es).contains_key(k) <==> exists|i: int|
        0 <= i < es.len() && (#[trigger] es[i]).0 == k by {
        assert(has_key(es, k) <==> exists|i: int| 0 <= i < es.len() && (#[trigger] es[i]).0 == k);
    }
    assert forall|i: int|
        0 <= i < es.len() && (forall|j: int|
            i < j < es.len() ==> (#[trigger] es[j]).0 != es[i].0) implies map_of(es)[(
    #[trigger] es[i]).0] == es[i].1 by {
        lemma_map_of_last(es, i);
    }
}

/// Of an ordered map that entries are put into, no two keys are alike, the keys are those that were
/// put in, and each holds the value that was put in last.
pub proof fn law_ordered_map_of_entries<K, V>(es: Seq<(K, V)>, p: int, i: int)
    ensures
        0 <= p < i < in_order(es).len() ==> in_order(es)[p].0 != in_order(es)[i].0,
        0 <= p < in_order(es).len() ==> exists|j: int|
            0 <= j < es.len() && (#[trigger] es[j]).0 == in_order(es)[p].0,
        0 <= i < es.len() ==> exists|q: int|
            0 <= q < in_order(es).len() && (#[trigger] in_order(es)[q]).0 == es[i].0,
        0 <= p < in_order(es).len() && 0 <= i < es.len() && es[i].0 == in_order(es)[p].0 && (forall|
            j: int,
        |
            i < j < es.len() ==> (#[trigger] es[j]).0 != es[i].0) ==> in_order(es)[p].1 == es[i].1,
    decreases es.len(),
{
    let o = in_order(es);
    lemma_in_order(es);
    if 0 <= p < o.len() {
        assert(has_key(o, o[p].0));
        assert(has_key(es, o[p].0));
    }
    if 0 <= i < es.len() {
        assert(has_key(es, es[i].0));
        assert(has_key(o, es[i].0));
    }
    if 0 <= p < o.len() && 0 <= i < es.len() && es[i].0 == o[p].0 && (forall|j: int|
        i < j < es.len() ==> (#[trigger] es[j]).0 != es[i].0) {
        let n = es.len() - 1;
        let front = es.drop_last();
        let e = es.last();
        let d = in_order(front);
        lemma_in_order(front);
        let at = place_of(d, e.0);
        if has_key(d, e.0) {
            assert(0 <= at < d.len() && d[at].0 == e.0);
            assert(o == d.update(at, e));
        } else {
            assert(o == d.push(e));
        }
        if i < n {
            assert(es[n].0 != es[i].0);
            law_ordered_map_of_entries(front, p, i);
            assert forall|j: int| i < j < front.len() implies (#[trigger] front[j]).0
                != front[i].0 by {
                assert(es[j].0 != es[i].0);
            }
        } else if has_key(d, e.0) {
            if p != at {
                assert(o[p].0 == d[p].0);
                assert(d[p].0 != d[at].0);
            }
        } else if p < d.len() {
            assert(has_key(d, d[p].0));
        }
    }
}

/// The keys of an ordered map that entries are put into stand in the order in which they first came:
/// whatever comes behind a key came in behind it.
pub proof fn law_ordered_map_keeps_the_first_places<K, V>(es: Seq<(K, V)>, p: int, q: int, j: int)
    requires
        0 <= p < q < in_order(es).len(),
        0 <= j < es.len(),
        es[j].0 == in_order(es)[q].0,
    ensures
        exists|i: int| 0 <= i < j && (#[trigger] es[i]).0 == in_order(es)[p].0,
    decreases es.len(),
{
    let o = in_order(es);
    let n = es.len() - 1;
    let front = es.drop_last();
    let e = es.last();
    let d = in_order(front);
    lemma_in_order(front);
    let at = place_of(d, e.0);
    if has_key(d, e.0) {
        assert(0 <= at < d.len() && d[at].0 == e.0);
        assert(o == d.update(at, e));
    } else {
        assert(o == d.push(e));
    }
    assert(o[p].0 == d[p].0);
    assert(has_key(d, d[p].0));
    assert(has_key(front, d[p].0));
    if q < d.len() {
        assert(o[q].0 == d[q].0);
        assert(has_key(d, d[q].0));
        assert(has_key(front, d[q].0));
        let k = if j < n {
            j
        } else {
            choose|k: int| 0 <= k < front.len() && (#[trigger] front[k]).0 == d[q].0
        };
        law_ordered_map_keeps_the_first_places(front, p, q, k);
        let i = choose|i: int| 0 <= i < k && (#[trigger] front[i]).0 == d[p].0;
        assert(es[i].0 == o[p].0);
    } else {
        if j < n {
            assert(front[j].0 == e.0);
            assert(has_key(front, e.0));
        }
        let i = choose|i: int| 0 <= i < front.len() && (#[trigger] front[i]).0 == d[p].0;
        assert(es[i].0 == o[p].0);
    }
}

/// Of an ordered set that elements are put into, no two are alike, and they are those that were put
/// in.
pub proof fn law_ordered_set_of_elements<K>(ks: Seq<K>)
    ensures
        set_in_order(ks).no_duplicates(),
        forall|k: K| #[trigger] set_in_order(ks).contains(k) <==> ks.contains(k),
{
    lemma_set_in_order(ks);
}

/// The elements of an ordered set stand in the order in which they first came: whatever comes behind
/// an element came in behind it.
pub proof fn law_ordered_set_keeps_the_first_places<K>(ks: Seq<K>, p: int, q: int, j: int)
    requires
        0 <= p < q < set_in_order(ks).len(),
        0 <= j < ks.len(),
        ks[j] == set_in_order(ks)[q],
    ensures
        exists|i: int| 0 <= i < j && #[trigger] ks[i] == set_in_order(ks)[p],
    decreases ks.len(),
{
    let o = set_in_order(ks);
    let n = ks.len() - 1;
    let front = ks.drop_last();
    let d = set_in_order(front);
    lemma_set_in_order(front);
    assert(o == d || o == d.push(ks.last()));
    assert(o[p] == d[p]);
    assert(d.contains(d[p]));
    if q < d.len() {
        assert(d.contains(d[q]));
        let k = if j < n {
            j
        } else {
            front.index_of(d[q])
        };
        law_ordered_set_keeps_the_first_places(front, p, q, k);
        let i = choose|i: int| 0 <= i < k && #[trigger] front[i] == d[p];
        assert(ks[i] == o[p]);
    } else {
        if j < n {
            assert(front[j] == ks.last());
            assert(front.contains(ks.last()));
        }
        let i = front.index_of(d[p]);
        assert(ks[i] == o[p]);
    }
}

} // verus!
