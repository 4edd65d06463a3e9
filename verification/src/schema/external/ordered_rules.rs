//! Entries in the order of insertion.
use crate::config::ConfigCore;
use crate::schema::containers::decode::dst_vals;
use crate::schema::containers::keyed::{
    entry_vals, enumerates, has_key, key_injective, lemma_map_of_keys, lemma_map_of_last, map_of,
};
use crate::schema::SchemaRead;
use vstd::prelude::*;

verus! {

/// Whether no two of `es` have the same key.
pub open spec fn distinct_keys<K, V>(es: Seq<(K, V)>) -> bool {
    forall|i: int, j: int|
        0 <= i < j < es.len() ==> (#[trigger] es[i]).0 != (#[trigger] es[j]).0
}

/// The place of the key `k` in `es`.
pub open spec fn place_of<K, V>(es: Seq<(K, V)>, k: K) -> int {
    choose|i: int| 0 <= i < es.len() && (#[trigger] es[i]).0 == k
}

/// Inserting an entry into `es`: one with a new key comes last, any other where its key is.
pub open spec fn inserted<K, V>(es: Seq<(K, V)>, k: K, v: V) -> Seq<(K, V)> {
    if has_key(es, k) {
        es.update(place_of(es, k), (k, v))
    } else {
        es.push((k, v))
    }
}

/// What results from inserting `es` in turn: a key keeps its first place, and its last value.
pub open spec fn in_order<K, V>(es: Seq<(K, V)>) -> Seq<(K, V)>
    decreases es.len(),
{
    if es.len() == 0 {
        Seq::empty()
    } else {
        inserted(in_order(es.drop_last()), es.last().0, es.last().1)
    }
}

proof fn lemma_inserted<K, V>(es: Seq<(K, V)>, k: K, v: V)
    requires
        distinct_keys(es),
    ensures
        distinct_keys(inserted(es, k, v)),
        forall|x: K| #[trigger] has_key(inserted(es, k, v), x) <==> has_key(es, x) || x == k,
{
    let all = inserted(es, k, v);
    let p = place_of(es, k);
    if has_key(es, k) {
        assert(0 <= p < es.len() && es[p].0 == k);
        assert forall|i: int| 0 <= i < es.len() implies (#[trigger] all[i]).0 == es[i].0 by {}
        assert forall|i: int, j: int| 0 <= i < j < all.len() implies (#[trigger] all[i]).0 != (
        #[trigger] all[j]).0 by {
            assert(es[i].0 != es[j].0);
        }
    } else {
        assert forall|i: int, j: int| 0 <= i < j < all.len() implies (#[trigger] all[i]).0 != (
        #[trigger] all[j]).0 by {
            assert(all[i] == es[i]);
            if j < es.len() {
                assert(all[j] == es[j]);
            }
        }
    }
    assert forall|x: K| #[trigger] has_key(all, x) <==> has_key(es, x) || x == k by {
        if has_key(all, x) {
            let i = choose|i: int| 0 <= i < all.len() && (#[trigger] all[i]).0 == x;
            if i < es.len() {
                assert(es[i].0 == all[i].0);
            }
        }
        if has_key(es, x) {
            let i = choose|i: int| 0 <= i < es.len() && (#[trigger] es[i]).0 == x;
            assert(all[i].0 == x);
        }
        if x == k {
            if has_key(es, k) {
                assert(all[p].0 == k);
            } else {
                assert(all[es.len() as int].0 == k);
            }
        }
    }
}

/// Entries that are inserted in turn keep their keys, each once.
pub proof fn lemma_in_order<K, V>(es: Seq<(K, V)>)
    ensures
        distinct_keys(in_order(es)),
        forall|k: K| #[trigger] has_key(in_order(es), k) <==> has_key(es, k),
    decreases es.len(),
{
    if es.len() > 0 {
        let front = es.drop_last();
        lemma_in_order(front);
        lemma_inserted(in_order(front), es.last().0, es.last().1);
        assert forall|k: K| #[trigger] has_key(in_order(es), k) <==> has_key(es, k) by {
            assert(has_key(in_order(front), k) <==> has_key(front, k));
            if has_key(front, k) {
                let i = choose|i: int| 0 <= i < front.len() && (#[trigger] front[i]).0 == k;
                assert(es[i].0 == k);
            }
            if has_key(es, k) {
                let i = choose|i: int| 0 <= i < es.len() && (#[trigger] es[i]).0 == k;
                if i < front.len() {
                    assert(front[i].0 == k);
                }
            }
            if k == es.last().0 {
                assert(es[es.len() - 1].0 == k);
            }
        }
    }
}

/// Entries with distinct keys list each entry of the map that is made of them once.
pub proof fn lemma_distinct_enumerates<K, V>(es: Seq<(K, V)>)
    requires
        distinct_keys(es),
    ensures
        enumerates(es, map_of(es)),
{
    lemma_map_of_keys(es);
    assert forall|i: int| 0 <= i < es.len() implies map_of(es).contains_key((#[trigger] es[i]).0)
        && map_of(es)[es[i].0] == es[i].1 by {
        assert forall|j: int| i < j < es.len() implies (#[trigger] es[j]).0 != es[i].0 by {}
        lemma_map_of_last(es, i);
    }
}

/// Entries with distinct keys stay as they are when inserted in turn.
pub proof fn law_distinct_entries_keep_their_order<K, V>(es: Seq<(K, V)>)
    requires
        distinct_keys(es),
    ensures
        in_order(es) == es,
    decreases es.len(),
{
    if es.len() == 0 {
        assert(in_order(es) =~= es);
    } else {
        let front = es.drop_last();
        let n = es.len() - 1;
        assert forall|i: int, j: int| 0 <= i < j < front.len() implies (#[trigger] front[i]).0 != (
        #[trigger] front[j]).0 by {
            assert(es[i].0 != es[j].0);
        }
        law_distinct_entries_keep_their_order(front);
        assert(!has_key(front, es.last().0)) by {
            if has_key(front, es.last().0) {
                let i = choose|i: int|
                    0 <= i < front.len() && (#[trigger] front[i]).0 == es.last().0;
                assert(es[i].0 != es[n].0);
            }
        }
        assert(front.push(es.last()) =~= es);
    }
}

/// Inserting entries in turn and taking the values that they stand for is the same either way
/// around.
pub proof fn lemma_in_order_vals<'de, K: SchemaRead<'de, C>, V: SchemaRead<'de, C>, C: ConfigCore>(
    xs: Seq<(K::Dst, V::Dst)>,
)
    requires
        key_injective::<K, C>(),
    ensures
        entry_vals::<K, V, C>(in_order(xs)) == in_order(entry_vals::<K, V, C>(xs)),
    decreases xs.len(),
{
    let vs = entry_vals::<K, V, C>(xs);
    if xs.len() == 0 {
        assert(entry_vals::<K, V, C>(in_order(xs)) =~= in_order(vs));
    } else {
        let (k, v) = xs.last();
        let done = in_order(xs.drop_last());
        let dv = entry_vals::<K, V, C>(done);
        lemma_in_order_vals::<K, V, C>(xs.drop_last());
        lemma_in_order(xs.drop_last());
        assert(vs.drop_last() =~= entry_vals::<K, V, C>(xs.drop_last()));
        let kv = K::dst_val(&k);
        if has_key(done, k) {
            let p = place_of(done, k);
            assert(0 <= p < done.len() && done[p].0 == k);
            assert(dv[p].0 == kv);
            assert(has_key(dv, kv));
            let q = place_of(dv, kv);
            assert(0 <= q < dv.len() && dv[q].0 == kv);
            assert(K::dst_val(&done[q].0) == K::dst_val(&k));
            assert(done[q].0 == k);
            assert(p == q) by {
                if p < q {
                    assert(done[p].0 != done[q].0);
                } else if q < p {
                    assert(done[q].0 != done[p].0);
                }
            }
            assert(entry_vals::<K, V, C>(in_order(xs)) =~= in_order(vs));
        } else {
            assert(!has_key(dv, kv)) by {
                if has_key(dv, kv) {
                    let i = choose|i: int| 0 <= i < dv.len() && (#[trigger] dv[i]).0 == kv;
                    assert(K::dst_val(&done[i].0) == K::dst_val(&k));
                    assert(done[i].0 == k);
                }
            }
            assert(entry_vals::<K, V, C>(in_order(xs)) =~= in_order(vs));
        }
    }
}

/// What results from inserting `ks` in turn: an element keeps its first place.
pub open spec fn set_in_order<K>(ks: Seq<K>) -> Seq<K>
    decreases ks.len(),
{
    if ks.len() == 0 {
        Seq::empty()
    } else {
        let done = set_in_order(ks.drop_last());
        if done.contains(ks.last()) {
            done
        } else {
            done.push(ks.last())
        }
    }
}

/// Elements that are inserted in turn stay, each once.
pub proof fn lemma_set_in_order<K>(ks: Seq<K>)
    ensures
        set_in_order(ks).no_duplicates(),
        forall|k: K| #[trigger] set_in_order(ks).contains(k) <==> ks.contains(k),
    decreases ks.len(),
{
    if ks.len() > 0 {
        let front = ks.drop_last();
        let done = set_in_order(front);
        lemma_set_in_order(front);
        assert forall|k: K| #[trigger] set_in_order(ks).contains(k) <==> ks.contains(k) by {
            assert(done.contains(k) <==> front.contains(k));
            if front.contains(k) {
                let i = front.index_of(k);
                assert(ks[i] == k);
            }
            if ks.contains(k) {
                let i = ks.index_of(k);
                if i < front.len() {
                    assert(front[i] == k);
                }
            }
            if k == ks.last() {
                assert(ks[ks.len() - 1] == k);
                if !done.contains(k) {
                    assert(done.push(k)[done.len() as int] == k);
                }
            }
            if done.contains(k) && !done.contains(ks.last()) {
                let i = done.index_of(k);
                assert(done.push(ks.last())[i] == k);
            }
        }
    }
}

/// Distinct elements stay as they are when inserted in turn.
pub proof fn law_distinct_elements_keep_their_order<K>(ks: Seq<K>)
    requires
        ks.no_duplicates(),
    ensures
        set_in_order(ks) == ks,
    decreases ks.len(),
{
    if ks.len() == 0 {
        assert(set_in_order(ks) =~= ks);
    } else {
        let front = ks.drop_last();
        law_distinct_elements_keep_their_order(front);
        assert(!front.contains(ks.last()));
        assert(front.push(ks.last()) =~= ks);
    }
}

/// Inserting elements in turn and taking the values that they stand for is the same either way
/// around.
pub proof fn lemma_set_in_order_vals<'de, K: SchemaRead<'de, C>, C: ConfigCore>(xs: Seq<K::Dst>)
    requires
        key_injective::<K, C>(),
    ensures
        dst_vals::<K, C>(set_in_order(xs)) == set_in_order(dst_vals::<K, C>(xs)),
    decreases xs.len(),
{
    let vs = dst_vals::<K, C>(xs);
    if xs.len() == 0 {
        assert(dst_vals::<K, C>(set_in_order(xs)) =~= set_in_order(vs));
    } else {
        let k = xs.last();
        let done = set_in_order(xs.drop_last());
        let dv = dst_vals::<K, C>(done);
        lemma_set_in_order_vals::<K, C>(xs.drop_last());
        assert(vs.drop_last() =~= dst_vals::<K, C>(xs.drop_last()));
        assert(done.contains(k) <==> dv.contains(K::dst_val(&k))) by {
            if done.contains(k) {
                let i = done.index_of(k);
                assert(dv[i] == K::dst_val(&k));
            }
            if dv.contains(K::dst_val(&k)) {
                let i = dv.index_of(K::dst_val(&k));
                assert(K::dst_val(&done[i]) == K::dst_val(&k));
                assert(done[i] == k);
            }
        }
        assert(dst_vals::<K, C>(set_in_order(xs)) =~= set_in_order(vs));
    }
}

} // verus!
