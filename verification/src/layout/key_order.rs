//! The order in which sorted maps and sets come by what they hold.
use crate::schema::containers::maps::{ascending_keys, btree_map_model, hash_map_model};
use crate::schema::containers::sets::{ascending, btree_set_model, hash_set_model};
use core::cmp::Ordering;
use vstd::laws_cmp::obeys_cmp;
use vstd::prelude::*;
use vstd::std_specs::btree;
use vstd::std_specs::cmp::OrdSpec;
use vstd::std_specs::hash;

verus! {

broadcast use vstd::std_specs::btree::group_btree_axioms;

/// Keys are in ascending order if each is less than all behind it.
pub proof fn law_ascending_keys<K: Ord, V>(es: Seq<(K, V)>)
    requires
        obeys_cmp::<K>(),
    ensures
        ascending_keys(es) <==> forall|i: int, j: int|
            0 <= i < j < es.len() ==> (#[trigger] es[i]).0.cmp_spec(&(#[trigger] es[j]).0)
                == Ordering::Less,
{
    let ks = es.map_values(|e: (K, V)| e.0);
    assert(forall|i: int| 0 <= i < es.len() ==> #[trigger] ks[i] == es[i].0);
    assert(btree::increasing_seq(ks) <==> forall|i: int, j: int|
        #![trigger ks[i], ks[j]]
        0 <= i < j < ks.len() ==> ks[i].cmp_spec(&ks[j]) is Less);
    if ascending_keys(es) {
        assert forall|i: int, j: int| 0 <= i < j < es.len() implies (#[trigger] es[i]).0.cmp_spec(
            &(#[trigger] es[j]).0,
        ) == Ordering::Less by {
            assert(ks[i].cmp_spec(&ks[j]) is Less);
        }
    }
    if forall|i: int, j: int|
        0 <= i < j < es.len() ==> (#[trigger] es[i]).0.cmp_spec(&(#[trigger] es[j]).0)
            == Ordering::Less {
        assert forall|i: int, j: int|
            #![trigger ks[i], ks[j]]
            0 <= i < j < ks.len() implies ks[i].cmp_spec(&ks[j]) is Less by {
            assert(es[i].0.cmp_spec(&es[j].0) == Ordering::Less);
        }
    }
}

/// Elements are in ascending order only if each is less than all behind it.
pub proof fn law_ascending_elements<'a, K: Ord>(ks: Seq<K>, i: int, j: int)
    requires
        obeys_cmp::<&'a K>(),
        ascending(ks),
        0 <= i < j < ks.len(),
    ensures
        ks[i].cmp_spec(&ks[j]) == Ordering::Less,
{
    let refs = choose|refs: Seq<&K>| refs.unref() == ks && #[trigger] btree::increasing_seq(refs);
    assert(OrdSpec::cmp_spec(&refs[i], &refs[j]) is Less);
    assert(ks[i] == *refs[i] && ks[j] == *refs[j]);
}

/// When the collections of the standard library tell keys apart: when their hashes and comparisons
/// do.
pub proof fn law_keys_are_told_apart<K, S>()
    ensures
        hash_map_model::<K, S>() == (hash::obeys_key_model::<K>() && hash::builds_valid_hashers::<
            S,
        >()),
        hash_set_model::<K, S>() == (hash::obeys_key_model::<K>() && hash::builds_valid_hashers::<
            S,
        >()),
        btree_map_model::<K>() == btree::key_obeys_cmp_spec::<K>(),
        btree_set_model::<K>() == btree::key_obeys_cmp_spec::<K>(),
{
}

} // verus!
