//! What all maps have in common: how they are written, and that reading gives them back.
use crate::config::ConfigCore;
use crate::len::{len_emit_checked, SeqLen};
use crate::model::{lemma_prepend_prepend, Fault, Input};
use crate::schema::containers::keyed::{
    enumerates, has_key, image_entries, image_map, kv_dec, kv_dec_n, lemma_enumerates,
    lemma_image_map, map_of, one_to_one,
};
use crate::schema::containers::policy::DuplicateKeyPolicy;
use crate::schema::elems::{
    emit_all, kv_iter_emit_checked, kv_iter_size, kv_iter_size_err, kv_size_err_all,
    lemma_emit_all, lemma_emit_all_step, lemma_emit_exactly,
};
use crate::schema::impls::tuple::{
    lemma_pair_dec, lemma_pair_emit, lemma_pair_round_trip, pair_emit, pair_meta,
};
use crate::schema::{RoundTrip, SchemaWrite, TypeMeta};
use vstd::layout;
use vstd::prelude::*;

verus! {

broadcast use {
    crate::model::lemma_follows_transitive,
    crate::model::lemma_follows_reflexive,
    crate::model::lemma_then_consistent,
};

proof fn lemma_kv_size_err_all<K: SchemaWrite<C>, V: SchemaWrite<C>, C: ConfigCore>(
    s: Seq<(K::Src, V::Src)>,
)
    ensures
        emit_all::<(K, V), C>(s).ok() ==> kv_size_err_all::<K, V, C>(s) is None,
    decreases s.len(),
{
    if s.len() > 0 {
        lemma_kv_size_err_all::<K, V, C>(s.drop_last());
        lemma_pair_emit::<K, V, C>(&s.last().0, &s.last().1);
    }
}

/// Writing a map, as far as its size goes.
pub proof fn lemma_map_emit<
    K: SchemaWrite<C>,
    V: SchemaWrite<C>,
    Len: SeqLen<C>,
    C: ConfigCore,
>(es: Seq<(K::Src, V::Src)>, len: nat)
    ensures
        kv_iter_emit_checked::<K, V, Len, C>(es, len).consistent(),
        kv_iter_emit_checked::<K, V, Len, C>(es, len).ok() ==> kv_iter_size_err::<K, V, Len, C>(
            es,
            len,
        ) is None,
        es.len() == len ==> kv_iter_emit_checked::<K, V, Len, C>(es, len).weight == kv_iter_size::<
            K,
            V,
            Len,
            C,
        >(es, len),
{
    Len::lemma_len_emit(len);
    lemma_emit_exactly::<K, V, C>(es, len);
    lemma_kv_size_err_all::<K, V, C>(es);
    assert(len_emit_checked::<Len, C, (K::Src, V::Src)>(len).consistent());
    if kv_iter_emit_checked::<K, V, Len, C>(es, len).ok() {
        assert(es.len() == len);
    }
}

/// The values that the entries stand for.
pub open spec fn src_entry_vals<K: SchemaWrite<C>, V: SchemaWrite<C>, C: ConfigCore>(
    es: Seq<(K::Src, V::Src)>,
) -> Seq<(K::Val, V::Val)> {
    Seq::new(es.len(), |i: int| (K::src_val(&es[i].0), V::src_val(&es[i].1)))
}

/// The values that the entries of a map stand for.
pub open spec fn src_map_vals<K: SchemaWrite<C>, V: SchemaWrite<C>, C: ConfigCore>(
    m: Map<K::Src, V::Src>,
) -> Map<K::Val, V::Val> {
    image_map(m, |k: K::Src| K::src_val(&k), |v: V::Src| V::src_val(&v))
}

/// Whether keys that stand for the same value are the same.
pub open spec fn src_key_injective<K: SchemaWrite<C>, C: ConfigCore>() -> bool {
    forall|a: K::Src, b: K::Src|
        #![trigger K::src_val(&a), K::src_val(&b)]
        K::src_val(&a) == K::src_val(&b) ==> a == b
}

/// What a map needs for reading to give back what was written.
pub open spec fn map_round_trips<
    'de,
    K: RoundTrip<'de, C>,
    V: RoundTrip<'de, C>,
    C: ConfigCore,
>() -> bool {
    &&& K::round_trips()
    &&& V::round_trips()
    &&& src_key_injective::<K, C>()
    &&& layout::size_of::<(K::Src, V::Src)>() == layout::size_of::<(K::Dst, V::Dst)>()
    &&& K::read_meta() is Static && V::read_meta() is Static ==> K::read_meta()->size
        + V::read_meta()->size <= usize::MAX
}

/// What is assumed of a map that is walked in the order `es`.
pub open spec fn map_valid<'de, K: RoundTrip<'de, C>, V: RoundTrip<'de, C>, C: ConfigCore>(
    es: Seq<(K::Src, V::Src)>,
    m: Map<K::Src, V::Src>,
) -> bool {
    &&& enumerates(es, m)
    &&& forall|i: int|
        0 <= i < es.len() ==> K::src_valid(&(#[trigger] es[i]).0) && V::src_valid(&es[i].1)
}

proof fn lemma_kv_dec_n_round_trip<
    'de,
    K: RoundTrip<'de, C>,
    V: RoundTrip<'de, C>,
    Dup: DuplicateKeyPolicy,
    C: ConfigCore,
>(es: Seq<(K::Src, V::Src)>, rest: Input)
    requires
        K::round_trips(),
        V::round_trips(),
        forall|i: int|
            0 <= i < es.len() ==> K::src_valid(&(#[trigger] es[i]).0) && V::src_valid(&es[i].1),
        forall|i: int, j: int|
            0 <= i < j < es.len() ==> K::src_val(&(#[trigger] es[i]).0) != K::src_val(
                &(#[trigger] es[j]).0,
            ),
        K::needs_backing() || V::needs_backing() ==> rest.backing,
        emit_all::<(K, V), C>(es).ok(),
        emit_all::<(K, V), C>(es).weight <= usize::MAX,
    ensures
        kv_dec_n::<K, V, Dup, C>(es.len(), rest.prepend(emit_all::<(K, V), C>(es).bytes)) == Ok::<
            _,
            Fault,
        >((src_entry_vals::<K, V, C>(es), rest)),
    decreases es.len(),
{
    let inp = rest.prepend(emit_all::<(K, V), C>(es).bytes);
    let vs = src_entry_vals::<K, V, C>(es);
    if es.len() == 0 {
        assert(inp.bytes =~= rest.bytes);
        assert(vs =~= Seq::empty());
    } else {
        let n = es.len() - 1;
        let front = es.drop_last();
        let last = es.last();
        let one = pair_emit::<K, V, C>(&last.0, &last.1);
        let mid = rest.prepend(one.bytes);
        assert(es.take(n) =~= front);
        assert(es.take(n + 1) =~= es);
        lemma_emit_all_step::<(K, V), C>(es, n);
        lemma_prepend_prepend(rest, emit_all::<(K, V), C>(front).bytes, one.bytes);
        assert forall|i: int| 0 <= i < front.len() implies K::src_valid(&(#[trigger] front[i]).0)
            && V::src_valid(&front[i].1) by {
            assert(es[i] == front[i]);
        }
        assert forall|i: int, j: int| 0 <= i < j < front.len() implies K::src_val(
            &(#[trigger] front[i]).0,
        ) != K::src_val(&(#[trigger] front[j]).0) by {
            assert(es[i] == front[i] && es[j] == front[j]);
        }
        lemma_kv_dec_n_round_trip::<K, V, Dup, C>(front, mid);
        assert(es[n] == last);
        lemma_pair_round_trip::<K, V, C>(&last.0, &last.1, rest);
        let fs = src_entry_vals::<K, V, C>(front);
        let e = (K::src_val(&last.0), V::src_val(&last.1));
        assert(!has_key(fs, e.0)) by {
            if has_key(fs, e.0) {
                let i = choose|i: int| 0 <= i < fs.len() && (#[trigger] fs[i]).0 == e.0;
                assert(K::src_val(&es[i].0) != K::src_val(&es[n].0));
                assert(fs[i].0 == K::src_val(&es[i].0));
            }
        }
        assert(fs.push(e) =~= vs);
    }
}

proof fn lemma_kv_consumed<
    'de,
    K: RoundTrip<'de, C>,
    V: RoundTrip<'de, C>,
    Dup: DuplicateKeyPolicy,
    C: ConfigCore,
>(n: nat, inp: Input)
    ensures
        kv_dec_n::<K, V, Dup, C>(n, inp) matches Ok((es, rest)) ==> {
            &&& rest.follows(inp)
            &&& pair_meta(K::read_meta(), V::read_meta()) matches TypeMeta::Static { size, .. }
                ==> inp.consumed(rest) == n * size
        },
    decreases n,
{
    if n > 0 {
        lemma_kv_consumed::<K, V, Dup, C>((n - 1) as nat, inp);
        if let Ok((es, mid)) = kv_dec_n::<K, V, Dup, C>((n - 1) as nat, inp) {
            lemma_pair_dec::<K, V, C>(mid);
        }
        if let TypeMeta::Static { size, .. } = pair_meta(K::read_meta(), V::read_meta()) {
            let m = n - 1;
            assert(m * size + size == (m + 1) * size) by (nonlinear_arith);
        }
    }
}

/// A map stands for the map that is made of the values of its entries.
pub proof fn lemma_src_map_vals<K: SchemaWrite<C>, V: SchemaWrite<C>, C: ConfigCore>(
    es: Seq<(K::Src, V::Src)>,
    m: Map<K::Src, V::Src>,
)
    requires
        src_key_injective::<K, C>(),
        enumerates(es, m),
    ensures
        map_of(src_entry_vals::<K, V, C>(es)) == src_map_vals::<K, V, C>(m),
{
    let f = |k: K::Src| K::src_val(&k);
    let g = |v: V::Src| V::src_val(&v);
    assert(one_to_one(f)) by {
        assert forall|a: K::Src, b: K::Src| #![trigger f(a), f(b)] f(a) == f(b) implies a == b by {
            assert(K::src_val(&a) == K::src_val(&b));
        }
    }
    lemma_enumerates(es, m);
    lemma_image_map(es, f, g);
    assert(image_entries(es, f, g) =~= src_entry_vals::<K, V, C>(es));
}

/// A map that can be written is accepted on read-back under the same configuration, whether
/// repeated keys are allowed or not, and reading gives back its entries.
pub proof fn lemma_map_round_trip<
    'de,
    K: RoundTrip<'de, C>,
    V: RoundTrip<'de, C>,
    Len: SeqLen<C>,
    Dup: DuplicateKeyPolicy,
    C: ConfigCore,
>(es: Seq<(K::Src, V::Src)>, m: Map<K::Src, V::Src>, len: nat, rest: Input)
    requires
        map_round_trips::<K, V, C>(),
        map_valid::<K, V, C>(es, m),
        K::needs_backing() || V::needs_backing() ==> rest.backing,
        len <= usize::MAX,
        kv_iter_emit_checked::<K, V, Len, C>(es, len).ok(),
        kv_iter_emit_checked::<K, V, Len, C>(es, len).weight <= usize::MAX,
    ensures
        kv_dec::<K, V, Len, Dup, C>(
            rest.prepend(kv_iter_emit_checked::<K, V, Len, C>(es, len).bytes),
        ) == Ok::<_, Fault>((src_entry_vals::<K, V, C>(es), rest)),
        map_of(src_entry_vals::<K, V, C>(es)) == src_map_vals::<K, V, C>(m),
{
    assert(es.len() == len);
    let body = emit_all::<(K, V), C>(es);
    let mid = rest.prepend(body.bytes);
    lemma_prepend_prepend(rest, Len::len_emit(len).bytes, body.bytes);
    Len::lemma_len_round_trip(len, mid);
    assert forall|i: int, j: int| 0 <= i < j < es.len() implies K::src_val(&(#[trigger] es[i]).0)
        != K::src_val(&(#[trigger] es[j]).0) by {
        if K::src_val(&es[i].0) == K::src_val(&es[j].0) {
            assert(es[i].0 == es[j].0);
        }
    }
    lemma_kv_dec_n_round_trip::<K, V, Dup, C>(es, rest);
    lemma_kv_consumed::<K, V, Dup, C>(len, mid);
    lemma_emit_all::<(K, V), C>(es);
    lemma_src_map_vals::<K, V, C>(es, m);
}

} // verus!
