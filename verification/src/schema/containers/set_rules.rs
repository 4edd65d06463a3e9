//! What all sets have in common: how they are written, and that reading gives them back.
use crate::config::ConfigCore;
use crate::len::{len_emit_checked, SeqLen};
use crate::model::{lemma_prepend_prepend, Fault, Input};
use crate::schema::containers::decode::{dst_vals, src_vals};
use crate::schema::containers::keyed::{elem_dec, elem_dec_n};
use crate::schema::containers::map_rules::src_key_injective;
use crate::schema::containers::policy::DuplicateKeyPolicy;
use crate::schema::elems::{
    emit_all, iter_emit_checked, iter_size, iter_size_err, lemma_emit_all, lemma_emit_all_step,
    lemma_emit_first,
};
use crate::schema::{RoundTrip, SchemaRead, SchemaWrite, TypeMeta};
use vstd::layout;
use vstd::prelude::*;

verus! {

broadcast use {
    crate::model::lemma_follows_transitive,
    crate::model::lemma_follows_reflexive,
    crate::model::lemma_then_consistent,
};

/// Writing a set, as far as its size goes.
pub proof fn lemma_set_emit<K: SchemaWrite<C>, Len: SeqLen<C>, C: ConfigCore>(
    ks: Seq<K::Src>,
    len: nat,
)
    ensures
        iter_emit_checked::<K, Len, C>(ks, len).consistent(),
        iter_emit_checked::<K, Len, C>(ks, len).ok() && ks.len() == len ==> iter_size_err::<
            K,
            Len,
            C,
        >(ks, len) is None,
        ks.len() == len ==> iter_emit_checked::<K, Len, C>(ks, len).weight == iter_size::<
            K,
            Len,
            C,
        >(ks, len),
{
    Len::lemma_len_emit(len);
    lemma_emit_first::<K, C>(ks, len);
    lemma_emit_all::<K, C>(ks);
    assert(len_emit_checked::<Len, C, K::Src>(len).consistent());
}

/// The values that the elements of a set stand for.
pub open spec fn src_set_vals<K: SchemaWrite<C>, C: ConfigCore>(s: Set<K::Src>) -> Set<K::Val> {
    s.map(|k: K::Src| K::src_val(&k))
}

/// The values that the elements of a set stand for.
pub open spec fn dst_set_vals<'de, K: SchemaRead<'de, C>, C: ConfigCore>(s: Set<K::Dst>) -> Set<
    K::Val,
> {
    s.map(|k: K::Dst| K::dst_val(&k))
}

/// A set that is made of elements stands for the set that is made of their values.
pub proof fn lemma_dst_set_vals<'de, K: SchemaRead<'de, C>, C: ConfigCore>(xs: Seq<K::Dst>)
    ensures
        dst_set_vals::<K, C>(xs.to_set()) == dst_vals::<K, C>(xs).to_set(),
{
    let a = dst_set_vals::<K, C>(xs.to_set());
    let vs = dst_vals::<K, C>(xs);
    assert forall|v: K::Val| a.contains(v) <==> vs.to_set().contains(v) by {
        if a.contains(v) {
            let k = choose|k: K::Dst| xs.to_set().contains(k) && v == K::dst_val(&k);
            assert(xs.contains(k));
            let i = xs.index_of(k);
            assert(vs[i] == v);
        }
        if vs.to_set().contains(v) {
            let i = vs.index_of(v);
            assert(xs.to_set().contains(xs[i]));
        }
    }
    assert(a =~= vs.to_set());
}

/// A set that lists elements stands for the set of their values.
pub proof fn lemma_src_set_vals<K: SchemaWrite<C>, C: ConfigCore>(ks: Seq<K::Src>)
    ensures
        src_set_vals::<K, C>(ks.to_set()) == src_vals::<K, C>(ks).to_set(),
{
    let a = src_set_vals::<K, C>(ks.to_set());
    let vs = src_vals::<K, C>(ks);
    assert forall|v: K::Val| a.contains(v) <==> vs.to_set().contains(v) by {
        if a.contains(v) {
            let k = choose|k: K::Src| ks.to_set().contains(k) && v == K::src_val(&k);
            assert(ks.contains(k));
            let i = ks.index_of(k);
            assert(vs[i] == v);
        }
        if vs.to_set().contains(v) {
            let i = vs.index_of(v);
            assert(ks.to_set().contains(ks[i]));
        }
    }
    assert(a =~= vs.to_set());
}

/// What a set needs for reading to give back what was written.
pub open spec fn set_round_trips<'de, K: RoundTrip<'de, C>, C: ConfigCore>() -> bool {
    &&& K::round_trips()
    &&& src_key_injective::<K, C>()
    &&& layout::size_of::<K::Src>() == layout::size_of::<K::Dst>()
}

/// Whether `ks` lists each element of `s` once.
pub open spec fn lists<K>(ks: Seq<K>, s: Set<K>) -> bool {
    &&& ks.no_duplicates()
    &&& ks.to_set() == s
}

/// What is assumed of a set that is walked in the order `ks`.
pub open spec fn set_valid<'de, K: RoundTrip<'de, C>, C: ConfigCore>(
    ks: Seq<K::Src>,
    s: Set<K::Src>,
    len: nat,
) -> bool {
    &&& lists(ks, s)
    &&& ks.len() == len
    &&& forall|i: int| 0 <= i < ks.len() ==> K::src_valid(&#[trigger] ks[i])
}

proof fn lemma_elem_dec_n_round_trip<
    'de,
    K: RoundTrip<'de, C>,
    Dup: DuplicateKeyPolicy,
    C: ConfigCore,
>(ks: Seq<K::Src>, rest: Input)
    requires
        K::round_trips(),
        src_key_injective::<K, C>(),
        ks.no_duplicates(),
        forall|i: int| 0 <= i < ks.len() ==> K::src_valid(&#[trigger] ks[i]),
        K::needs_backing() ==> rest.backing,
        emit_all::<K, C>(ks).ok(),
        emit_all::<K, C>(ks).weight <= usize::MAX,
    ensures
        elem_dec_n::<K, Dup, C>(ks.len(), rest.prepend(emit_all::<K, C>(ks).bytes)) == Ok::<
            _,
            Fault,
        >((src_vals::<K, C>(ks), rest)),
    decreases ks.len(),
{
    let inp = rest.prepend(emit_all::<K, C>(ks).bytes);
    let vs = src_vals::<K, C>(ks);
    if ks.len() == 0 {
        assert(inp.bytes =~= rest.bytes);
        assert(vs =~= Seq::empty());
    } else {
        let n = ks.len() - 1;
        let front = ks.drop_last();
        let last = ks.last();
        let one = K::emit(&last);
        let mid = rest.prepend(one.bytes);
        assert(ks.take(n) =~= front);
        assert(ks.take(n + 1) =~= ks);
        lemma_emit_all_step::<K, C>(ks, n);
        lemma_prepend_prepend(rest, emit_all::<K, C>(front).bytes, one.bytes);
        assert forall|i: int| 0 <= i < front.len() implies K::src_valid(&#[trigger] front[i]) by {
            assert(ks[i] == front[i]);
        }
        assert(front.no_duplicates());
        lemma_elem_dec_n_round_trip::<K, Dup, C>(front, mid);
        assert(ks[n] == last);
        K::lemma_round_trip(&last, rest);
        let fs = src_vals::<K, C>(front);
        assert(!fs.contains(K::src_val(&last))) by {
            if fs.contains(K::src_val(&last)) {
                let i = fs.index_of(K::src_val(&last));
                assert(K::src_val(&front[i]) == K::src_val(&last));
                assert(front[i] == last);
                assert(ks[i] == ks[n]);
            }
        }
        assert(fs.push(K::src_val(&last)) =~= vs);
    }
}

proof fn lemma_elem_consumed<
    'de,
    K: RoundTrip<'de, C>,
    Dup: DuplicateKeyPolicy,
    C: ConfigCore,
>(n: nat, inp: Input)
    ensures
        elem_dec_n::<K, Dup, C>(n, inp) matches Ok((ks, rest)) ==> {
            &&& rest.follows(inp)
            &&& K::read_meta() matches TypeMeta::Static { size, .. } ==> inp.consumed(rest) == n
                * size
        },
    decreases n,
{
    if n > 0 {
        lemma_elem_consumed::<K, Dup, C>((n - 1) as nat, inp);
        if let Ok((ks, mid)) = elem_dec_n::<K, Dup, C>((n - 1) as nat, inp) {
            K::lemma_dec(mid);
        }
        if let TypeMeta::Static { size, .. } = K::read_meta() {
            let m = n - 1;
            assert(m * size + size == (m + 1) * size) by (nonlinear_arith);
        }
    }
}

/// A set that can be written is accepted on read-back under the same configuration, whether
/// repeated elements are allowed or not, and reading gives back its elements.
pub proof fn lemma_set_round_trip<
    'de,
    K: RoundTrip<'de, C>,
    Len: SeqLen<C>,
    Dup: DuplicateKeyPolicy,
    C: ConfigCore,
>(ks: Seq<K::Src>, s: Set<K::Src>, len: nat, rest: Input)
    requires
        set_round_trips::<K, C>(),
        set_valid::<K, C>(ks, s, len),
        K::needs_backing() ==> rest.backing,
        len <= usize::MAX,
        iter_emit_checked::<K, Len, C>(ks, len).ok(),
        iter_emit_checked::<K, Len, C>(ks, len).weight <= usize::MAX,
    ensures
        elem_dec::<K, Len, Dup, C>(
            rest.prepend(iter_emit_checked::<K, Len, C>(ks, len).bytes),
        ) == Ok::<_, Fault>((src_vals::<K, C>(ks), rest)),
        src_vals::<K, C>(ks).to_set() == src_set_vals::<K, C>(s),
{
    lemma_emit_first::<K, C>(ks, len);
    let body = emit_all::<K, C>(ks);
    let mid = rest.prepend(body.bytes);
    lemma_prepend_prepend(rest, Len::len_emit(len).bytes, body.bytes);
    Len::lemma_len_round_trip(len, mid);
    lemma_elem_dec_n_round_trip::<K, Dup, C>(ks, rest);
    lemma_elem_consumed::<K, Dup, C>(len, mid);
    lemma_emit_all::<K, C>(ks);
    lemma_src_set_vals::<K, C>(ks);
}

} // verus!
