//! What the bytes of what an iterator yields are.
use crate::config::ConfigCore;
use crate::error::WriteError;
use crate::len::{prealloc_ok, prealloc_write_error, SeqLen};
use crate::schema::containers;
use crate::schema::containers::iter::law_iter_encodes_like_a_vector;
use crate::schema::containers::seq::lemma_seq_emit;
use crate::schema::containers::walked::lemma_pairs_are_a_sequence;
use crate::schema::elems::{
    emit_all, iter_emit, iter_emit_checked, iter_size, iter_size_err, kv_iter_emit,
    kv_iter_emit_checked, kv_iter_size, kv_iter_size_err, law_elements_are_written_if_each_can_be,
    lemma_emit_all,
};
use crate::schema::SchemaWrite;
use vstd::prelude::*;

verus! {

/// Items of which there are as many as the iterator said are written as a vector of them, and items
/// beyond that are left.
pub proof fn law_iterators_encode_like_vectors<C: ConfigCore, T: SchemaWrite<C>, Len: SeqLen<C>>(
    items: Seq<T::Src>,
    v: Vec<T::Src>,
)
    requires
        v@.len() <= items.len(),
        v@ == items.take(v@.len() as int),
    ensures
        iter_emit_checked::<T, Len, C>(items, v@.len()) == <containers::Vec<
            T,
            Len,
        > as SchemaWrite<C>>::emit(&v),
        prealloc_ok::<C, T::Src>(v@.len()) ==> iter_emit::<T, Len, C>(items, v@.len())
            == <containers::Vec<T, Len> as SchemaWrite<C>>::emit(&v),
        v@.len() == items.len() ==> {
            &&& iter_size_err::<T, Len, C>(items, v@.len()) == <containers::Vec<
                T,
                Len,
            > as SchemaWrite<C>>::size_err(&v)
            &&& iter_size::<T, Len, C>(items, v@.len()) == <containers::Vec<T, Len> as SchemaWrite<
                C,
            >>::emit(&v).weight
        },
{
    law_iter_encodes_like_a_vector::<T, Len, C>(v@);
    lemma_seq_emit::<T, Len, C>(v@);
    lemma_emit_all::<T, C>(v@);
    assert(v@.take(v@.len() as int) =~= v@);
    if v@.len() == items.len() {
        assert(v@ =~= items);
    }
}

/// An iterator that yields fewer items than it said is an error behind the items that it does yield,
/// if those can be written.
pub proof fn law_short_iterators_fail<C: ConfigCore, T: SchemaWrite<C>, Len: SeqLen<C>>(
    items: Seq<T::Src>,
    len: nat,
)
    requires
        items.len() < len,
        Len::len_emit(len).err is None,
        forall|i: int| 0 <= i < items.len() ==> (#[trigger] T::emit(&items[i])).err is None,
    ensures
        iter_emit::<T, Len, C>(items, len).err == Some(
            WriteError::Custom("ExactSizeIterator yielded fewer elements than its reported len()"),
        ),
        iter_emit::<T, Len, C>(items, len).bytes == Len::len_emit(len).bytes + emit_all::<T, C>(
            items,
        ).bytes,
        prealloc_ok::<C, T::Src>(len) ==> iter_emit_checked::<T, Len, C>(items, len) == iter_emit::<
            T,
            Len,
            C,
        >(items, len),
        !prealloc_ok::<C, T::Src>(len) ==> {
            &&& iter_emit_checked::<T, Len, C>(items, len).err == Some(
                prealloc_write_error::<C, T::Src>(len),
            )
            &&& iter_emit_checked::<T, Len, C>(items, len).bytes.len() == 0
        },
{
    assert forall|i: int| 0 <= i < items.len() implies #[trigger] T::emit(&items[i]).ok() by {
        assert(T::emit(&items[i]).err is None);
    }
    law_elements_are_written_if_each_can_be::<T, C>(items);
    let all = emit_all::<T, C>(items).bytes;
    assert(all + Seq::<u8>::empty() =~= all);
}

/// Pairs of which there are as many as the iterator said are written as a vector of them.
pub proof fn law_pair_iterators_encode_like_vectors<
    C: ConfigCore,
    K: SchemaWrite<C>,
    V: SchemaWrite<C>,
    Len: SeqLen<C>,
>(v: Vec<(K::Src, V::Src)>)
    ensures
        kv_iter_emit_checked::<K, V, Len, C>(v@, v@.len()) == <containers::Vec<
            (K, V),
            Len,
        > as SchemaWrite<C>>::emit(&v),
        prealloc_ok::<C, (K::Src, V::Src)>(v@.len()) ==> kv_iter_emit::<K, V, Len, C>(v@, v@.len())
            == <containers::Vec<(K, V), Len> as SchemaWrite<C>>::emit(&v),
        kv_iter_size_err::<K, V, Len, C>(v@, v@.len()) == <containers::Vec<
            (K, V),
            Len,
        > as SchemaWrite<C>>::size_err(&v),
        kv_iter_size::<K, V, Len, C>(v@, v@.len()) == <containers::Vec<(K, V), Len> as SchemaWrite<
            C,
        >>::emit(&v).weight,
{
    lemma_pairs_are_a_sequence::<K, V, Len, C>(v@);
}

/// An iterator over pairs that yields more or fewer than it said is an error behind those that there
/// should have been, if they can be written.
pub proof fn law_miscounted_pairs_fail<
    C: ConfigCore,
    K: SchemaWrite<C>,
    V: SchemaWrite<C>,
    Len: SeqLen<C>,
>(items: Seq<(K::Src, V::Src)>, len: nat)
    requires
        items.len() != len,
        Len::len_emit(len).err is None,
        forall|i: int|
            0 <= i < items.len() ==> (#[trigger] <(K, V) as SchemaWrite<C>>::emit(
                &items[i],
            )).err is None,
    ensures
        kv_iter_emit::<K, V, Len, C>(items, len).err == Some(
            WriteError::Custom("ExactSizeIterator did not yield exactly its reported len()"),
        ),
        items.len() < len ==> kv_iter_emit::<K, V, Len, C>(items, len).bytes == Len::len_emit(
            len,
        ).bytes + emit_all::<(K, V), C>(items).bytes,
        items.len() > len ==> kv_iter_emit::<K, V, Len, C>(items, len).bytes == Len::len_emit(
            len,
        ).bytes + emit_all::<(K, V), C>(items.take(len as int)).bytes,
        prealloc_ok::<C, (K::Src, V::Src)>(len) ==> kv_iter_emit_checked::<K, V, Len, C>(items, len)
            == kv_iter_emit::<K, V, Len, C>(items, len),
        !prealloc_ok::<C, (K::Src, V::Src)>(len) ==> {
            &&& kv_iter_emit_checked::<K, V, Len, C>(items, len).err == Some(
                prealloc_write_error::<C, (K::Src, V::Src)>(len),
            )
            &&& kv_iter_emit_checked::<K, V, Len, C>(items, len).bytes.len() == 0
        },
{
    let some = if items.len() > len {
        items.take(len as int)
    } else {
        items
    };
    assert forall|i: int| 0 <= i < some.len() implies #[trigger] <(K, V) as SchemaWrite<C>>::emit(
        &some[i],
    ).ok() by {
        assert(<(K, V) as SchemaWrite<C>>::emit(&items[i]).err is None);
    }
    law_elements_are_written_if_each_can_be::<(K, V), C>(some);
    let all = emit_all::<(K, V), C>(some).bytes;
    assert(all + Seq::<u8>::empty() =~= all);
}

} // verus!
