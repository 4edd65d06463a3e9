//! What holds of writing and reading as a whole.
use crate::config::serde::{input_of, limited};
use crate::config::{Config, ConfigCore};
use crate::error::spec_duplicate_key;
use crate::len::{prealloc_ok, SeqLen};
use crate::model::{Fault, Input};
use crate::schema::byte_order::uint_bytes;
use crate::schema::containers;
use crate::schema::borrowed_slices::lemma_byte_vals;
use crate::schema::containers::decode::dec_n;
use crate::schema::containers::keyed::{
    elem_dec_n, has_key, kv_dec_n, lemma_map_of_keys, lemma_map_of_last, map_of,
};
use crate::schema::containers::policy::{AllowDuplicateKeys, CheckUniqueKeys};
use crate::schema::external::ordered_rules::distinct_keys;
use crate::schema::impls::text::{borrowed_text_dec, text_dec};
use crate::schema::impls::tuple::pair_dec;
use crate::schema::{RoundTrip, SchemaRead, SchemaWrite, TypeMeta};
use vstd::prelude::*;

verus! {

/// A value that was serialized is given back by deserializing, and takes up all of the bytes, if
/// there are no more of them than the configuration lets be read.
pub proof fn law_deserialize_gives_back_serialized<'de, T: RoundTrip<'de, C>, C: ConfigCore>(
    src: &T::Src,
)
    requires
        T::round_trips(),
        T::src_valid(src),
        T::emit(src).ok(),
        T::emit(src).weight <= usize::MAX,
        C::deserialization_limit() matches Some(limit) ==> T::emit(src).weight <= limit,
    ensures
        T::dec(input_of::<C>(T::emit(src).bytes)) == Ok::<_, Fault>(
            (T::src_val(src), Input { bytes: Seq::empty(), backing: true }),
        ),
{
    let rest = Input { bytes: Seq::empty(), backing: true };
    T::lemma_emit(src);
    T::lemma_round_trip(src, rest);
    assert(rest.prepend(T::emit(src).bytes).bytes =~= T::emit(src).bytes);
}

/// Whatever follows a value is left, and does not bear on what is read.
pub proof fn law_reading_stops_behind_the_value<'de, T: RoundTrip<'de, C>, C: ConfigCore>(
    src: &T::Src,
    rest: Input,
)
    requires
        T::round_trips(),
        T::src_valid(src),
        T::needs_backing() ==> rest.backing,
        T::emit(src).ok(),
        T::emit(src).weight <= usize::MAX,
    ensures
        T::dec(rest.prepend(T::emit(src).bytes)) == Ok::<_, Fault>((T::src_val(src), rest)),
{
    T::lemma_round_trip(src, rest);
}

/// No two values are written alike, nor is one written as the beginning of another.
pub proof fn law_encodings_are_unique<'de, T: RoundTrip<'de, C>, C: ConfigCore>(
    a: &T::Src,
    b: &T::Src,
)
    requires
        T::round_trips(),
        T::src_valid(a),
        T::src_valid(b),
        T::emit(a).ok(),
        T::emit(a).weight <= usize::MAX,
        T::emit(b).ok(),
        T::emit(b).weight <= usize::MAX,
        T::emit(a).bytes.is_prefix_of(T::emit(b).bytes),
    ensures
        T::src_val(a) == T::src_val(b),
        T::emit(a).bytes == T::emit(b).bytes,
{
    let (x, y) = (T::emit(a).bytes, T::emit(b).bytes);
    let none = Input { bytes: Seq::empty(), backing: true };
    let tail = Input { bytes: y.skip(x.len() as int), backing: true };
    T::lemma_round_trip(a, tail);
    T::lemma_round_trip(b, none);
    assert(tail.prepend(x).bytes =~= y);
    assert(none.prepend(y).bytes =~= y);
    assert(x =~= y);
}

/// The size of a value that can be written is the number of bytes that are written.
pub proof fn law_size_is_the_number_of_bytes<T: SchemaWrite<C>, C: ConfigCore>(src: &T::Src)
    requires
        T::emit(src).ok(),
    ensures
        T::size_err(src) is None,
        T::emit(src).weight == T::emit(src).bytes.len(),
{
    T::lemma_emit(src);
}

/// With a statically known size, every value that can be written takes up that many bytes, and so
/// does every value that is read.
pub proof fn law_static_size_is_exact<'de, T: SchemaWrite<C> + SchemaRead<'de, C>, C: ConfigCore>(
    src: &T::Src,
    inp: Input,
)
    ensures
        T::write_meta() matches TypeMeta::Static { size, .. } ==> T::emit(src).ok()
            ==> T::emit(src).bytes.len() == size,
        T::read_meta() matches TypeMeta::Static { size, .. } ==> T::dec(inp) matches Ok((v, rest))
            ==> inp.consumed(rest) == size,
{
    T::lemma_emit(src);
    T::lemma_dec(inp);
}

/// No deserialization reads more bytes than the configuration allows, counted over the whole value.
pub proof fn law_limit_bounds_what_is_read<'de, T: SchemaRead<'de, C>, C: ConfigCore>(
    bytes: Seq<u8>,
)
    ensures
        C::deserialization_limit() matches Some(limit) ==> T::dec(
            input_of::<C>(bytes),
        ) matches Ok((v, rest)) ==> input_of::<C>(bytes).consumed(rest) <= limit,
{
    T::lemma_dec(input_of::<C>(bytes));
}

/// A limit that is no less than the number of bytes changes nothing.
pub proof fn law_ample_limit_changes_nothing(limit: usize, inp: Input)
    requires
        inp.bytes.len() <= limit,
    ensures
        limited(Some(limit), inp) == inp,
        limited(None, inp) == inp,
{
}

/// The bytes of a number in one order are those in the other, backwards.
pub proof fn law_byte_orders_mirror_each_other(v: nat, n: nat)
    ensures
        uint_bytes(v, n, true) == uint_bytes(v, n, false).reverse(),
{
}

/// A key of which the entries are put into a map in turn holds the value of the last of them.
pub proof fn law_last_entry_wins<K, V>(es: Seq<(K, V)>, i: int)
    requires
        0 <= i < es.len(),
        forall|j: int| i < j < es.len() ==> (#[trigger] es[j]).0 != es[i].0,
    ensures
        map_of(es).contains_key(es[i].0),
        map_of(es)[es[i].0] == es[i].1,
{
    lemma_map_of_last(es, i);
}

/// A map holds the keys of the entries that were put into it, and no others.
pub proof fn law_map_has_the_keys_put_in<K, V>(es: Seq<(K, V)>, k: K)
    ensures
        map_of(es).contains_key(k) <==> has_key(es, k),
{
    lemma_map_of_keys(es);
}

/// Where repeated keys are refused, a read fails for that reason exactly if the entries repeat a
/// key, and otherwise gives the same entries as where they are allowed.
pub proof fn law_unique_keys_are_checked<
    'de,
    K: SchemaRead<'de, C>,
    V: SchemaRead<'de, C>,
    C: ConfigCore,
>(n: nat, inp: Input)
    ensures
        kv_dec_n::<K, V, AllowDuplicateKeys, C>(n, inp) matches Ok((es, rest)) ==> {
            &&& distinct_keys(es) ==> kv_dec_n::<K, V, CheckUniqueKeys, C>(n, inp) == Ok::<
                _,
                Fault,
            >((es, rest))
            &&& !distinct_keys(es) ==> {
                &&& kv_dec_n::<K, V, CheckUniqueKeys, C>(n, inp) is Err
                &&& kv_dec_n::<K, V, CheckUniqueKeys, C>(n, inp)->Err_0.err == spec_duplicate_key()
            }
        },
    decreases n,
{
    if n > 0 {
        let m = (n - 1) as nat;
        law_unique_keys_are_checked::<K, V, C>(m, inp);
        if let Ok((es, mid)) = kv_dec_n::<K, V, AllowDuplicateKeys, C>(m, inp) {
            if let Ok((e, rest)) = pair_dec::<K, V, C>(mid) {
                let all = es.push(e);
                assert(distinct_keys(all) <==> distinct_keys(es) && !has_key(es, e.0)) by {
                    if distinct_keys(all) {
                        assert forall|i: int, j: int| 0 <= i < j < es.len() implies (
                        #[trigger] es[i]).0 != (#[trigger] es[j]).0 by {
                            assert(all[i] == es[i] && all[j] == es[j]);
                        }
                        if has_key(es, e.0) {
                            let i = choose|i: int|
                                0 <= i < es.len() && (#[trigger] es[i]).0 == e.0;
                            assert(all[i] == es[i] && all[es.len() as int] == e);
                            assert(all[i].0 != all[es.len() as int].0);
                        }
                    }
                    if distinct_keys(es) && !has_key(es, e.0) {
                        assert forall|i: int, j: int| 0 <= i < j < all.len() implies (
                        #[trigger] all[i]).0 != (#[trigger] all[j]).0 by {
                            assert(all[i] == es[i]);
                            if j < es.len() {
                                assert(all[j] == es[j]);
                            }
                        }
                    }
                }
            }
        }
    }
}

/// As [`law_unique_keys_are_checked`], for the elements of a set.
pub proof fn law_unique_elements_are_checked<'de, K: SchemaRead<'de, C>, C: ConfigCore>(
    n: nat,
    inp: Input,
)
    ensures
        elem_dec_n::<K, AllowDuplicateKeys, C>(n, inp) matches Ok((ks, rest)) ==> {
            &&& ks.no_duplicates() ==> elem_dec_n::<K, CheckUniqueKeys, C>(n, inp) == Ok::<
                _,
                Fault,
            >((ks, rest))
            &&& !ks.no_duplicates() ==> {
                &&& elem_dec_n::<K, CheckUniqueKeys, C>(n, inp) is Err
                &&& elem_dec_n::<K, CheckUniqueKeys, C>(n, inp)->Err_0.err == spec_duplicate_key()
            }
        },
    decreases n,
{
    if n > 0 {
        let m = (n - 1) as nat;
        law_unique_elements_are_checked::<K, C>(m, inp);
        if let Ok((ks, mid)) = elem_dec_n::<K, AllowDuplicateKeys, C>(m, inp) {
            if let Ok((k, rest)) = K::dec(mid) {
                let all = ks.push(k);
                assert(all.no_duplicates() <==> ks.no_duplicates() && !ks.contains(k)) by {
                    if all.no_duplicates() {
                        assert forall|i: int, j: int|
                            0 <= i < ks.len() && 0 <= j < ks.len() && i != j implies ks[i]
                            != ks[j] by {
                            assert(all[i] != all[j]);
                        }
                        if ks.contains(k) {
                            let i = ks.index_of(k);
                            assert(all[i] != all[ks.len() as int]);
                        }
                    }
                }
            }
        }
    }
}

/// Text that is read in place is the text that is read into memory, if it asks for no more memory
/// than the configuration allows.
pub proof fn law_borrowed_text_is_the_text<Len: SeqLen<C>, C: ConfigCore>(inp: Input)
    requires
        inp.backing,
        Len::len_dec(inp) matches Ok((len, rest)) ==> prealloc_ok::<C, u8>(len),
    ensures
        borrowed_text_dec::<Len, C>(inp) == text_dec::<Len, C>(inp),
{
    Len::lemma_len_dec(inp);
}

/// Bytes are read one after the other as they stand.
proof fn lemma_bytes_dec<C: ConfigCore>(n: nat, inp: Input)
    requires
        n <= inp.bytes.len(),
    ensures
        dec_n::<u8, C>(n, inp) == Ok::<_, Fault>(
            (inp.bytes.take(n as int), inp.skip(n as int)),
        ),
    decreases n,
{
    if n > 0 {
        let m = (n - 1) as nat;
        lemma_bytes_dec::<C>(m, inp);
        assert(inp.bytes.take(m as int).push(inp.bytes[m as int]) =~= inp.bytes.take(n as int));
        assert(inp.skip(m as int).skip(1).bytes =~= inp.skip(n as int).bytes);
    } else {
        assert(inp.bytes.take(0) =~= Seq::empty());
        assert(inp.skip(0).bytes =~= inp.bytes);
    }
}

/// An array of bytes that is read in place is the array that is read into memory.
pub proof fn law_borrowed_array_is_the_array<'de, const N: usize, C: ConfigCore>(inp: Input)
    requires
        inp.backing,
    ensures
        <&'de [u8; N] as SchemaRead<'de, C>>::dec(inp) == <[u8; N] as SchemaRead<'de, C>>::dec(
            inp,
        ),
{
    assert(N * 1 == N);
    if N <= inp.bytes.len() {
        lemma_bytes_dec::<C>(N as nat, inp);
    }
}

/// Bytes that are read in place are the bytes that are read into memory, if they ask for no more
/// memory than the configuration allows.
pub proof fn law_borrowed_bytes_are_the_bytes<'de, C: Config>(inp: Input)
    requires
        inp.backing,
        C::LengthEncoding::len_dec(inp) matches Ok((len, rest)) ==> prealloc_ok::<C, u8>(len),
    ensures
        <&'de [u8] as SchemaRead<'de, C>>::dec(inp) == <Vec<u8> as SchemaRead<'de, C>>::dec(inp),
{
    C::LengthEncoding::lemma_len_dec(inp);
    if let Ok((len, mid)) = C::LengthEncoding::len_dec(inp) {
        assert(len * 1 == len);
        if len <= mid.bytes.len() {
            lemma_bytes_dec::<C>(len, mid);
            lemma_byte_vals(mid.bytes.take(len as int));
        }
    }
}

/// A container with the length encoding of the configuration is laid out as the plain collection.
pub proof fn law_containers_encode_like_plain_sequences<T: SchemaWrite<C>, C: Config>(
    v: &Vec<T::Src>,
    d: &std::collections::VecDeque<T::Src>,
)
    ensures
        <containers::Vec<T, C::LengthEncoding> as SchemaWrite<C>>::emit(v) == <Vec<
            T,
        > as SchemaWrite<C>>::emit(v),
        <containers::VecDeque<T, C::LengthEncoding> as SchemaWrite<C>>::emit(d)
            == <std::collections::VecDeque<T> as SchemaWrite<C>>::emit(d),
        v@ == d@ ==> <Vec<T> as SchemaWrite<C>>::emit(v) == <std::collections::VecDeque<
            T,
        > as SchemaWrite<C>>::emit(d),
{
}

/// As [`law_containers_encode_like_plain_sequences`], for maps and sets, whatever is done about
/// repeated keys on reading.
pub proof fn law_containers_encode_like_plain_maps_and_sets<
    K: SchemaWrite<C>,
    V: SchemaWrite<C>,
    Dup,
    C: Config,
>(m: &std::collections::BTreeMap<K::Src, V::Src>, s: &std::collections::BTreeSet<K::Src>)
    ensures
        <containers::BTreeMap<K, V, C::LengthEncoding, Dup> as SchemaWrite<C>>::emit(m)
            == <std::collections::BTreeMap<K, V> as SchemaWrite<C>>::emit(m),
        <containers::BTreeSet<K, C::LengthEncoding, Dup> as SchemaWrite<C>>::emit(s)
            == <std::collections::BTreeSet<K> as SchemaWrite<C>>::emit(s),
{
}

/// A value is laid out the same behind a pointer as without one.
pub proof fn law_pointers_leave_no_trace<T: SchemaWrite<C>, C: ConfigCore>(
    src: &T::Src,
    b: &Box<T::Src>,
)
    requires
        **b == *src,
    ensures
        <Box<T> as SchemaWrite<C>>::emit(b) == T::emit(src),
{
}

} // verus!
