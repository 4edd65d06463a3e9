//! Reading the entries of maps and sets.
use crate::config::ConfigCore;
use crate::error::{read_length_encoding_overflow, spec_duplicate_key, ReadError, ReadResult};
use crate::io::Reader;
use crate::len::{len_dec_checked, SeqLen};
use crate::model::{Fault, Input};
use crate::schema::containers::decode::{dst_vals, expect_window, window_err};
use crate::schema::containers::policy::DuplicateKeyPolicy;
use crate::schema::impls::tuple::{lemma_pair_dec, pair_dec, pair_meta, type_meta_of_pair};
use crate::schema::{SchemaRead, TypeMeta};
use vstd::prelude::*;

verus! {

broadcast use {
    crate::model::lemma_follows_transitive,
    crate::model::lemma_follows_reflexive,
};

/// Whether one of `es` has the key `k`.
pub open spec fn has_key<K, V>(es: Seq<(K, V)>, k: K) -> bool {
    exists|i: int| 0 <= i < es.len() && (#[trigger] es[i]).0 == k
}

/// The map that results from inserting `es` in turn: the last entry with a key wins.
pub open spec fn map_of<K, V>(es: Seq<(K, V)>) -> Map<K, V>
    decreases es.len(),
{
    if es.len() == 0 {
        Map::empty()
    } else {
        map_of(es.drop_last()).insert(es.last().0, es.last().1)
    }
}

/// The map has the keys that were inserted.
pub proof fn lemma_map_of_keys<K, V>(es: Seq<(K, V)>)
    ensures
        forall|k: K| #[trigger] map_of(es).contains_key(k) <==> has_key(es, k),
    decreases es.len(),
{
    if es.len() > 0 {
        let front = es.drop_last();
        lemma_map_of_keys(front);
        assert forall|k: K| #[trigger] map_of(es).contains_key(k) <==> has_key(es, k) by {
            assert(map_of(front).contains_key(k) <==> has_key(front, k));
            if map_of(es).contains_key(k) {
                if k == es.last().0 {
                    assert(es[es.len() - 1].0 == k);
                } else {
                    assert(map_of(front).contains_key(k));
                    let i = choose|i: int| 0 <= i < front.len() && (#[trigger] front[i]).0 == k;
                    assert(es[i].0 == k);
                }
            }
            if has_key(es, k) {
                let i = choose|i: int| 0 <= i < es.len() && (#[trigger] es[i]).0 == k;
                if i < front.len() {
                    assert(front[i].0 == k);
                    assert(has_key(front, k));
                }
            }
        }
    }
}

/// The last entry with a key is the one that the map holds.
pub proof fn lemma_map_of_last<K, V>(es: Seq<(K, V)>, i: int)
    requires
        0 <= i < es.len(),
        forall|j: int| i < j < es.len() ==> (#[trigger] es[j]).0 != es[i].0,
    ensures
        map_of(es).contains_key(es[i].0),
        map_of(es)[es[i].0] == es[i].1,
    decreases es.len(),
{
    if i < es.len() - 1 {
        let front = es.drop_last();
        assert forall|j: int| i < j < front.len() implies (#[trigger] front[j]).0 != front[i].0 by {
            assert(es[j].0 != es[i].0);
        }
        lemma_map_of_last(front, i);
        assert(es[es.len() - 1].0 != es[i].0);
    }
}

/// Whether keys that stand for the same value are the same.
pub open spec fn key_injective<'de, K: SchemaRead<'de, C>, C: ConfigCore>() -> bool {
    forall|a: K::Dst, b: K::Dst|
        #![trigger K::dst_val(&a), K::dst_val(&b)]
        K::dst_val(&a) == K::dst_val(&b) ==> a == b
}

/// The values that the entries stand for.
pub open spec fn entry_vals<'de, K: SchemaRead<'de, C>, V: SchemaRead<'de, C>, C: ConfigCore>(
    xs: Seq<(K::Dst, V::Dst)>,
) -> Seq<(K::Val, V::Val)> {
    Seq::new(xs.len(), |i: int| (K::dst_val(&xs[i].0), V::dst_val(&xs[i].1)))
}

/// The entries with `f` applied to the keys and `g` to the values.
pub open spec fn image_entries<A, B, X, Y>(
    es: Seq<(A, B)>,
    f: spec_fn(A) -> X,
    g: spec_fn(B) -> Y,
) -> Seq<(X, Y)> {
    Seq::new(es.len(), |i: int| (f(es[i].0), g(es[i].1)))
}

/// The map with `f` applied to the keys and `g` to the values.
pub open spec fn image_map<A, B, X, Y>(
    m: Map<A, B>,
    f: spec_fn(A) -> X,
    g: spec_fn(B) -> Y,
) -> Map<X, Y> {
    Map::new(
        |x: X| exists|a: A| #[trigger] m.contains_key(a) && f(a) == x,
        |x: X| g(m[choose|a: A| #[trigger] m.contains_key(a) && f(a) == x]),
    )
}

/// Whether `f` tells all arguments apart.
pub open spec fn one_to_one<A, X>(f: spec_fn(A) -> X) -> bool {
    forall|a: A, b: A| #![trigger f(a), f(b)] f(a) == f(b) ==> a == b
}

proof fn lemma_image_insert<A, B, X, Y>(
    m: Map<A, B>,
    f: spec_fn(A) -> X,
    g: spec_fn(B) -> Y,
    k: A,
    v: B,
)
    requires
        one_to_one(f),
    ensures
        image_map(m.insert(k, v), f, g) == image_map(m, f, g).insert(f(k), g(v)),
{
    let n = m.insert(k, v);
    let a = image_map(n, f, g);
    let b = image_map(m, f, g).insert(f(k), g(v));
    assert forall|x: X| a.contains_key(x) <==> b.contains_key(x) by {
        if a.contains_key(x) {
            let y = choose|y: A| #[trigger] n.contains_key(y) && f(y) == x;
            assert(y == k || m.contains_key(y));
        }
        if b.contains_key(x) {
            if x == f(k) {
                assert(n.contains_key(k));
            } else {
                let y = choose|y: A| #[trigger] m.contains_key(y) && f(y) == x;
                assert(n.contains_key(y));
            }
        }
    }
    assert forall|x: X| #[trigger] a.contains_key(x) implies a[x] == b[x] by {
        let y = choose|y: A| #[trigger] n.contains_key(y) && f(y) == x;
        if x == f(k) {
            assert(n.contains_key(k));
            assert(y == k);
        } else {
            assert(m.contains_key(y));
            let z = choose|z: A| #[trigger] m.contains_key(z) && f(z) == x;
            assert(y == z);
        }
    }
    assert(a =~= b);
}

/// The image of a map that is made of entries is the map that is made of their images.
pub proof fn lemma_image_map<A, B, X, Y>(es: Seq<(A, B)>, f: spec_fn(A) -> X, g: spec_fn(B) -> Y)
    requires
        one_to_one(f),
    ensures
        image_map(map_of(es), f, g) == map_of(image_entries(es, f, g)),
    decreases es.len(),
{
    let vs = image_entries(es, f, g);
    if es.len() == 0 {
        assert(image_map(map_of(es), f, g) =~= map_of(vs));
    } else {
        lemma_image_map(es.drop_last(), f, g);
        assert(vs.drop_last() =~= image_entries(es.drop_last(), f, g));
        lemma_image_insert(map_of(es.drop_last()), f, g, es.last().0, es.last().1);
    }
}

/// Whether `es` lists each entry of `m` once.
pub open spec fn enumerates<K, V>(es: Seq<(K, V)>, m: Map<K, V>) -> bool {
    &&& forall|i: int, j: int|
        0 <= i < j < es.len() ==> (#[trigger] es[i]).0 != (#[trigger] es[j]).0
    &&& forall|i: int|
        0 <= i < es.len() ==> m.contains_key((#[trigger] es[i]).0) && m[es[i].0] == es[i].1
    &&& forall|k: K| #[trigger] m.contains_key(k) ==> has_key(es, k)
}

/// A list of the entries of a map makes up that map.
pub proof fn lemma_enumerates<K, V>(es: Seq<(K, V)>, m: Map<K, V>)
    requires
        enumerates(es, m),
    ensures
        map_of(es) == m,
{
    lemma_map_of_keys(es);
    assert forall|k: K| #[trigger] map_of(es).contains_key(k) implies m.contains_key(k)
        && map_of(es)[k] == m[k] by {
        let i = choose|i: int| 0 <= i < es.len() && (#[trigger] es[i]).0 == k;
        assert forall|j: int| i < j < es.len() implies (#[trigger] es[j]).0 != es[i].0 by {}
        lemma_map_of_last(es, i);
    }
    assert(map_of(es) =~= m);
}

/// The values that the entries of a map stand for.
pub open spec fn map_vals<'de, K: SchemaRead<'de, C>, V: SchemaRead<'de, C>, C: ConfigCore>(
    m: Map<K::Dst, V::Dst>,
) -> Map<K::Val, V::Val> {
    image_map(m, |k: K::Dst| K::dst_val(&k), |v: V::Dst| V::dst_val(&v))
}

/// A map that is made of entries stands for the map that is made of their values.
pub proof fn lemma_map_vals<'de, K: SchemaRead<'de, C>, V: SchemaRead<'de, C>, C: ConfigCore>(
    xs: Seq<(K::Dst, V::Dst)>,
)
    requires
        key_injective::<K, C>(),
    ensures
        map_vals::<K, V, C>(map_of(xs)) == map_of(entry_vals::<K, V, C>(xs)),
{
    let f = |k: K::Dst| K::dst_val(&k);
    let g = |v: V::Dst| V::dst_val(&v);
    assert(one_to_one(f)) by {
        assert forall|a: K::Dst, b: K::Dst| #![trigger f(a), f(b)] f(a) == f(b) implies a == b by {
            assert(K::dst_val(&a) == K::dst_val(&b));
        }
    }
    lemma_image_map(xs, f, g);
    assert(image_entries(xs, f, g) =~= entry_vals::<K, V, C>(xs));
}

/// A key is repeated exactly if the value that it stands for is.
proof fn lemma_has_key_vals<'de, K: SchemaRead<'de, C>, V: SchemaRead<'de, C>, C: ConfigCore>(
    xs: Seq<(K::Dst, V::Dst)>,
    k: K::Dst,
)
    requires
        key_injective::<K, C>(),
    ensures
        has_key(xs, k) <==> has_key(entry_vals::<K, V, C>(xs), K::dst_val(&k)),
{
    let vs = entry_vals::<K, V, C>(xs);
    if has_key(xs, k) {
        let i = choose|i: int| 0 <= i < xs.len() && (#[trigger] xs[i]).0 == k;
        assert(vs[i].0 == K::dst_val(&k));
    }
    if has_key(vs, K::dst_val(&k)) {
        let i = choose|i: int| 0 <= i < vs.len() && (#[trigger] vs[i]).0 == K::dst_val(&k);
        assert(K::dst_val(&xs[i].0) == K::dst_val(&k));
        assert(xs[i].0 == k);
    }
}

/// Reading `n` entries. A repeated key is an error if the policy says so.
pub open spec fn kv_dec_n<
    'de,
    K: SchemaRead<'de, C>,
    V: SchemaRead<'de, C>,
    Dup: DuplicateKeyPolicy,
    C: ConfigCore,
>(n: nat, inp: Input) -> Result<(Seq<(K::Val, V::Val)>, Input), Fault>
    decreases n,
{
    if n == 0 {
        Ok((Seq::empty(), inp))
    } else {
        match kv_dec_n::<K, V, Dup, C>((n - 1) as nat, inp) {
            Ok((es, mid)) => match pair_dec::<K, V, C>(mid) {
                Ok((e, rest)) => if Dup::rejects() && has_key(es, e.0) {
                    Err(rest.fault(spec_duplicate_key()))
                } else {
                    Ok((es.push(e), rest))
                },
                Err(e) => Err(e),
            },
            Err(e) => Err(e),
        }
    }
}

/// Whether `n` entries can be read, as far as the number of bytes is known.
pub open spec fn kv_window_err(k: TypeMeta, v: TypeMeta, n: nat, inp: Input) -> Option<ReadError> {
    match (k, v) {
        (
            TypeMeta::Static { size: k_size, .. },
            TypeMeta::Static { size: v_size, .. },
        ) => if k_size + v_size > usize::MAX {
            Some(ReadError::LengthEncodingOverflow("usize::MAX"))
        } else {
            window_err(pair_meta(k, v), n, inp)
        },
        _ => None,
    }
}

/// Reading a map: its length, of which the memory that it asks for is checked, and its entries.
pub open spec fn kv_dec<
    'de,
    K: SchemaRead<'de, C>,
    V: SchemaRead<'de, C>,
    Len: SeqLen<C>,
    Dup: DuplicateKeyPolicy,
    C: ConfigCore,
>(inp: Input) -> Result<(Seq<(K::Val, V::Val)>, Input), Fault> {
    match len_dec_checked::<Len, C, (K::Dst, V::Dst)>(inp) {
        Ok((len, mid)) => match kv_window_err(K::read_meta(), V::read_meta(), len, mid) {
            Some(e) => Err(mid.fault(e)),
            None => kv_dec_n::<K, V, Dup, C>(len, mid),
        },
        Err(e) => Err(e),
    }
}

pub proof fn lemma_kv_dec_n<
    'de,
    K: SchemaRead<'de, C>,
    V: SchemaRead<'de, C>,
    Dup: DuplicateKeyPolicy,
    C: ConfigCore,
>(n: nat, inp: Input)
    ensures
        kv_dec_n::<K, V, Dup, C>(n, inp) matches Err(f) ==> f.left.follows(inp),
        kv_dec_n::<K, V, Dup, C>(n, inp) matches Ok((es, rest)) ==> {
            &&& es.len() == n
            &&& rest.follows(inp)
            &&& Dup::rejects() ==> forall|i: int, j: int|
                0 <= i < j < es.len() ==> (#[trigger] es[i]).0 != (#[trigger] es[j]).0
        },
    decreases n,
{
    if n > 0 {
        lemma_kv_dec_n::<K, V, Dup, C>((n - 1) as nat, inp);
        if let Ok((es, mid)) = kv_dec_n::<K, V, Dup, C>((n - 1) as nat, inp) {
            lemma_pair_dec::<K, V, C>(mid);
            if let Ok((e, rest)) = pair_dec::<K, V, C>(mid) {
                if Dup::rejects() && !has_key(es, e.0) {
                    let all = es.push(e);
                    assert forall|i: int, j: int| 0 <= i < j < all.len() implies (
                    #[trigger] all[i]).0 != (#[trigger] all[j]).0 by {
                        assert(all[i] == es[i]);
                        if j < es.len() {
                            assert(all[j] == es[j]);
                        } else {
                            assert(es[i].0 != e.0);
                        }
                    }
                }
            }
        }
    }
}

pub proof fn lemma_kv_dec<
    'de,
    K: SchemaRead<'de, C>,
    V: SchemaRead<'de, C>,
    Len: SeqLen<C>,
    Dup: DuplicateKeyPolicy,
    C: ConfigCore,
>(inp: Input)
    ensures
        kv_dec::<K, V, Len, Dup, C>(inp) matches Err(f) ==> f.left.follows(inp),
        kv_dec::<K, V, Len, Dup, C>(inp) matches Ok((es, rest)) ==> rest.follows(inp),
{
    Len::lemma_len_dec(inp);
    if let Ok((len, mid)) = len_dec_checked::<Len, C, (K::Dst, V::Dst)>(inp) {
        lemma_kv_dec_n::<K, V, Dup, C>(len, mid);
    }
}

/// A failure on the way stays a failure.
pub proof fn lemma_kv_dec_n_err<
    'de,
    K: SchemaRead<'de, C>,
    V: SchemaRead<'de, C>,
    Dup: DuplicateKeyPolicy,
    C: ConfigCore,
>(i: nat, n: nat, inp: Input)
    requires
        i <= n,
    ensures
        kv_dec_n::<K, V, Dup, C>(i, inp) matches Err(e) ==> kv_dec_n::<K, V, Dup, C>(n, inp)
            == Err::<(Seq<(K::Val, V::Val)>, Input), Fault>(e),
    decreases n,
{
    if i < n {
        lemma_kv_dec_n_err::<K, V, Dup, C>(i, (n - 1) as nat, inp);
    }
}

/// A collection that entries can be put into.
pub trait MapTarget<K, V>: Sized {
    /// Whether the collection tells keys apart as it should.
    spec fn key_model() -> bool;

    /// Whether the collection is what results from putting `es` into it in turn.
    spec fn holds(&self, es: Seq<(K, V)>) -> bool;

    /// A collection without entries.
    fn empty_map() -> (m: Self)
        ensures
            m.holds(Seq::empty()),
    ;

    /// Puts an entry in, and says whether the key was there already.
    fn put(&mut self, k: K, v: V) -> (collided: bool)
        ensures
            Self::key_model() ==> forall|es: Seq<(K, V)>| #[trigger]
                old(self).holds(es) ==> {
                    &&& final(self).holds(es.push((k, v)))
                    &&& collided == has_key(es, k)
                },
    ;
}

/// Whether `m` results from putting entries into it that stand for `es`.
pub open spec fn made_of_entries<
    'de,
    K: SchemaRead<'de, C>,
    V: SchemaRead<'de, C>,
    C: ConfigCore,
    M: MapTarget<K::Dst, V::Dst>,
>(m: M, es: Seq<(K::Val, V::Val)>) -> bool {
    exists|xs: Seq<(K::Dst, V::Dst)>| #[trigger]
        m.holds(xs) && entry_vals::<K, V, C>(xs) == es
}

/// Reads the length of a map and then its entries.
pub fn read_kv_seq<'de, K, V, Len, Dup, C, R, M>(reader: &mut R) -> (r: ReadResult<M>) where
    C: ConfigCore,
    K: SchemaRead<'de, C>,
    V: SchemaRead<'de, C>,
    Len: SeqLen<C>,
    Dup: DuplicateKeyPolicy,
    R: Reader<'de>,
    M: MapTarget<K::Dst, V::Dst>,

    ensures
        final(reader).input().follows(old(reader).input()),
        K::read_lawful() && V::read_lawful() && (Dup::rejects() ==> M::key_model()
            && key_injective::<K, C>()) ==> match kv_dec::<K, V, Len, Dup, C>(
            old(reader).input(),
        ) {
            Ok((es, rest)) => {
                &&& r is Ok
                &&& final(reader).input() == rest
                &&& M::key_model() ==> made_of_entries::<K, V, C, M>(r->Ok_0, es)
            },
            Err(f) => r is Err && r->Err_0 == f.err && final(reader).input() == f.left,
        },
{
    let len: usize = Len::read_prealloc_check::<(K::Dst, V::Dst), R>(reader)?;
    let (km, vm) = (K::type_meta(), V::type_meta());
    if let (
        TypeMeta::Static { size: k_size, .. },
        TypeMeta::Static { size: v_size, .. },
    ) = (km, vm) {
        if k_size.checked_add(v_size).is_none() {
            return Err(read_length_encoding_overflow("usize::MAX"));
        }
        expect_window(reader, type_meta_of_pair(km, vm), len)?;
    }
    let ghost mid = reader.input();
    let ghost mut xs: Seq<(K::Dst, V::Dst)> = Seq::empty();
    let mut map: M = M::empty_map();
    let mut i: usize = 0;
    proof {
        assert(entry_vals::<K, V, C>(xs) =~= Seq::empty());
    }
    while i < len
        invariant
            i <= len,
            mid.follows(old(reader).input()),
            reader.input().follows(mid),
            len_dec_checked::<Len, C, (K::Dst, V::Dst)>(old(reader).input()) == Ok::<_, Fault>(
                (len as nat, mid),
            ),
            kv_window_err(K::read_meta(), V::read_meta(), len as nat, mid) is None,
            M::key_model() ==> map.holds(xs),
            K::read_lawful() && V::read_lawful() && (Dup::rejects() ==> M::key_model()
                && key_injective::<K, C>()) ==> kv_dec_n::<K, V, Dup, C>(i as nat, mid) == Ok::<
                _,
                Fault,
            >((entry_vals::<K, V, C>(xs), reader.input())),
        decreases len - i,
    {
        proof {
            lemma_kv_dec_n_err::<K, V, Dup, C>((i + 1) as nat, len as nat, mid);
        }
        let k = K::get(reader)?;
        let v = V::get(reader)?;
        let ghost before = xs;
        proof {
            xs = xs.push((k, v));
            assert(entry_vals::<K, V, C>(xs) =~= entry_vals::<K, V, C>(before).push(
                (K::dst_val(&k), V::dst_val(&v)),
            ));
            if key_injective::<K, C>() {
                lemma_has_key_vals::<K, V, C>(before, k);
            }
        }
        let collided: bool = map.put(k, v);
        Dup::check(collided)?;
        i = i + 1;
    }
    assert(M::key_model() ==> made_of_entries::<K, V, C, M>(map, entry_vals::<K, V, C>(xs)));
    Ok(map)
}

/// Reading `n` elements. A repeated element is an error if the policy says so.
pub open spec fn elem_dec_n<
    'de,
    K: SchemaRead<'de, C>,
    Dup: DuplicateKeyPolicy,
    C: ConfigCore,
>(n: nat, inp: Input) -> Result<(Seq<K::Val>, Input), Fault>
    decreases n,
{
    if n == 0 {
        Ok((Seq::empty(), inp))
    } else {
        match elem_dec_n::<K, Dup, C>((n - 1) as nat, inp) {
            Ok((ks, mid)) => match K::dec(mid) {
                Ok((k, rest)) => if Dup::rejects() && ks.contains(k) {
                    Err(rest.fault(spec_duplicate_key()))
                } else {
                    Ok((ks.push(k), rest))
                },
                Err(e) => Err(e),
            },
            Err(e) => Err(e),
        }
    }
}

/// Reading a set: its length, of which the memory that it asks for is checked, and its elements.
pub open spec fn elem_dec<
    'de,
    K: SchemaRead<'de, C>,
    Len: SeqLen<C>,
    Dup: DuplicateKeyPolicy,
    C: ConfigCore,
>(inp: Input) -> Result<(Seq<K::Val>, Input), Fault> {
    match len_dec_checked::<Len, C, K::Dst>(inp) {
        Ok((len, mid)) => match window_err(K::read_meta(), len, mid) {
            Some(e) => Err(mid.fault(e)),
            None => elem_dec_n::<K, Dup, C>(len, mid),
        },
        Err(e) => Err(e),
    }
}

pub proof fn lemma_elem_dec_n<
    'de,
    K: SchemaRead<'de, C>,
    Dup: DuplicateKeyPolicy,
    C: ConfigCore,
>(n: nat, inp: Input)
    ensures
        elem_dec_n::<K, Dup, C>(n, inp) matches Err(f) ==> f.left.follows(inp),
        elem_dec_n::<K, Dup, C>(n, inp) matches Ok((ks, rest)) ==> {
            &&& ks.len() == n
            &&& rest.follows(inp)
            &&& Dup::rejects() ==> ks.no_duplicates()
        },
    decreases n,
{
    if n > 0 {
        lemma_elem_dec_n::<K, Dup, C>((n - 1) as nat, inp);
        if let Ok((ks, mid)) = elem_dec_n::<K, Dup, C>((n - 1) as nat, inp) {
            K::lemma_dec(mid);
        }
    }
}

pub proof fn lemma_elem_dec<
    'de,
    K: SchemaRead<'de, C>,
    Len: SeqLen<C>,
    Dup: DuplicateKeyPolicy,
    C: ConfigCore,
>(inp: Input)
    ensures
        elem_dec::<K, Len, Dup, C>(inp) matches Err(f) ==> f.left.follows(inp),
        elem_dec::<K, Len, Dup, C>(inp) matches Ok((ks, rest)) ==> rest.follows(inp),
{
    Len::lemma_len_dec(inp);
    if let Ok((len, mid)) = len_dec_checked::<Len, C, K::Dst>(inp) {
        lemma_elem_dec_n::<K, Dup, C>(len, mid);
    }
}

/// A failure on the way stays a failure.
pub proof fn lemma_elem_dec_n_err<
    'de,
    K: SchemaRead<'de, C>,
    Dup: DuplicateKeyPolicy,
    C: ConfigCore,
>(i: nat, n: nat, inp: Input)
    requires
        i <= n,
    ensures
        elem_dec_n::<K, Dup, C>(i, inp) matches Err(e) ==> elem_dec_n::<K, Dup, C>(n, inp) == Err::<
            (Seq<K::Val>, Input),
            Fault,
        >(e),
    decreases n,
{
    if i < n {
        lemma_elem_dec_n_err::<K, Dup, C>(i, (n - 1) as nat, inp);
    }
}

/// An element is repeated exactly if the value that it stands for is.
proof fn lemma_contains_vals<'de, K: SchemaRead<'de, C>, C: ConfigCore>(xs: Seq<K::Dst>, k: K::Dst)
    requires
        key_injective::<K, C>(),
    ensures
        xs.contains(k) <==> dst_vals::<K, C>(xs).contains(K::dst_val(&k)),
{
    let vs = dst_vals::<K, C>(xs);
    if xs.contains(k) {
        let i = xs.index_of(k);
        assert(vs[i] == K::dst_val(&k));
    }
    if vs.contains(K::dst_val(&k)) {
        let i = vs.index_of(K::dst_val(&k));
        assert(K::dst_val(&xs[i]) == K::dst_val(&k));
        assert(xs[i] == k);
    }
}

/// A collection that elements can be put into.
pub trait SetTarget<K>: Sized {
    /// Whether the collection tells elements apart as it should.
    spec fn key_model() -> bool;

    /// Whether the collection is what results from putting `ks` into it in turn.
    spec fn holds(&self, ks: Seq<K>) -> bool;

    /// A collection without elements.
    fn empty_set() -> (s: Self)
        ensures
            s.holds(Seq::empty()),
    ;

    /// Puts an element in, and says whether it was there already.
    fn put(&mut self, k: K) -> (collided: bool)
        ensures
            Self::key_model() ==> forall|ks: Seq<K>| #[trigger]
                old(self).holds(ks) ==> {
                    &&& final(self).holds(ks.push(k))
                    &&& collided == ks.contains(k)
                },
    ;
}

/// Whether `s` results from putting elements into it that stand for `ks`.
pub open spec fn made_of_elems<
    'de,
    K: SchemaRead<'de, C>,
    C: ConfigCore,
    S: SetTarget<K::Dst>,
>(s: S, ks: Seq<K::Val>) -> bool {
    exists|xs: Seq<K::Dst>| #[trigger] s.holds(xs) && dst_vals::<K, C>(xs) == ks
}

/// As [`read_kv_seq`], for collections of elements rather than pairs.
pub fn read_elem_seq<'de, K, Len, Dup, C, R, S>(reader: &mut R) -> (r: ReadResult<S>) where
    C: ConfigCore,
    K: SchemaRead<'de, C>,
    Len: SeqLen<C>,
    Dup: DuplicateKeyPolicy,
    R: Reader<'de>,
    S: SetTarget<K::Dst>,

    ensures
        final(reader).input().follows(old(reader).input()),
        K::read_lawful() && (Dup::rejects() ==> S::key_model() && key_injective::<K, C>())
            ==> match elem_dec::<K, Len, Dup, C>(old(reader).input()) {
            Ok((ks, rest)) => {
                &&& r is Ok
                &&& final(reader).input() == rest
                &&& S::key_model() ==> made_of_elems::<K, C, S>(r->Ok_0, ks)
            },
            Err(f) => r is Err && r->Err_0 == f.err && final(reader).input() == f.left,
        },
{
    let len: usize = Len::read_prealloc_check::<K::Dst, R>(reader)?;
    expect_window(reader, K::type_meta(), len)?;
    let ghost mid = reader.input();
    let ghost mut xs: Seq<K::Dst> = Seq::empty();
    let mut set: S = S::empty_set();
    let mut i: usize = 0;
    proof {
        assert(dst_vals::<K, C>(xs) =~= Seq::empty());
    }
    while i < len
        invariant
            i <= len,
            mid.follows(old(reader).input()),
            reader.input().follows(mid),
            len_dec_checked::<Len, C, K::Dst>(old(reader).input()) == Ok::<_, Fault>(
                (len as nat, mid),
            ),
            window_err(K::read_meta(), len as nat, mid) is None,
            S::key_model() ==> set.holds(xs),
            K::read_lawful() && (Dup::rejects() ==> S::key_model() && key_injective::<K, C>())
                ==> elem_dec_n::<K, Dup, C>(i as nat, mid) == Ok::<_, Fault>(
                (dst_vals::<K, C>(xs), reader.input()),
            ),
        decreases len - i,
    {
        proof {
            lemma_elem_dec_n_err::<K, Dup, C>((i + 1) as nat, len as nat, mid);
        }
        let k = K::get(reader)?;
        let ghost before = xs;
        proof {
            xs = xs.push(k);
            assert(dst_vals::<K, C>(xs) =~= dst_vals::<K, C>(before).push(K::dst_val(&k)));
            if key_injective::<K, C>() {
                lemma_contains_vals::<K, C>(before, k);
            }
        }
        let collided: bool = set.put(k);
        Dup::check(collided)?;
        i = i + 1;
    }
    assert(S::key_model() ==> made_of_elems::<K, C, S>(set, dst_vals::<K, C>(xs)));
    Ok(set)
}

} // verus!
