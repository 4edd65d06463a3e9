//! Integers as fixed numbers of bytes, least or most significant byte first.
use vstd::endian::endianness;
use vstd::prelude::*;

verus! {

/// The number of values of `n` bytes.
pub open spec fn base(n: nat) -> nat
    decreases n,
{
    if n == 0 {
        1
    } else {
        256 * base((n - 1) as nat)
    }
}

/// The last `n` digits of `v` in base 256, least significant first.
pub open spec fn le_bytes(v: nat, n: nat) -> Seq<u8>
    decreases n,
{
    if n == 0 {
        Seq::empty()
    } else {
        seq![(v % 256) as u8] + le_bytes(v / 256, (n - 1) as nat)
    }
}

/// The number whose digits in base 256 are `s`, least significant first.
pub open spec fn le_value(s: Seq<u8>) -> nat
    decreases s.len(),
{
    if s.len() == 0 {
        0
    } else {
        s[0] as nat + 256 * le_value(s.skip(1))
    }
}

/// The last `n` digits of `v` in base 256, most significant first if `big`.
pub open spec fn uint_bytes(v: nat, n: nat, big: bool) -> Seq<u8> {
    if big {
        le_bytes(v, n).reverse()
    } else {
        le_bytes(v, n)
    }
}

/// The number whose digits in base 256 are `s`, most significant first if `big`.
pub open spec fn uint_value(s: Seq<u8>, big: bool) -> nat {
    if big {
        le_value(s.reverse())
    } else {
        le_value(s)
    }
}

pub proof fn lemma_base_16()
    ensures
        base(1) == 0x100,
        base(2) == 0x1_0000,
        base(4) == 0x1_0000_0000,
        base(8) == 0x1_0000_0000_0000_0000,
        base(16) == 0x1_0000_0000_0000_0000_0000_0000_0000_0000,
{
    reveal_with_fuel(base, 9);
    assert(base(16) == 0x1_0000_0000_0000_0000_0000_0000_0000_0000) by {
        assert(base(8) == 0x1_0000_0000_0000_0000);
        assert(base(9) == 256 * base(8));
        assert(base(10) == 256 * base(9));
        assert(base(11) == 256 * base(10));
        assert(base(12) == 256 * base(11));
        assert(base(13) == 256 * base(12));
        assert(base(14) == 256 * base(13));
        assert(base(15) == 256 * base(14));
        assert(base(16) == 256 * base(15));
    }
}

proof fn lemma_le_bytes_len(v: nat, n: nat)
    ensures
        le_bytes(v, n).len() == n,
    decreases n,
{
    if n > 0 {
        lemma_le_bytes_len(v / 256, (n - 1) as nat);
    }
}

proof fn lemma_le_value_bytes(v: nat, n: nat)
    requires
        v < base(n),
    ensures
        le_value(le_bytes(v, n)) == v,
    decreases n,
{
    if n > 0 {
        lemma_le_bytes_len(v / 256, (n - 1) as nat);
        lemma_le_value_bytes(v / 256, (n - 1) as nat);
        assert(le_bytes(v, n).skip(1) =~= le_bytes(v / 256, (n - 1) as nat));
    }
}

pub proof fn lemma_le_value_bound(s: Seq<u8>)
    ensures
        le_value(s) < base(s.len()),
    decreases s.len(),
{
    if s.len() > 0 {
        lemma_le_value_bound(s.skip(1));
    }
}

proof fn lemma_base_monotone(m: nat, n: nat)
    requires
        m <= n,
    ensures
        0 < base(m) <= base(n),
    decreases n,
{
    if m < n {
        lemma_base_monotone(m, (n - 1) as nat);
    } else if n > 0 {
        lemma_base_monotone((n - 1) as nat, (n - 1) as nat);
    }
}

pub proof fn lemma_uint_bytes_len(v: nat, n: nat, big: bool)
    ensures
        uint_bytes(v, n, big).len() == n,
{
    lemma_le_bytes_len(v, n);
}

/// The digits of a number that has no more than `n` of them stand for that number.
pub proof fn lemma_uint_value_bytes(v: nat, n: nat, big: bool)
    requires
        v < base(n),
    ensures
        uint_value(uint_bytes(v, n, big), big) == v,
{
    lemma_le_value_bytes(v, n);
    assert(le_bytes(v, n).reverse().reverse() =~= le_bytes(v, n));
}

pub proof fn lemma_uint_value_bound(s: Seq<u8>, big: bool)
    ensures
        uint_value(s, big) < base(s.len()),
{
    lemma_le_value_bound(s);
    lemma_le_value_bound(s.reverse());
}

/// The `n` bytes of `v`.
pub fn uint_to_bytes(v: u128, n: usize, big: bool) -> (out: Vec<u8>)
    requires
        n <= 16,
    ensures
        out@ == uint_bytes(v as nat, n as nat, big),
{
    let mut le: Vec<u8> = Vec::new();
    let mut rest: u128 = v;
    let mut i: usize = 0;
    while i < n
        invariant
            i <= n,
            le@.len() == i,
            le@ + le_bytes(rest as nat, (n - i) as nat) == le_bytes(v as nat, n as nat),
        decreases n - i,
    {
        let b: u8 = (rest % 256) as u8;
        let ghost before = le@;
        le.push(b);
        proof {
            assert(before + le_bytes(rest as nat, (n - i) as nat) =~= le@ + le_bytes(
                rest as nat / 256,
                (n - i - 1) as nat,
            ));
        }
        rest = rest / 256;
        i = i + 1;
    }
    proof {
        assert(le@ =~= le_bytes(v as nat, n as nat));
    }
    if !big {
        return le;
    }
    let mut be: Vec<u8> = Vec::new();
    let mut j: usize = n;
    while j > 0
        invariant
            j <= n,
            le@.len() == n,
            be@ == le@.skip(j as int).reverse(),
        decreases j,
    {
        j = j - 1;
        be.push(le[j]);
        proof {
            assert(be@ =~= le@.skip(j as int).reverse());
        }
    }
    proof {
        assert(le@.skip(0) =~= le@);
    }
    be
}

/// The number that `bytes` stand for.
pub fn uint_from_bytes(bytes: &Vec<u8>, big: bool) -> (v: u128)
    requires
        bytes@.len() <= 16,
    ensures
        v == uint_value(bytes@, big),
{
    let n: usize = bytes.len();
    let mut acc: u128 = 0;
    let ghost s = if big {
        bytes@.reverse()
    } else {
        bytes@
    };
    let mut i: usize = n;
    while i > 0
        invariant
            i <= n <= 16,
            n == bytes@.len(),
            s == (if big {
                bytes@.reverse()
            } else {
                bytes@
            }),
            acc == le_value(s.skip(i as int)),
        decreases i,
    {
        i = i - 1;
        let b: u8 = if big {
            bytes[n - 1 - i]
        } else {
            bytes[i]
        };
        proof {
            let t = s.skip(i as int);
            assert(t.skip(1) =~= s.skip(i + 1));
            lemma_le_value_bound(t);
            lemma_base_monotone(t.len(), 16);
            lemma_base_16();
            assert(t[0] == b);
            assert(le_value(t) == b as nat + 256 * acc);
        }
        acc = (b as u128) + 256 * acc;
    }
    proof {
        assert(s.skip(0) =~= s);
    }
    acc
}

/// In which order the bytes of an integer stand.
pub trait ByteOrder {
    /// Whether the most significant byte comes first.
    spec fn big() -> bool;

    /// Whether the most significant byte comes first.
    fn is_big() -> (b: bool)
        ensures
            b == Self::big(),
    ;
}

/// Least significant byte first.
pub struct LittleEndian;

/// Most significant byte first.
pub struct BigEndian;

/// The order of the machine that runs the code.
pub struct NativeEndian;

impl ByteOrder for LittleEndian {
    open spec fn big() -> bool {
        false
    }

    fn is_big() -> (b: bool) {
        false
    }
}

impl ByteOrder for BigEndian {
    open spec fn big() -> bool {
        true
    }

    fn is_big() -> (b: bool) {
        true
    }
}

/// `u16::to_ne_bytes`: the two bytes of `v`, in the order of the machine that runs the code.
#[verifier::external_body]
fn native_bytes(v: u16) -> (r: [u8; 2])
    ensures
        r@ == uint_bytes(v as nat, 2, endianness() is Big),
{
    v.to_ne_bytes()
}

impl ByteOrder for NativeEndian {
    open spec fn big() -> bool {
        endianness() is Big
    }

    fn is_big() -> (b: bool) {
        let r = native_bytes(1);
        proof {
            reveal_with_fuel(le_bytes, 3);
            assert(le_bytes(1, 2) =~= seq![1u8, 0u8]);
            assert(seq![1u8, 0u8].reverse() =~= seq![0u8, 1u8]);
            assert(r@[0] == r[0]);
        }
        r[0] == 0
    }
}

} // verus!
