//! The bit-level encoding that ties 33 bytes of entropy-plus-checksum to 24
//! 11-bit word indices: bit extraction, the two directions of the packing,
//! and the proof that packing the extracted indices gives the bytes back.

use vstd::arithmetic::div_mod::lemma_div_denominator;
use vstd::prelude::*;

verus! {

/// 2 to the power `e`.
pub open spec fn pow2n(e: nat) -> nat
    decreases e,
{
    if e == 0 {
        1nat
    } else {
        2 * pow2n((e - 1) as nat)
    }
}

/// Bit `q` (counting from the least significant) of a value.
pub open spec fn bit_at(v: nat, q: nat) -> nat {
    (v / pow2n(q)) % 2
}

/// Bit `i` of a byte string read most-significant-bit first.
pub open spec fn sbit(s: Seq<u8>, i: int) -> nat {
    bit_at(s[i / 8] as nat, (7 - i % 8) as nat)
}

/// Bit `i` of a sequence of 11-bit indices read most-significant-bit first.
pub open spec fn ibit(x: Seq<u16>, i: int) -> nat {
    bit_at(x[i / 11] as nat, (10 - i % 11) as nat)
}

/// The value of `len` byte-string bits starting at bit `a`, most
/// significant first.
pub open spec fn sfold(s: Seq<u8>, a: int, len: nat) -> nat
    decreases len,
{
    if len == 0 {
        0
    } else {
        sfold(s, a, (len - 1) as nat) * 2 + sbit(s, a + len - 1)
    }
}

/// The value of `len` index-sequence bits starting at bit `a`, most
/// significant first.
pub open spec fn ifold(x: Seq<u16>, a: int, len: nat) -> nat
    decreases len,
{
    if len == 0 {
        0
    } else {
        ifold(x, a, (len - 1) as nat) * 2 + ibit(x, a + len - 1)
    }
}

/// The `k`-th 11-bit word index held in a byte string.
pub open spec fn index_at(s: Seq<u8>, k: int) -> nat {
    sfold(s, 11 * k, 11)
}

/// The `j`-th byte packed from a sequence of 11-bit indices.
pub open spec fn packed_byte(x: Seq<u16>, j: int) -> nat {
    ifold(x, 8 * j, 8)
}

/// Powers of two are positive.
pub proof fn lemma_pow2n_pos(e: nat)
    ensures
        pow2n(e) >= 1,
    decreases e,
{
    if e > 0 {
        lemma_pow2n_pos((e - 1) as nat);
    }
}

/// Powers of two do not decrease.
pub proof fn lemma_pow2n_mono(a: nat, b: nat)
    requires
        a <= b,
    ensures
        pow2n(a) <= pow2n(b),
    decreases b,
{
    if a < b {
        lemma_pow2n_mono(a, (b - 1) as nat);
    }
}

/// A run of `len` bits has value below 2 to the `len`.
pub proof fn lemma_sfold_bound(s: Seq<u8>, a: int, len: nat)
    ensures
        sfold(s, a, len) < pow2n(len),
    decreases len,
{
    if len > 0 {
        lemma_sfold_bound(s, a, (len - 1) as nat);
    }
}

/// A run of `len` index bits has value below 2 to the `len`.
pub proof fn lemma_ifold_bound(x: Seq<u16>, a: int, len: nat)
    ensures
        ifold(x, a, len) < pow2n(len),
    decreases len,
{
    if len > 0 {
        lemma_ifold_bound(x, a, (len - 1) as nat);
    }
}

/// Extracting bit `len-1-q` of a folded run gives the run's bit `q`.
pub proof fn lemma_sfold_bit(s: Seq<u8>, a: int, len: nat, q: nat)
    requires
        q < len,
    ensures
        bit_at(sfold(s, a, len), (len - 1 - q) as nat) == sbit(s, a + q),
    decreases len,
{
    let v = sfold(s, a, (len - 1) as nat);
    let b = sbit(s, a + len - 1);
    let m = (len - 1 - q) as nat;
    assert(b < 2);
    if q == len - 1 {
        assert(pow2n(0) == 1);
        assert((v * 2 + b) / 1 == v * 2 + b);
        assert(bit_at(v * 2 + b, 0) == (v * 2 + b) % 2);
        assert((v * 2 + b) % 2 == b);
    } else {
        lemma_sfold_bit(s, a, (len - 1) as nat, q);
        assert(pow2n(m) == 2 * pow2n((m - 1) as nat));
        lemma_pow2n_pos((m - 1) as nat);
        lemma_div_denominator((v * 2 + b) as int, 2, pow2n((m - 1) as nat) as int);
        assert((v * 2 + b) / 2 == v);
        assert(bit_at(v * 2 + b, m) == bit_at(v, (m - 1) as nat));
    }
}

/// A fold whose bits agree with the bits of a bounded value equals that
/// value.
pub proof fn lemma_ifold_from_value(x: Seq<u16>, a: int, len: nat, v: nat)
    requires
        v < pow2n(len),
        forall|t: int| 0 <= t < len ==> #[trigger] ibit(x, a + t) == bit_at(v, (len - 1 - t) as nat),
    ensures
        ifold(x, a, len) == v,
    decreases len,
{
    if len == 0 {
        assert(v == 0);
    } else {
        let v2 = v / 2;
        assert(v2 < pow2n((len - 1) as nat));
        assert forall|t: int| 0 <= t < len - 1 implies #[trigger] ibit(x, a + t) == bit_at(
            v2,
            (len - 2 - t) as nat,
        ) by {
            let m = (len - 2 - t) as nat;
            assert(pow2n((m + 1) as nat) == 2 * pow2n(m));
            lemma_pow2n_pos(m);
            lemma_div_denominator(v as int, 2, pow2n(m) as int);
            assert(bit_at(v2, m) == bit_at(v, (m + 1) as nat));
            assert(ibit(x, a + t) == bit_at(v, (len - 1 - t) as nat));
        }
        lemma_ifold_from_value(x, a, (len - 1) as nat, v2);
        assert(ibit(x, a + len - 1) == bit_at(v, 0));
        assert(pow2n(0) == 1);
        assert(v / 1 == v);
        assert(bit_at(v, 0) == v % 2);
        assert(ifold(x, a, len) == v2 * 2 + v % 2);
    }
}

/// Packing the 24 indices extracted from a 33-byte string reproduces every
/// byte of the string.
pub proof fn lemma_pack_unpack(s: Seq<u8>, x: Seq<u16>)
    requires
        s.len() == 33,
        x.len() == 24,
        forall|k: int| 0 <= k < 24 ==> x[k] as nat == index_at(s, k),
    ensures
        forall|j: int| 0 <= j < 33 ==> packed_byte(x, j) == s[j] as nat,
{
    assert forall|j: int| 0 <= j < 33 implies packed_byte(x, j) == s[j] as nat by {
        assert forall|t: int| 0 <= t < 8 implies #[trigger] ibit(x, 8 * j + t) == bit_at(
            s[j] as nat,
            (7 - t) as nat,
        ) by {
            let i = 8 * j + t;
            let k = i / 11;
            let q = i % 11;
            assert(0 <= k < 24);
            assert(0 <= q < 11);
            assert(i == 11 * k + q);
            lemma_sfold_bound(s, 11 * k, 11);
            assert(x[k] as nat == sfold(s, 11 * k, 11));
            lemma_sfold_bit(s, 11 * k, 11, q as nat);
            assert(ibit(x, i) == bit_at(x[k] as nat, (10 - q) as nat));
            assert(sbit(s, 11 * k + q) == sbit(s, i));
            assert(i / 8 == j && i % 8 == t);
        }
        assert(pow2n(8) == 256) by {
            reveal_with_fuel(pow2n, 9);
        }
        lemma_ifold_from_value(x, 8 * j, 8, s[j] as nat);
    }
}

/// 2 to `e` as a byte, for `e` below 8.
pub(crate) fn pow2_u8(e: usize) -> (r: u8)
    requires
        e < 8,
    ensures
        r as nat == pow2n(e as nat),
        r >= 1,
{
    proof {
        reveal_with_fuel(pow2n, 9);
    }
    if e == 0 {
        1
    } else if e == 1 {
        2
    } else if e == 2 {
        4
    } else if e == 3 {
        8
    } else if e == 4 {
        16
    } else if e == 5 {
        32
    } else if e == 6 {
        64
    } else {
        128
    }
}

/// 2 to `e` as a 16-bit value, for `e` below 11.
pub(crate) fn pow2_u16(e: usize) -> (r: u16)
    requires
        e < 11,
    ensures
        r as nat == pow2n(e as nat),
        r >= 1,
{
    proof {
        reveal_with_fuel(pow2n, 12);
    }
    if e < 8 {
        pow2_u8(e) as u16
    } else if e == 8 {
        256
    } else if e == 9 {
        512
    } else {
        1024
    }
}

/// Reads the `k`-th 11-bit word index out of a 33-byte string.
pub(crate) fn extract_index(s: &Vec<u8>, k: usize) -> (r: u16)
    requires
        s@.len() == 33,
        k < 24,
    ensures
        r as nat == index_at(s@, k as int),
        r < 2048,
{
    let mut acc: u16 = 0;
    let mut t: usize = 0;
    while t < 11
        invariant
            s@.len() == 33,
            k < 24,
            t <= 11,
            acc as nat == sfold(s@, 11 * k as int, t as nat),
        decreases 11 - t,
    {
        proof {
            lemma_sfold_bound(s@, 11 * k as int, t as nat);
            lemma_pow2n_mono(t as nat, 10);
            assert(pow2n(10) == 1024) by {
                reveal_with_fuel(pow2n, 11);
            }
        }
        let i = 11 * k + t;
        let byte = s[i / 8];
        let e = 7 - (i % 8);
        let b = (byte / pow2_u8(e)) % 2;
        proof {
            assert(b as nat == sbit(s@, i as int));
        }
        acc = acc * 2 + (b as u16);
        t = t + 1;
    }
    proof {
        lemma_sfold_bound(s@, 11 * k as int, 11);
        assert(pow2n(11) == 2048) by {
            reveal_with_fuel(pow2n, 12);
        }
    }
    acc
}

/// Packs the `j`-th byte of the 33-byte string encoded by 24 word indices.
pub(crate) fn pack_byte_at(x: &Vec<u16>, j: usize) -> (r: u8)
    requires
        x@.len() == 24,
        j < 33,
    ensures
        r as nat == packed_byte(x@, j as int),
{
    let mut acc: u16 = 0;
    let mut t: usize = 0;
    while t < 8
        invariant
            x@.len() == 24,
            j < 33,
            t <= 8,
            acc as nat == ifold(x@, 8 * j as int, t as nat),
        decreases 8 - t,
    {
        proof {
            lemma_ifold_bound(x@, 8 * j as int, t as nat);
            lemma_pow2n_mono(t as nat, 7);
            assert(pow2n(7) == 128) by {
                reveal_with_fuel(pow2n, 8);
            }
        }
        let i = 8 * j + t;
        let idx = x[i / 11];
        let e = 10 - (i % 11);
        let b = (idx / pow2_u16(e)) % 2;
        proof {
            assert(b as nat == ibit(x@, i as int));
        }
        acc = acc * 2 + (b as u16);
        t = t + 1;
    }
    proof {
        lemma_ifold_bound(x@, 8 * j as int, 8);
        assert(pow2n(8) == 256) by {
            reveal_with_fuel(pow2n, 9);
        }
    }
    acc as u8
}

} // verus!
