//! HMAC-SHA512 and the fixed-parameter PBKDF2 instance used for
//! mnemonic-to-seed stretching, built as verified byte manipulation over the
//! named SHA-512 primitive.

use crate::hashes::{sha512, sha512_of};
use vstd::prelude::*;
use vstd::slice::slice_to_vec;

verus! {

/// HMAC block size of SHA-512, in bytes.
pub open spec fn hmac_block_len() -> int {
    128
}

/// The key, hashed down if longer than a block, zero-padded to a full block.
pub open spec fn hmac_padded_key(key: Seq<u8>) -> Seq<u8> {
    let k0 = if key.len() > 128 {
        sha512_of(key)
    } else {
        key
    };
    k0 + Seq::new((128 - k0.len()) as nat, |i: int| 0u8)
}

/// HMAC-SHA512 per the standard construction:
/// H((key' xor opad) ++ H((key' xor ipad) ++ msg)).
pub open spec fn hmac_sha512(key: Seq<u8>, msg: Seq<u8>) -> Seq<u8> {
    let kp = hmac_padded_key(key);
    let ipad = Seq::new(128, |i: int| kp[i] ^ 0x36);
    let opad = Seq::new(128, |i: int| kp[i] ^ 0x5c);
    sha512_of(opad + sha512_of(ipad + msg))
}

/// Computes HMAC-SHA512 of `msg` under `key`.
pub fn hmac_sha512_bytes(key: &[u8], msg: &[u8]) -> (r: [u8; 64])
    ensures
        r@ == hmac_sha512(key@, msg@),
        r@.len() == 64,
{
    let mut k0: Vec<u8> = if key.len() > 128 {
        let d = sha512(key);
        slice_to_vec(d.as_slice())
    } else {
        slice_to_vec(key)
    };
    let ghost k0_start = k0@;
    while k0.len() < 128
        invariant
            k0_start.len() <= 128,
            k0_start.len() <= k0@.len() <= 128,
            k0@.take(k0_start.len() as int) == k0_start,
            forall|i: int| k0_start.len() <= i < k0@.len() ==> k0@[i] == 0u8,
        decreases 128 - k0.len(),
    {
        k0.push(0u8);
        proof {
            assert(k0@.take(k0_start.len() as int) =~= k0_start);
        }
    }
    proof {
        assert(k0@ =~= hmac_padded_key(key@));
    }
    let mut inner: Vec<u8> = Vec::new();
    let mut i: usize = 0;
    while i < 128
        invariant
            k0@ == hmac_padded_key(key@),
            k0@.len() == 128,
            i <= 128,
            inner@ == Seq::new(i as nat, |j: int| k0@[j] ^ 0x36),
        decreases 128 - i,
    {
        inner.push(k0[i] ^ 0x36);
        proof {
            assert(inner@ =~= Seq::new((i + 1) as nat, |j: int| k0@[j] ^ 0x36));
        }
        i = i + 1;
    }
    inner.extend_from_slice(msg);
    let inner_hash = sha512(inner.as_slice());
    let mut outer: Vec<u8> = Vec::new();
    let mut j: usize = 0;
    while j < 128
        invariant
            k0@ == hmac_padded_key(key@),
            k0@.len() == 128,
            j <= 128,
            outer@ == Seq::new(j as nat, |t: int| k0@[t] ^ 0x5c),
        decreases 128 - j,
    {
        outer.push(k0[j] ^ 0x5c);
        proof {
            assert(outer@ =~= Seq::new((j + 1) as nat, |t: int| k0@[t] ^ 0x5c));
        }
        j = j + 1;
    }
    outer.extend_from_slice(inner_hash.as_slice());
    let r = sha512(outer.as_slice());
    proof {
        let kp = hmac_padded_key(key@);
        let ipad = Seq::new(128, |t: int| kp[t] ^ 0x36);
        let opad = Seq::new(128, |t: int| kp[t] ^ 0x5c);
        assert(inner@ =~= ipad + msg@);
        assert(outer@ =~= opad + sha512_of(ipad + msg@));
    }
    r
}

/// The i-th (0-based) iterate U_{i+1} of the PBKDF2-HMAC-SHA512 chain for
/// the first (and here only) output block.
pub open spec fn pbkdf2_u(pw: Seq<u8>, salt: Seq<u8>, i: nat) -> Seq<u8>
    decreases i,
{
    if i == 0 {
        hmac_sha512(pw, salt + seq![0u8, 0u8, 0u8, 1u8])
    } else {
        hmac_sha512(pw, pbkdf2_u(pw, salt, (i - 1) as nat))
    }
}

/// Byte-wise xor of two sequences of equal length.
pub open spec fn xor_bytes(a: Seq<u8>, b: Seq<u8>) -> Seq<u8> {
    Seq::new(a.len(), |i: int| a[i] ^ b[i])
}

/// Xor of the first i+1 iterates: the running PBKDF2 accumulator.
pub open spec fn pbkdf2_acc(pw: Seq<u8>, salt: Seq<u8>, i: nat) -> Seq<u8>
    decreases i,
{
    if i == 0 {
        pbkdf2_u(pw, salt, 0)
    } else {
        xor_bytes(pbkdf2_acc(pw, salt, (i - 1) as nat), pbkdf2_u(pw, salt, i))
    }
}

/// PBKDF2-HMAC-SHA512 with 2048 rounds and a single 64-byte output block.
pub open spec fn pbkdf2_sha512_2048(pw: Seq<u8>, salt: Seq<u8>) -> Seq<u8> {
    pbkdf2_acc(pw, salt, 2047)
}

/// Computes the 64-byte PBKDF2-HMAC-SHA512 output for 2048 rounds.
pub fn pbkdf2_sha512_2048_bytes(pw: &[u8], salt: &[u8]) -> (r: Vec<u8>)
    ensures
        r@ == pbkdf2_sha512_2048(pw@, salt@),
        r@.len() == 64,
{
    let mut block: Vec<u8> = slice_to_vec(salt);
    block.push(0u8);
    block.push(0u8);
    block.push(0u8);
    block.push(1u8);
    proof {
        assert(block@ =~= salt@ + seq![0u8, 0u8, 0u8, 1u8]);
    }
    let mut u = hmac_sha512_bytes(pw, block.as_slice());
    let mut acc: Vec<u8> = slice_to_vec(u.as_slice());
    let mut i: usize = 1;
    while i < 2048
        invariant
            1 <= i <= 2048,
            u@ == pbkdf2_u(pw@, salt@, (i - 1) as nat),
            u@.len() == 64,
            acc@ == pbkdf2_acc(pw@, salt@, (i - 1) as nat),
            acc@.len() == 64,
        decreases 2048 - i,
    {
        let u2 = hmac_sha512_bytes(pw, u.as_slice());
        let mut acc2: Vec<u8> = Vec::new();
        let mut j: usize = 0;
        while j < 64
            invariant
                j <= 64,
                u2@.len() == 64,
                acc@.len() == 64,
                acc2@ == Seq::new(j as nat, |t: int| acc@[t] ^ u2@[t]),
            decreases 64 - j,
        {
            acc2.push(acc[j] ^ u2[j]);
            proof {
                assert(acc2@ =~= Seq::new((j + 1) as nat, |t: int| acc@[t] ^ u2@[t]));
            }
            j = j + 1;
        }
        proof {
            assert(acc2@ =~= xor_bytes(pbkdf2_acc(pw@, salt@, (i - 1) as nat), pbkdf2_u(pw@, salt@, i as nat)));
        }
        u = u2;
        acc = acc2;
        i = i + 1;
    }
    acc
}

} // verus!
