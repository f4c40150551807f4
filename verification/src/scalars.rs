//! Big-endian 32-byte scalars on the secp256k1 curve: their mathematical
//! value, the validity range that the standard mandates, and the two curve
//! operations (point multiplication and scalar addition modulo the curve
//! order) that the derivation engine needs from the secp256k1 crate.

use vstd::arithmetic::div_mod::lemma_fundamental_div_mod_converse;
use vstd::prelude::*;

verus! {

/// The value of a big-endian byte string as a natural number.
pub open spec fn scalar_val(s: Seq<u8>) -> nat
    decreases s.len(),
{
    if s.len() == 0 {
        0
    } else {
        scalar_val(s.drop_last()) * 256 + s.last() as nat
    }
}

/// 256 to the power `len`: the number of byte strings of that length.
pub open spec fn pow256(len: nat) -> nat
    decreases len,
{
    if len == 0 {
        1nat
    } else {
        256 * pow256((len - 1) as nat)
    }
}

/// The canonical big-endian encoding of `v % pow256(len)` in `len` bytes.
pub open spec fn be_bytes(v: nat, len: nat) -> Seq<u8>
    decreases len,
{
    if len == 0 {
        Seq::empty()
    } else {
        be_bytes(v / 256, (len - 1) as nat).push((v % 256) as u8)
    }
}

/// The order of the secp256k1 group, given by its upper and lower 16 bytes.
pub open spec fn curve_order() -> nat {
    (0xFFFFFFFFFFFFFFFFFFFFFFFFFFFFFFFEu128 as nat) * pow256(16)
        + (0xBAAEDCE6AF48A03BBFD25E8CD0364141u128 as nat)
}

/// A byte string is a valid private scalar when it is 32 bytes long and its
/// value lies strictly between zero and the curve order.
pub open spec fn valid_scalar(s: Seq<u8>) -> bool {
    &&& s.len() == 32
    &&& 0 < scalar_val(s)
    &&& scalar_val(s) < curve_order()
}

/// Encoding a value below the range bound and reading it back is the
/// identity.
pub proof fn lemma_be_bytes_val(v: nat, len: nat)
    requires
        v < pow256(len),
    ensures
        be_bytes(v, len).len() == len,
        scalar_val(be_bytes(v, len)) == v,
    decreases len,
{
    if len > 0 {
        assert(v / 256 < pow256((len - 1) as nat)) by (nonlinear_arith)
            requires
                v < 256 * pow256((len - 1) as nat),
        ;
        lemma_be_bytes_val(v / 256, (len - 1) as nat);
        let s = be_bytes(v, len);
        assert(s.drop_last() =~= be_bytes(v / 256, (len - 1) as nat));
        assert(v == (v / 256) * 256 + v % 256);
    }
}

/// Two big-endian byte strings of equal length with the same value are
/// equal: the value determines the bytes.
pub proof fn lemma_scalar_val_injective(a: Seq<u8>, b: Seq<u8>)
    requires
        a.len() == b.len(),
        scalar_val(a) == scalar_val(b),
    ensures
        a == b,
    decreases a.len(),
{
    if a.len() == 0 {
        assert(a =~= b);
    } else {
        let v = scalar_val(a);
        lemma_fundamental_div_mod_converse(
            v as int,
            256,
            scalar_val(a.drop_last()) as int,
            a.last() as int,
        );
        lemma_fundamental_div_mod_converse(
            v as int,
            256,
            scalar_val(b.drop_last()) as int,
            b.last() as int,
        );
        lemma_scalar_val_injective(a.drop_last(), b.drop_last());
        assert(a =~= a.drop_last().push(a.last()));
        assert(b =~= b.drop_last().push(b.last()));
    }
}

/// The 33-byte compressed SEC1 serialization of the public point of a
/// private scalar, as the secp256k1 crate computes it.
pub uninterp spec fn secp_pubkey(scalar: Seq<u8>) -> Seq<u8>;

/// The 65-byte uncompressed SEC1 serialization of the public point of a
/// private scalar, as the secp256k1 crate computes it.
pub uninterp spec fn secp_pubkey_uncompressed(scalar: Seq<u8>) -> Seq<u8>;

/// Relies on secp256k1::SecretKey::from_secret_bytes, which accepts exactly
/// the 32-byte strings whose value is nonzero and below the curve order.
#[verifier::external_body]
pub(crate) fn scalar_is_valid(s: &[u8]) -> (r: bool)
    requires
        s@.len() == 32,
    ensures
        r == (0 < scalar_val(s@) < curve_order()),
{
    let bytes: [u8; 32] = s.try_into().unwrap();
    secp256k1::SecretKey::from_secret_bytes(bytes).is_ok()
}

/// Relies on secp256k1::PublicKey::from_secret_key and
/// PublicKey::serialize: the compressed public point of a valid scalar is a
/// function of the scalar alone, 33 bytes, led by the parity byte 2 or 3.
#[verifier::external_body]
pub(crate) fn pubkey_compressed(scalar: &[u8]) -> (r: Vec<u8>)
    requires
        valid_scalar(scalar@),
    ensures
        r@ == secp_pubkey(scalar@),
        r@.len() == 33,
        r@[0] == 2 || r@[0] == 3,
{
    let bytes: [u8; 32] = scalar.try_into().unwrap();
    let sk = secp256k1::SecretKey::from_secret_bytes(bytes).unwrap();
    secp256k1::PublicKey::from_secret_key(&sk).serialize().to_vec()
}

/// Relies on secp256k1::PublicKey::serialize_uncompressed: the uncompressed
/// public point of a valid scalar is a function of the scalar alone, 65
/// bytes, led by the format byte 4.
#[verifier::external_body]
pub(crate) fn pubkey_uncompressed(scalar: &[u8]) -> (r: Vec<u8>)
    requires
        valid_scalar(scalar@),
    ensures
        r@ == secp_pubkey_uncompressed(scalar@),
        r@.len() == 65,
        r@[0] == 4,
{
    let bytes: [u8; 32] = scalar.try_into().unwrap();
    let sk = secp256k1::SecretKey::from_secret_bytes(bytes).unwrap();
    secp256k1::PublicKey::from_secret_key(&sk).serialize_uncompressed().to_vec()
}

/// Relies on secp256k1::Scalar::from_be_bytes, which rejects exactly the
/// values at or above the curve order, and SecretKey::add_tweak, which adds
/// the tweak modulo the curve order and rejects exactly a zero result.
#[verifier::external_body]
pub(crate) fn scalar_tweak_add(parent: &[u8], tweak: &[u8]) -> (r: Option<Vec<u8>>)
    requires
        valid_scalar(parent@),
        tweak@.len() == 32,
    ensures
        r is Some <==> (scalar_val(tweak@) < curve_order() && (scalar_val(parent@)
            + scalar_val(tweak@)) % curve_order() != 0),
        r matches Some(c) ==> c@.len() == 32 && scalar_val(c@) == (scalar_val(parent@)
            + scalar_val(tweak@)) % curve_order(),
{
    let tweak_bytes: [u8; 32] = tweak.try_into().unwrap();
    let t = match secp256k1::Scalar::from_be_bytes(tweak_bytes) {
        Ok(t) => t,
        Err(_) => return None,
    };
    let parent_bytes: [u8; 32] = parent.try_into().unwrap();
    let sk = secp256k1::SecretKey::from_secret_bytes(parent_bytes).unwrap();
    match sk.add_tweak(&t) {
        Ok(c) => Some(c.to_secret_bytes().to_vec()),
        Err(_) => None,
    }
}

} // verus!
