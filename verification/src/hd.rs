//! The hierarchical deterministic derivation engine: a master extended key
//! from a seed, hardened and non-hardened child derivation with the
//! standard-mandated skip of invalid indices, and folding a derivation path.

use crate::hmac_sha2::{hmac_sha512, hmac_sha512_bytes};
use crate::scalars::{
    be_bytes, curve_order, lemma_be_bytes_val, lemma_scalar_val_injective,
    pow256, pubkey_compressed, scalar_is_valid, scalar_tweak_add, scalar_val, secp_pubkey,
    valid_scalar,
};
use crate::WalletError;
use vstd::arithmetic::div_mod::{lemma_div_denominator, lemma_mod_bound};
use vstd::prelude::*;

verus! {

/// An extended private key: a private scalar plus the chain code that
/// makes further derivation deterministic.
#[derive(Debug)]
pub struct ExtendedPrivKey {
    /// 32-byte private scalar, big-endian, nonzero and below the curve order.
    pub key: Vec<u8>,
    /// 32-byte chain code.
    pub chain_code: Vec<u8>,
    /// Number of derivation steps below the master key.
    pub depth: u8,
    /// The (effective) index this key was derived at; zero for the master.
    pub child_index: u32,
}

impl ExtendedPrivKey {
    /// Well-formedness: the scalar is in the valid range and the chain code
    /// is 32 bytes.
    pub open spec fn wf(&self) -> bool {
        &&& valid_scalar(self.key@)
        &&& self.chain_code@.len() == 32
    }

    /// A field-for-field copy.
    pub fn duplicate(&self) -> (r: ExtendedPrivKey)
        ensures
            r.key@ == self.key@,
            r.chain_code@ == self.chain_code@,
            r.depth == self.depth,
            r.child_index == self.child_index,
    {
        ExtendedPrivKey {
            key: self.key.clone(),
            chain_code: self.chain_code.clone(),
            depth: self.depth,
            child_index: self.child_index,
        }
    }
}

/// The fixed HMAC key, "Bitcoin seed", that the protocol uses as domain
/// separation when deriving a master key.
pub open spec fn bitcoin_seed_key() -> Seq<u8> {
    seq![66u8, 105u8, 116u8, 99u8, 111u8, 105u8, 110u8, 32u8, 115u8, 101u8, 101u8, 100u8]
}

/// The master private scalar: the left half of HMAC-SHA512("Bitcoin seed", seed).
pub open spec fn master_scalar(seed: Seq<u8>) -> Seq<u8> {
    hmac_sha512(bitcoin_seed_key(), seed).take(32)
}

/// The master chain code: the right half of the same HMAC.
pub open spec fn master_chain(seed: Seq<u8>) -> Seq<u8> {
    hmac_sha512(bitcoin_seed_key(), seed).skip(32)
}

/// First index of the hardened range.
pub open spec fn hardened_base() -> nat {
    0x80000000
}

/// The effective 32-bit index: the plain index, with the top bit set for a
/// hardened derivation.
pub open spec fn effective_index(index: nat, hardened: bool) -> nat {
    if hardened {
        index + hardened_base()
    } else {
        index
    }
}

/// The HMAC message for deriving the child at effective index `i`: for a
/// hardened index a zero byte and the parent scalar, otherwise the parent's
/// compressed public point, followed by the index in 4-byte big-endian form.
pub open spec fn ckd_data(kpar: Seq<u8>, i: nat) -> Seq<u8> {
    if i >= hardened_base() {
        seq![0u8] + kpar + be_bytes(i, 4)
    } else {
        secp_pubkey(kpar) + be_bytes(i, 4)
    }
}

/// Child derivation at exactly index `i`: the HMAC of the derivation data
/// under the parent chain code is split; if its left half is a usable
/// tweak, the child is (parent + tweak mod order, right half), else there
/// is no child at this index.
pub open spec fn ckd_once(kpar: Seq<u8>, cpar: Seq<u8>, i: nat) -> Option<(Seq<u8>, Seq<u8>)> {
    let h = hmac_sha512(cpar, ckd_data(kpar, i));
    let il = h.take(32);
    let ir = h.skip(32);
    if scalar_val(il) < curve_order() && (scalar_val(kpar) + scalar_val(il)) % curve_order()
        != 0 {
        Some((be_bytes((scalar_val(kpar) + scalar_val(il)) % curve_order(), 32), ir))
    } else {
        None
    }
}

/// Child derivation starting at effective index `i`: the first index at or
/// after `i` whose HMAC output yields a usable scalar gives (child scalar
/// bytes, child chain code, index used); indices whose left HMAC half is at
/// or above the curve order, or whose sum with the parent scalar is zero
/// modulo it, are skipped. None only if the whole 32-bit range runs out.
pub open spec fn ckd_from(kpar: Seq<u8>, cpar: Seq<u8>, i: nat) -> Option<(Seq<u8>, Seq<u8>, nat)>
    decreases 0x100000000 - i,
{
    if i >= 0x100000000 {
        None
    } else {
        match ckd_once(kpar, cpar, i) {
            Option::Some(p) => Some((p.0, p.1, i)),
            Option::None => ckd_from(kpar, cpar, (i + 1) as nat),
        }
    }
}

/// Powers of 256 multiply when the exponents add.
proof fn lemma_pow256_adds(a: nat, b: nat)
    ensures
        pow256(a + b) == pow256(a) * pow256(b),
    decreases a,
{
    if a > 0 {
        lemma_pow256_adds((a - 1) as nat, b);
        assert((a + b - 1) as nat == (a - 1) as nat + b);
        assert(pow256(a + b) == 256 * pow256((a + b - 1) as nat));
        assert(pow256(a) == 256 * pow256((a - 1) as nat));
        assert(256 * (pow256((a - 1) as nat) * pow256(b)) == (256 * pow256((a - 1) as nat))
            * pow256(b)) by (nonlinear_arith);
        assert(pow256(a + b) == pow256(a) * pow256(b));
    } else {
        assert(pow256(a + b) == pow256(b));
        assert(pow256(a) == 1);
        assert(pow256(a) * pow256(b) == pow256(b));
    }
}

/// 256 to the 32nd power exceeds the curve order.
proof fn lemma_curve_order_bound()
    ensures
        0 < curve_order() < pow256(32),
{
    reveal_with_fuel(pow256, 3);
    assert(pow256(1) == 256);
    lemma_pow256_adds(1, 1);
    assert(pow256(2) == 65536);
    lemma_pow256_adds(2, 2);
    assert(pow256(4) == 0x100000000);
    lemma_pow256_adds(4, 4);
    assert(pow256(8) == 0x10000000000000000);
    lemma_pow256_adds(8, 8);
    assert(pow256(16) == (0xFFFFFFFFFFFFFFFFFFFFFFFFFFFFFFFFu128 as nat) + 1);
    lemma_pow256_adds(16, 16);
    let p = pow256(16);
    let high = 0xFFFFFFFFFFFFFFFFFFFFFFFFFFFFFFFEu128 as nat;
    let low = 0xBAAEDCE6AF48A03BBFD25E8CD0364141u128 as nat;
    assert(high * p + low < p * p) by (nonlinear_arith)
        requires
            high <= p - 1,
            low <= p - 1,
            p >= 1,
    ;
}

/// Derives the master extended key from a seed. Fails only in the
/// astronomically improbable case that the left HMAC half is not a valid
/// scalar.
pub fn master_key(seed: &[u8]) -> (r: Result<ExtendedPrivKey, WalletError>)
    ensures
        r is Ok <==> valid_scalar(master_scalar(seed@)),
        r matches Ok(k) ==> k.key@ == master_scalar(seed@) && k.chain_code@ == master_chain(seed@)
            && k.depth == 0 && k.child_index == 0 && k.wf(),
        r matches Err(e) ==> e == WalletError::InvalidScalar,
{
    let mut domain: Vec<u8> = Vec::new();
    domain.push(66u8);
    domain.push(105u8);
    domain.push(116u8);
    domain.push(99u8);
    domain.push(111u8);
    domain.push(105u8);
    domain.push(110u8);
    domain.push(32u8);
    domain.push(115u8);
    domain.push(101u8);
    domain.push(101u8);
    domain.push(100u8);
    proof {
        assert(domain@ =~= bitcoin_seed_key());
    }
    let h = hmac_sha512_bytes(domain.as_slice(), seed);
    let mut key: Vec<u8> = Vec::new();
    let mut i: usize = 0;
    while i < 32
        invariant
            i <= 32,
            h@.len() == 64,
            key@ == h@.take(i as int),
        decreases 32 - i,
    {
        key.push(h[i]);
        proof {
            assert(key@ =~= h@.take(i + 1));
        }
        i = i + 1;
    }
    let mut chain: Vec<u8> = Vec::new();
    let mut j: usize = 32;
    while j < 64
        invariant
            32 <= j <= 64,
            h@.len() == 64,
            chain@ == h@.subrange(32, j as int),
        decreases 64 - j,
    {
        chain.push(h[j]);
        proof {
            assert(chain@ =~= h@.subrange(32, j + 1));
        }
        j = j + 1;
    }
    proof {
        assert(key@ =~= master_scalar(seed@));
        assert(chain@ =~= master_chain(seed@));
    }
    if scalar_is_valid(key.as_slice()) {
        Ok(ExtendedPrivKey { key, chain_code: chain, depth: 0, child_index: 0 })
    } else {
        Err(WalletError::InvalidScalar)
    }
}

/// Appends the 4-byte big-endian form of `i` to `data`.
fn push_index_be(data: &mut Vec<u8>, i: u32)
    ensures
        final(data)@ == old(data)@ + be_bytes(i as nat, 4),
{
    let b0: u8 = (i / 0x1000000) as u8;
    let b1: u8 = ((i / 0x10000) % 256) as u8;
    let b2: u8 = ((i / 256) % 256) as u8;
    let b3: u8 = (i % 256) as u8;
    data.push(b0);
    data.push(b1);
    data.push(b2);
    data.push(b3);
    proof {
        let n = i as nat;
        reveal_with_fuel(be_bytes, 5);
        lemma_div_denominator(i as int, 256, 256);
        lemma_div_denominator(i as int, 65536, 256);
        lemma_div_denominator(i as int, 16777216, 256);
        assert(be_bytes(n, 4) =~= seq![
            ((n / 0x1000000) % 256) as u8,
            ((n / 0x10000) % 256) as u8,
            ((n / 256) % 256) as u8,
            (n % 256) as u8,
        ]);
        assert(data@ =~= old(data)@ + be_bytes(n, 4));
    }
}

/// Derives the child extended key of `parent` at the given index, hardened
/// or not. If the scalar at that index is unusable the next index is tried,
/// as the standard mandates; the index actually used is recorded in the
/// result.
/// Attempts the child derivation at exactly index `i`.
#[verifier::rlimit(30)]
fn ckd_step(parent: &ExtendedPrivKey, i: u32) -> (r: Option<ExtendedPrivKey>)
    requires
        parent.wf(),
        parent.depth < 255,
    ensures
        r is Some <==> ckd_once(parent.key@, parent.chain_code@, i as nat) is Some,
        r matches Some(c) ==> (ckd_once(parent.key@, parent.chain_code@, i as nat) matches Some(t)
            && c.key@ == t.0 && c.chain_code@ == t.1 && c.child_index == i && c.depth
            == parent.depth + 1 && c.wf()),
{
    let mut data: Vec<u8> = Vec::new();
    if i >= 0x80000000 {
        data.push(0u8);
        data.extend_from_slice(parent.key.as_slice());
    } else {
        let pk = pubkey_compressed(parent.key.as_slice());
        data.extend_from_slice(pk.as_slice());
    }
    push_index_be(&mut data, i);
    proof {
        assert(data@ =~= ckd_data(parent.key@, i as nat));
    }
    let h = hmac_sha512_bytes(parent.chain_code.as_slice(), data.as_slice());
    let mut il: Vec<u8> = Vec::new();
    let mut a: usize = 0;
    while a < 32
        invariant
            a <= 32,
            h@.len() == 64,
            il@ == h@.take(a as int),
        decreases 32 - a,
    {
        il.push(h[a]);
        proof {
            assert(il@ =~= h@.take(a + 1));
        }
        a = a + 1;
    }
    let mut ir: Vec<u8> = Vec::new();
    let mut b: usize = 32;
    while b < 64
        invariant
            32 <= b <= 64,
            h@.len() == 64,
            ir@ == h@.subrange(32, b as int),
        decreases 64 - b,
    {
        ir.push(h[b]);
        proof {
            assert(ir@ =~= h@.subrange(32, b + 1));
        }
        b = b + 1;
    }
    let ghost hs = hmac_sha512(parent.chain_code@, ckd_data(parent.key@, i as nat));
    proof {
        assert(il@ =~= hs.take(32));
        assert(ir@ =~= hs.skip(32));
    }
    match scalar_tweak_add(parent.key.as_slice(), il.as_slice()) {
        Some(child_key) => {
            proof {
                let sum = (scalar_val(parent.key@) + scalar_val(il@)) % curve_order();
                lemma_curve_order_bound();
                lemma_mod_bound(
                    (scalar_val(parent.key@) + scalar_val(il@)) as int,
                    curve_order() as int,
                );
                lemma_be_bytes_val(sum, 32);
                lemma_scalar_val_injective(child_key@, be_bytes(sum, 32));
                assert(ckd_once(parent.key@, parent.chain_code@, i as nat) == Some(
                    (child_key@, ir@),
                ));
            }
            Some(
                ExtendedPrivKey {
                    key: child_key,
                    chain_code: ir,
                    depth: parent.depth + 1,
                    child_index: i,
                },
            )
        },
        None => {
            proof {
                assert(ckd_once(parent.key@, parent.chain_code@, i as nat) is None);
            }
            None
        },
    }
}

/// Derives the child extended key of `parent` at the given index, hardened
/// or not. If the scalar at that index is unusable the next index is tried,
/// as the standard mandates; the index actually used is recorded in the
/// result.
pub fn derive_child(parent: &ExtendedPrivKey, index: u32, hardened: bool) -> (r: Result<
    ExtendedPrivKey,
    WalletError,
>)
    requires
        parent.wf(),
        index < 0x80000000,
        parent.depth < 255,
    ensures
        r is Ok <==> ckd_from(
            parent.key@,
            parent.chain_code@,
            effective_index(index as nat, hardened),
        ) is Some,
        r matches Ok(c) ==> (ckd_from(
            parent.key@,
            parent.chain_code@,
            effective_index(index as nat, hardened),
        ) matches Some(t) && c.key@ == t.0 && c.chain_code@ == t.1 && c.child_index == t.2
            && c.depth == parent.depth + 1 && c.wf()),
        r matches Err(e) ==> e == WalletError::InvalidScalar,
{
    let start: u32 = if hardened {
        index + 0x80000000
    } else {
        index
    };
    let ghost eff = effective_index(index as nat, hardened);
    let mut i: u32 = start;
    loop
        invariant
            parent.wf(),
            parent.depth < 255,
            eff == start as nat,
            eff == effective_index(index as nat, hardened),
            i >= start,
            ckd_from(parent.key@, parent.chain_code@, eff) == ckd_from(
                parent.key@,
                parent.chain_code@,
                i as nat,
            ),
        decreases 0xFFFFFFFFu32 - i,
    {
        match ckd_step(parent, i) {
            Some(child) => {
                proof {
                    let p = ckd_once(parent.key@, parent.chain_code@, i as nat)->0;
                    assert(ckd_from(parent.key@, parent.chain_code@, i as nat) == Some(
                        (p.0, p.1, i as nat),
                    ));
                }
                return Ok(child);
            },
            None => {
                if i == 0xFFFFFFFFu32 {
                    proof {
                        assert(ckd_from(parent.key@, parent.chain_code@, 0x100000000nat)
                            is None);
                        assert(ckd_from(parent.key@, parent.chain_code@, i as nat) is None);
                    }
                    return Err(WalletError::InvalidScalar);
                }
                i = i + 1;
            },
        }
    }
}

/// One component of a derivation path: an index below 2^31 and whether the
/// step is hardened.
#[derive(Clone, Copy, Debug, PartialEq, Eq, Structural)]
pub struct PathComponent {
    /// Index within the hardened or non-hardened range.
    pub index: u32,
    /// Whether this step derives in the hardened range.
    pub hardened: bool,
}

impl PathComponent {
    /// Well-formedness: the index leaves room for the hardened bit.
    pub open spec fn wf(&self) -> bool {
        self.index < 0x80000000
    }
}

/// Folds child derivation over a path, starting from the given scalar and
/// chain code.
pub open spec fn derive_path_from(kpar: Seq<u8>, cpar: Seq<u8>, path: Seq<PathComponent>) -> Option<
    (Seq<u8>, Seq<u8>),
>
    decreases path.len(),
{
    if path.len() == 0 {
        Some((kpar, cpar))
    } else {
        match ckd_from(kpar, cpar, effective_index(path[0].index as nat, path[0].hardened)) {
            Option::None => None,
            Option::Some(t) => derive_path_from(t.0, t.1, path.drop_first()),
        }
    }
}

/// The fixed account path m/44'/60'/0'/0/i: BIP-44 purpose, coin type 60,
/// account 0, external chain 0, address index i; the first three steps
/// hardened, the last two not.
pub open spec fn eth_path_spec(i: u32) -> Seq<PathComponent> {
    seq![
        PathComponent { index: 44u32, hardened: true },
        PathComponent { index: 60u32, hardened: true },
        PathComponent { index: 0u32, hardened: true },
        PathComponent { index: 0u32, hardened: false },
        PathComponent { index: i, hardened: false },
    ]
}

/// The fixed path is well formed whenever its address index leaves room
/// for the hardened bit.
pub proof fn eth_path_spec_wf(i: u32)
    requires
        i < 0x80000000,
    ensures
        eth_path_spec(i).len() == 5,
        forall|k: int| 0 <= k < eth_path_spec(i).len() ==> (#[trigger] eth_path_spec(i)[k]).wf(),
{
}

/// Builds the fixed account path ending at the given address index.
pub fn eth_path(i: u32) -> (r: Vec<PathComponent>)
    requires
        i < 0x80000000,
    ensures
        r@ == eth_path_spec(i),
{
    let mut r: Vec<PathComponent> = Vec::new();
    r.push(PathComponent { index: 44, hardened: true });
    r.push(PathComponent { index: 60, hardened: true });
    r.push(PathComponent { index: 0, hardened: true });
    r.push(PathComponent { index: 0, hardened: false });
    r.push(PathComponent { index: i, hardened: false });
    proof {
        assert(r@ =~= eth_path_spec(i));
    }
    r
}

/// Walks a derivation path from the master key, one child derivation per
/// component, in order.
pub fn derive_path(master: &ExtendedPrivKey, path: &Vec<PathComponent>) -> (r: Result<
    ExtendedPrivKey,
    WalletError,
>)
    requires
        master.wf(),
        forall|k: int| 0 <= k < path@.len() ==> path@[k].wf(),
        master.depth + path@.len() <= 255,
    ensures
        r is Ok <==> derive_path_from(master.key@, master.chain_code@, path@) is Some,
        r matches Ok(c) ==> (derive_path_from(master.key@, master.chain_code@, path@)
            matches Some(t) && c.key@ == t.0 && c.chain_code@ == t.1 && c.wf() && c.depth
            == master.depth + path@.len()),
        r matches Err(e) ==> e == WalletError::InvalidScalar,
{
    let mut cur = master.duplicate();
    proof {
        assert(path@.skip(0) =~= path@);
    }
    let mut i: usize = 0;
    while i < path.len()
        invariant
            i <= path@.len(),
            cur.wf(),
            cur.depth == master.depth + i,
            master.depth + path@.len() <= 255,
            forall|k: int| 0 <= k < path@.len() ==> path@[k].wf(),
            derive_path_from(master.key@, master.chain_code@, path@) == derive_path_from(
                cur.key@,
                cur.chain_code@,
                path@.skip(i as int),
            ),
        decreases path@.len() - i,
    {
        let component = path[i];
        let step = derive_child(&cur, component.index, component.hardened);
        match step {
            Ok(next) => {
                proof {
                    assert(path@.skip(i as int)[0] == path@[i as int]);
                    assert(path@.skip(i as int).drop_first() =~= path@.skip(i + 1));
                }
                cur = next;
                i = i + 1;
            },
            Err(e) => {
                proof {
                    assert(path@.skip(i as int)[0] == path@[i as int]);
                }
                return Err(e);
            },
        }
    }
    proof {
        assert(path@.skip(path@.len() as int) =~= Seq::<PathComponent>::empty());
    }
    Ok(cur)
}

} // verus!
