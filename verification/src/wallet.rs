//! The wallet assembler and the public derivation operations: hex encoding
//! of keys, Ethereum-style address encoding, and the parent / child /
//! split-batch derivations along the fixed account path m/44'/60'/0'/0/i.

use crate::hashes::{keccak256, keccak256_of};
use crate::hd::{
    derive_path, derive_path_from, eth_path_spec_wf, master_chain, master_key, master_scalar,
    ExtendedPrivKey,
};
use crate::mnemonic::{mnemonic_to_seed, seed_of, valid_phrase};
use crate::scalars::{secp_pubkey, secp_pubkey_uncompressed, valid_scalar};
use crate::WalletError;
use vstd::prelude::*;
use vstd::slice::slice_subrange;
use vstd::string::{StringExecFns, StringSliceAdditionalSpecFns};

verus! {

/// The lowercase hexadecimal digit of a value below 16.
pub open spec fn hex_digit(n: nat) -> char {
    if n == 0 {
        '0'
    } else if n == 1 {
        '1'
    } else if n == 2 {
        '2'
    } else if n == 3 {
        '3'
    } else if n == 4 {
        '4'
    } else if n == 5 {
        '5'
    } else if n == 6 {
        '6'
    } else if n == 7 {
        '7'
    } else if n == 8 {
        '8'
    } else if n == 9 {
        '9'
    } else if n == 10 {
        'a'
    } else if n == 11 {
        'b'
    } else if n == 12 {
        'c'
    } else if n == 13 {
        'd'
    } else if n == 14 {
        'e'
    } else {
        'f'
    }
}

/// The lowercase hex encoding of a byte string, two digits per byte.
pub open spec fn hex_of(b: Seq<u8>) -> Seq<char> {
    Seq::new(
        2 * b.len(),
        |i: int|
            if i % 2 == 0 {
                hex_digit((b[i / 2] / 16) as nat)
            } else {
                hex_digit((b[i / 2] % 16) as nat)
            },
    )
}

/// A lowercase hexadecimal character.
pub open spec fn is_hex_char(c: char) -> bool {
    ('0' <= c <= '9') || ('a' <= c <= 'f')
}

/// Every character of a hex encoding is a lowercase hex digit.
pub proof fn lemma_hex_of_chars(b: Seq<u8>)
    ensures
        hex_of(b).len() == 2 * b.len(),
        forall|i: int| 0 <= i < 2 * b.len() ==> is_hex_char(#[trigger] hex_of(b)[i]),
{
    assert forall|i: int| 0 <= i < 2 * b.len() implies is_hex_char(#[trigger] hex_of(b)[i]) by {
        assert(b[i / 2] / 16 < 16);
        assert(b[i / 2] % 16 < 16);
    }
}

/// Relies on hex::encode: two lowercase hexadecimal digits for each input
/// byte, most significant nibble first.
#[verifier::external_body]
fn hex_encode(b: &[u8]) -> (r: String)
    ensures
        r@ == hex_of(b@),
{
    hex::encode(b)
}

/// The address text of an uncompressed public point: "0x" followed by the
/// hex of the last 20 bytes of the Keccak-256 digest of the point without
/// its leading format byte.
pub open spec fn eth_address_chars(public_key: Seq<u8>) -> Seq<char> {
    seq!['0', 'x'] + hex_of(keccak256_of(public_key.skip(1)).skip(12))
}

/// Encodes a 65-byte uncompressed public point as an address: drop the
/// leading format byte, hash with Keccak-256, keep the last 20 digest
/// bytes, hex-encode behind a fixed "0x" prefix.
pub fn public_key_to_address(public_key: &[u8]) -> (r: String)
    requires
        public_key@.len() == 65,
    ensures
        r@ == eth_address_chars(public_key@),
        r@.len() == 42,
{
    let tail = slice_subrange(public_key, 1, 65);
    proof {
        assert(tail@ =~= public_key@.skip(1));
    }
    let digest = keccak256(tail);
    let mut addr_bytes: Vec<u8> = Vec::new();
    let mut i: usize = 12;
    while i < 32
        invariant
            12 <= i <= 32,
            digest@.len() == 32,
            addr_bytes@ == digest@.subrange(12, i as int),
        decreases 32 - i,
    {
        addr_bytes.push(digest[i]);
        proof {
            assert(addr_bytes@ =~= digest@.subrange(12, i + 1));
        }
        i = i + 1;
    }
    proof {
        assert(addr_bytes@ =~= keccak256_of(public_key@.skip(1)).skip(12));
    }
    let hex_part = hex_encode(addr_bytes.as_slice());
    let mut out = String::from_str("0x");
    proof {
        reveal_strlit("0x");
        assert(out@ =~= seq!['0', 'x']);
    }
    out.append(hex_part.as_str());
    proof {
        assert(out@ =~= eth_address_chars(public_key@));
    }
    out
}

/// One derived account record: the address and the hex forms of the two
/// keys, all plain text owned by the caller.
#[derive(Debug)]
pub struct WalletInfo {
    /// "0x" plus 40 lowercase hex characters.
    pub address: String,
    /// 64 lowercase hex characters: the 32-byte private scalar.
    pub private_key: String,
    /// 66 lowercase hex characters: the 33-byte compressed public point.
    pub public_key: String,
}

/// A parent wallet with its batch of child wallets, all from one phrase.
#[derive(Debug)]
pub struct SplitResult {
    /// The wallet at address index 0.
    pub parent_wallet: WalletInfo,
    /// The wallets at address indices 0 through 99, in index order.
    pub child_wallets: Vec<WalletInfo>,
}

/// The record fields a wallet built on a private scalar must hold.
pub open spec fn wallet_matches(w: &WalletInfo, key: Seq<u8>) -> bool {
    &&& w.address@ == eth_address_chars(secp_pubkey_uncompressed(key))
    &&& w.private_key@ == hex_of(key)
    &&& w.public_key@ == hex_of(secp_pubkey(key))
}

/// The textual shape of a wallet record: a "0x"-prefixed 40-hex-digit
/// address, 64 hex digits of private key, 66 of public key, all lowercase.
pub open spec fn wallet_format_ok(w: &WalletInfo) -> bool {
    &&& w.address@.len() == 42
    &&& w.address@[0] == '0'
    &&& w.address@[1] == 'x'
    &&& (forall|i: int| 2 <= i < 42 ==> is_hex_char(#[trigger] w.address@[i]))
    &&& w.private_key@.len() == 64
    &&& (forall|i: int| 0 <= i < 64 ==> is_hex_char(#[trigger] w.private_key@[i]))
    &&& w.public_key@.len() == 66
    &&& w.public_key@[0] == '0'
    &&& (w.public_key@[1] == '2' || w.public_key@[1] == '3')
    &&& (forall|i: int| 0 <= i < 66 ==> is_hex_char(#[trigger] w.public_key@[i]))
}

/// Builds the wallet record of a valid private scalar.
fn assemble_wallet(key: &Vec<u8>) -> (w: WalletInfo)
    requires
        valid_scalar(key@),
    ensures
        wallet_matches(&w, key@),
        wallet_format_ok(&w),
{
    let uncompressed = crate::scalars::pubkey_uncompressed(key.as_slice());
    let address = public_key_to_address(uncompressed.as_slice());
    let private_key = hex_encode(key.as_slice());
    let compressed = crate::scalars::pubkey_compressed(key.as_slice());
    let public_key = hex_encode(compressed.as_slice());
    let w = WalletInfo { address, private_key, public_key };
    proof {
        lemma_hex_of_chars(keccak256_of(secp_pubkey_uncompressed(key@).skip(1)).skip(12));
        lemma_hex_of_chars(key@);
        lemma_hex_of_chars(secp_pubkey(key@));
        assert(w.public_key@[0] == hex_digit((secp_pubkey(key@)[0] / 16) as nat));
        assert(w.public_key@[1] == hex_digit((secp_pubkey(key@)[0] % 16) as nat));
    }
    w
}

/// The private scalar of the wallet at address index `i` of a seed: walk
/// m/44'/60'/0'/0/i from the seed's master key.
pub open spec fn wallet_key_of_seed(seed: Seq<u8>, i: u32) -> Option<Seq<u8>> {
    if !valid_scalar(master_scalar(seed)) {
        None
    } else {
        match derive_path_from(
            master_scalar(seed),
            master_chain(seed),
            crate::hd::eth_path_spec(i),
        ) {
            Option::None => None,
            Option::Some(t) => Some(t.0),
        }
    }
}

/// The private scalar of the wallet at address index `i` of a phrase, if
/// the phrase is valid and the walk succeeds.
pub open spec fn wallet_at(phrase_bytes: Seq<u8>, i: u32) -> Option<Seq<u8>> {
    if !valid_phrase(phrase_bytes) {
        None
    } else {
        wallet_key_of_seed(seed_of(phrase_bytes), i)
    }
}

/// The condition under which a child batch of the given count succeeds: a
/// valid phrase, a usable master scalar, and a derivable wallet at every
/// index below the count.
pub open spec fn batch_ok(phrase_bytes: Seq<u8>, count: u32) -> bool {
    &&& valid_phrase(phrase_bytes)
    &&& valid_scalar(master_scalar(seed_of(phrase_bytes)))
    &&& (forall|i: u32| i < count ==> #[trigger] wallet_at(phrase_bytes, i) is Some)
}

/// Derives the wallet at one address index from an already-derived master
/// key.
fn derive_indexed_wallet(master: &ExtendedPrivKey, i: u32) -> (r: Result<WalletInfo, WalletError>)
    requires
        master.wf(),
        master.depth == 0,
        master.child_index == 0,
        i < 0x80000000,
    ensures
        r is Ok <==> (derive_path_from(master.key@, master.chain_code@, crate::hd::eth_path_spec(i))
            is Some),
        r matches Ok(w) ==> (derive_path_from(
            master.key@,
            master.chain_code@,
            crate::hd::eth_path_spec(i),
        ) matches Some(t) && wallet_matches(&w, t.0) && wallet_format_ok(&w)),
        r matches Err(e) ==> e == WalletError::InvalidScalar,
{
    let path = crate::hd::eth_path(i);
    proof {
        eth_path_spec_wf(i);
    }
    match derive_path(master, &path) {
        Ok(child) => Ok(assemble_wallet(&child.key)),
        Err(e) => Err(e),
    }
}

/// Derives the parent wallet of a phrase: the wallet at address index 0 of
/// the path m/44'/60'/0'/0/0. Rejects an invalid phrase; fails with
/// InvalidScalar only in the astronomically improbable derivation dead
/// end.
pub fn derive_parent_wallet(mnemonic: &str) -> (r: Result<WalletInfo, WalletError>)
    ensures
        r is Ok <==> wallet_at(mnemonic.spec_bytes(), 0) is Some,
        r matches Ok(w) ==> (wallet_at(mnemonic.spec_bytes(), 0) matches Some(k)
            && wallet_matches(&w, k) && wallet_format_ok(&w)),
        r matches Err(e) ==> ((e == WalletError::InvalidMnemonic <==> !valid_phrase(
            mnemonic.spec_bytes(),
        )) && (e == WalletError::InvalidMnemonic || e == WalletError::InvalidScalar)),
{
    let seed = match mnemonic_to_seed(mnemonic) {
        Ok(seed) => seed,
        Err(e) => {
            return Err(e);
        },
    };
    let master = match master_key(seed.as_slice()) {
        Ok(master) => master,
        Err(e) => {
            return Err(e);
        },
    };
    derive_indexed_wallet(&master, 0)
}

/// Derives the wallets at address indices 0 through count-1, in index
/// order, each by an independent walk of m/44'/60'/0'/0/i from the same
/// master key. Entry i equals the wallet an independent derivation of
/// index i yields; count 0 gives an empty sequence without error.
pub fn derive_child_wallets(mnemonic: &str, count: u32) -> (r: Result<Vec<WalletInfo>, WalletError>)
    requires
        count <= 0x80000000,
    ensures
        r is Ok <==> batch_ok(mnemonic.spec_bytes(), count),
        r matches Ok(ws) ==> ws@.len() == count && (forall|i: int|
            0 <= i < count ==> #[trigger] wallet_at(mnemonic.spec_bytes(), i as u32)
                is Some && wallet_matches(&ws@[i], wallet_at(mnemonic.spec_bytes(), i as u32)->0)
                && wallet_format_ok(&ws@[i])),
        r matches Err(e) ==> ((e == WalletError::InvalidMnemonic <==> !valid_phrase(
            mnemonic.spec_bytes(),
        )) && (e == WalletError::InvalidMnemonic || e == WalletError::InvalidScalar)),
{
    let ghost pb = mnemonic.spec_bytes();
    let seed = match mnemonic_to_seed(mnemonic) {
        Ok(seed) => seed,
        Err(e) => {
            return Err(e);
        },
    };
    let master = match master_key(seed.as_slice()) {
        Ok(master) => master,
        Err(e) => {
            return Err(e);
        },
    };
    let mut wallets: Vec<WalletInfo> = Vec::new();
    let mut i: u32 = 0;
    while i < count
        invariant
            pb == mnemonic.spec_bytes(),
            count <= 0x80000000,
            valid_phrase(pb),
            seed@ == seed_of(pb),
            master.wf(),
            master.depth == 0,
            master.child_index == 0,
            master.key@ == master_scalar(seed@),
            master.chain_code@ == master_chain(seed@),
            i <= count,
            wallets@.len() == i,
            forall|j: int|
                0 <= j < i ==> #[trigger] wallet_at(pb, j as u32) is Some && wallet_matches(
                    &wallets@[j],
                    wallet_at(pb, j as u32)->0,
                ) && wallet_format_ok(&wallets@[j]),
        decreases count - i,
    {
        match derive_indexed_wallet(&master, i) {
            Ok(w) => {
                wallets.push(w);
            },
            Err(e) => {
                proof {
                    assert(wallet_at(pb, i) is None);
                }
                return Err(e);
            },
        }
        i = i + 1;
    }
    proof {
        assert forall|i2: u32| i2 < count implies #[trigger] wallet_at(pb, i2) is Some by {
            let j: int = i2 as int;
            assert(0 <= j < count);
            assert(wallet_at(pb, j as u32) is Some);
            assert(j as u32 == i2);
        }
    }
    Ok(wallets)
}

/// Derives one parent wallet plus the fixed batch of 100 child wallets
/// from a phrase. The parent and child 0 both sit at address index 0 and
/// so hold identical fields by construction.
pub fn create_split_operation(mnemonic: &str) -> (r: Result<SplitResult, WalletError>)
    ensures
        r is Ok <==> batch_ok(mnemonic.spec_bytes(), 100),
        r matches Ok(sr) ==> (wallet_at(mnemonic.spec_bytes(), 0) matches Some(k)
            && wallet_matches(&sr.parent_wallet, k) && wallet_format_ok(&sr.parent_wallet)),
        r matches Ok(sr) ==> sr.child_wallets@.len() == 100 && (forall|i: int|
            0 <= i < 100 ==> #[trigger] wallet_at(mnemonic.spec_bytes(), i as u32)
                is Some && wallet_matches(
                &sr.child_wallets@[i],
                wallet_at(mnemonic.spec_bytes(), i as u32)->0,
            ) && wallet_format_ok(&sr.child_wallets@[i])),
        r matches Ok(sr) ==> sr.child_wallets@[0].address@ == sr.parent_wallet.address@
            && sr.child_wallets@[0].private_key@ == sr.parent_wallet.private_key@
            && sr.child_wallets@[0].public_key@ == sr.parent_wallet.public_key@,
        r matches Err(e) ==> ((e == WalletError::InvalidMnemonic <==> !valid_phrase(
            mnemonic.spec_bytes(),
        )) && (e == WalletError::InvalidMnemonic || e == WalletError::InvalidScalar)),
{
    let parent = match derive_parent_wallet(mnemonic) {
        Ok(parent) => parent,
        Err(e) => {
            return Err(e);
        },
    };
    let children = match derive_child_wallets(mnemonic, 100) {
        Ok(children) => children,
        Err(e) => {
            return Err(e);
        },
    };
    proof {
        assert(wallet_at(mnemonic.spec_bytes(), 0) is Some);
        assert(wallet_matches(&children@[0], wallet_at(mnemonic.spec_bytes(), 0 as u32)->0));
        assert(wallet_matches(&parent, wallet_at(mnemonic.spec_bytes(), 0)->0));
    }
    Ok(SplitResult { parent_wallet: parent, child_wallets: children })
}

/// Law: derivation is deterministic. Any two wallet records that meet the
/// parent-wallet contract for the same phrase bytes hold identical
/// address, private key and public key text.
pub proof fn lemma_parent_wallet_deterministic(pb: Seq<u8>, w1: &WalletInfo, w2: &WalletInfo)
    requires
        wallet_at(pb, 0) is Some,
        wallet_matches(w1, wallet_at(pb, 0)->0),
        wallet_matches(w2, wallet_at(pb, 0)->0),
    ensures
        w1.address@ == w2.address@,
        w1.private_key@ == w2.private_key@,
        w1.public_key@ == w2.public_key@,
{
}

/// Law: path order. `wallet_at(pb, i)` — the spec value every batch entry
/// is pinned to — is by definition the independent walk of the path
/// m/44'/60'/0'/0/i from the phrase's seed, so any two wallet records
/// that meet the derivation contract for the same phrase at the same
/// address index hold identical fields, whether they came from a batch or
/// from a single independent derivation. (Stated for indices whose walk
/// does not hit the improbable invalid-scalar dead end.)
pub proof fn lemma_wallet_records_agree(pb: Seq<u8>, i: u32, w1: &WalletInfo, w2: &WalletInfo)
    requires
        wallet_at(pb, i) is Some,
        wallet_matches(w1, wallet_at(pb, i)->0),
        wallet_matches(w2, wallet_at(pb, i)->0),
    ensures
        wallet_at(pb, i) == (match derive_path_from(
            master_scalar(seed_of(pb)),
            master_chain(seed_of(pb)),
            crate::hd::eth_path_spec(i),
        ) {
            Option::Some(t) => Option::Some(t.0),
            Option::None => Option::None,
        }),
        w1.address@ == w2.address@,
        w1.private_key@ == w2.private_key@,
        w1.public_key@ == w2.public_key@,
{
}

/// Law: both halves of a split sit at address index 0. The parent record
/// and child 0 of a split each meet the index-0 contract, so their fields
/// coincide; `create_split_operation` also states the equality directly
/// of its result.
pub proof fn lemma_split_parent_is_child_zero(
    pb: Seq<u8>,
    parent: &WalletInfo,
    child0: &WalletInfo,
)
    requires
        wallet_at(pb, 0) is Some,
        wallet_matches(parent, wallet_at(pb, 0)->0),
        wallet_matches(child0, wallet_at(pb, 0)->0),
    ensures
        parent.address@ == child0.address@,
        parent.private_key@ == child0.private_key@,
        parent.public_key@ == child0.public_key@,
{
}

/// Law: a count of zero asks for no derivations, so on a valid phrase
/// with a usable master scalar the batch condition holds and
/// `derive_child_wallets` returns an empty sequence without error.
pub proof fn lemma_empty_batch_succeeds(pb: Seq<u8>)
    requires
        valid_phrase(pb),
        valid_scalar(master_scalar(seed_of(pb))),
    ensures
        batch_ok(pb, 0),
{
}

} // verus!
