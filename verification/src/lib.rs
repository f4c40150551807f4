//! Hierarchical deterministic wallet derivation from a 24-word recovery
//! phrase: mnemonic generation and validation, seed stretching, BIP32-style
//! child key derivation along the Ethereum account path, and hash-based
//! address encoding.

use vstd::prelude::*;

pub mod bits;
pub mod hashes;
pub mod hd;
pub mod hmac_sha2;
pub mod mnemonic;
pub mod path;
pub mod scalars;
pub mod wallet;

pub use hashes::{keccak256, sha256};
pub use mnemonic::{generate_mnemonic, mnemonic_to_seed, validate_mnemonic};
pub use wallet::{
    create_split_operation, derive_child_wallets, derive_parent_wallet, public_key_to_address,
    SplitResult, WalletInfo,
};

verus! {

/// The closed set of failure causes of this library.
#[derive(Clone, Copy, Debug, PartialEq, Eq, Structural)]
pub enum WalletError {
    /// The phrase fails word-list or checksum validation.
    InvalidMnemonic,
    /// A derivation path string cannot be parsed.
    InvalidPath,
    /// The secure random source could not supply entropy.
    RandomSourceFailure,
    /// A derived private scalar is zero or at least the curve order, and no
    /// later index in range could repair it.
    InvalidScalar,
}

} // verus!
