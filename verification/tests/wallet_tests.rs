use hdwallet::{ChainPath, DefaultKeyChain, KeyChain};
use hdwallet_split::hd::master_key;
use hdwallet_split::path::parse_path;
use hdwallet_split::mnemonic::mnemonic_from_entropy;
use hdwallet_split::{
    create_split_operation, derive_child_wallets, derive_parent_wallet, generate_mnemonic,
    keccak256, mnemonic_to_seed, sha256, validate_mnemonic, WalletError,
};

const VECTOR_PHRASE: &str = "abandon abandon abandon abandon abandon abandon abandon abandon abandon abandon abandon abandon abandon abandon abandon abandon abandon abandon abandon abandon abandon abandon abandon art";

#[test]
fn zero_entropy_gives_reference_phrase() {
    let phrase = mnemonic_from_entropy(&[0u8; 32]);
    assert_eq!(phrase, VECTOR_PHRASE);
}

#[test]
fn generated_phrase_validates() {
    let phrase = generate_mnemonic().unwrap();
    assert!(validate_mnemonic(&phrase));
    let words: Vec<&str> = phrase.split(' ').collect();
    assert_eq!(words.len(), 24);
}

#[test]
fn two_generated_phrases_differ() {
    let a = generate_mnemonic().unwrap();
    let b = generate_mnemonic().unwrap();
    assert_ne!(a, b);
}

#[test]
fn validate_accepts_reference_phrase() {
    assert!(validate_mnemonic(VECTOR_PHRASE));
}

#[test]
fn validate_rejects_malformed_input() {
    assert!(!validate_mnemonic(""));
    assert!(!validate_mnemonic("abandon"));
    assert!(!validate_mnemonic("abandon abandon abandon"));
    assert!(!validate_mnemonic("not a real phrase at all"));
    let with_unknown = VECTOR_PHRASE.replace("art", "zzzzz");
    assert!(!validate_mnemonic(&with_unknown));
}

#[test]
fn checksum_sensitivity_last_word() {
    let all_abandon = VECTOR_PHRASE.replace("art", "abandon");
    assert!(!validate_mnemonic(&all_abandon));
}

#[test]
fn checksum_sensitivity_middle_word() {
    let mut words: Vec<&str> = VECTOR_PHRASE.split(' ').collect();
    words[5] = "zoo";
    let mutated = words.join(" ");
    assert!(!validate_mnemonic(&mutated));
}

#[test]
fn seed_matches_reference_implementation() {
    let reference = bip39::Mnemonic::parse_in(bip39::Language::English, VECTOR_PHRASE).unwrap();
    let expected = reference.to_seed("");
    let seed = mnemonic_to_seed(VECTOR_PHRASE).unwrap();
    assert_eq!(seed.len(), 64);
    assert_eq!(seed, expected.to_vec());
}

#[test]
fn validation_agrees_with_reference_implementation() {
    let wrong_checksum = VECTOR_PHRASE.replace("art", "about");
    assert!(!validate_mnemonic(&wrong_checksum));
    assert!(bip39::Mnemonic::parse_in(bip39::Language::English, wrong_checksum.as_str()).is_err());
    assert!(bip39::Mnemonic::parse_in(bip39::Language::English, VECTOR_PHRASE).is_ok());
    let generated = generate_mnemonic().unwrap();
    assert!(bip39::Mnemonic::parse_in(bip39::Language::English, generated.as_str()).is_ok());
}

#[test]
fn master_key_is_deterministic_and_well_formed() {
    let seed = mnemonic_to_seed(VECTOR_PHRASE).unwrap();
    let a = master_key(&seed).unwrap();
    let b = master_key(&seed).unwrap();
    assert_eq!(a.key, b.key);
    assert_eq!(a.chain_code, b.chain_code);
    assert_eq!(a.key.len(), 32);
    assert_eq!(a.chain_code.len(), 32);
    assert_eq!(a.depth, 0);
    assert_eq!(a.child_index, 0);
}

#[test]
fn wallet_fields_agree_with_curve_reference() {
    let wallet = derive_parent_wallet(VECTOR_PHRASE).unwrap();
    let key_bytes: [u8; 32] = hex::decode(&wallet.private_key).unwrap().try_into().unwrap();
    let sk = secp256k1::SecretKey::from_secret_bytes(key_bytes).unwrap();
    let pk = secp256k1::PublicKey::from_secret_key(&sk);
    assert_eq!(wallet.public_key, hex::encode(pk.serialize()));
    let uncompressed = pk.serialize_uncompressed();
    let rebuilt = hdwallet_split::public_key_to_address(&uncompressed);
    assert_eq!(wallet.address, rebuilt);
    let digest = keccak256(&uncompressed[1..]);
    assert_eq!(wallet.address, format!("0x{}", hex::encode(&digest[12..])));
}

#[test]
fn parent_wallet_is_deterministic() {
    let a = derive_parent_wallet(VECTOR_PHRASE).unwrap();
    let b = derive_parent_wallet(VECTOR_PHRASE).unwrap();
    assert_eq!(a.address, b.address);
    assert_eq!(a.private_key, b.private_key);
    assert_eq!(a.public_key, b.public_key);
}

#[test]
fn child_wallets_follow_path_order() {
    let three = derive_child_wallets(VECTOR_PHRASE, 3).unwrap();
    let five = derive_child_wallets(VECTOR_PHRASE, 5).unwrap();
    assert_eq!(three.len(), 3);
    assert_eq!(five.len(), 5);
    for i in 0..3 {
        assert_eq!(three[i].address, five[i].address);
        assert_eq!(three[i].private_key, five[i].private_key);
        assert_eq!(three[i].public_key, five[i].public_key);
    }
    let parent = derive_parent_wallet(VECTOR_PHRASE).unwrap();
    assert_eq!(three[0].address, parent.address);
    assert_eq!(three[0].private_key, parent.private_key);
    assert_eq!(three[0].public_key, parent.public_key);
}

#[test]
fn children_are_pairwise_distinct() {
    let wallets = derive_child_wallets(VECTOR_PHRASE, 4).unwrap();
    for i in 0..4 {
        for j in (i + 1)..4 {
            assert_ne!(wallets[i].address, wallets[j].address);
            assert_ne!(wallets[i].private_key, wallets[j].private_key);
        }
    }
}

#[test]
fn split_operation_parent_equals_child_zero() {
    let split = create_split_operation(VECTOR_PHRASE).unwrap();
    assert_eq!(split.child_wallets.len(), 100);
    assert_eq!(split.parent_wallet.address, split.child_wallets[0].address);
    assert_eq!(split.parent_wallet.private_key, split.child_wallets[0].private_key);
    assert_eq!(split.parent_wallet.public_key, split.child_wallets[0].public_key);
}

#[test]
fn wallet_fields_have_standard_format() {
    let wallets = derive_child_wallets(VECTOR_PHRASE, 2).unwrap();
    for w in &wallets {
        assert_eq!(w.address.len(), 42);
        assert!(w.address.starts_with("0x"));
        assert!(w.address[2..].chars().all(|c| c.is_ascii_hexdigit() && !c.is_ascii_uppercase()));
        assert_eq!(w.private_key.len(), 64);
        assert!(w.private_key.chars().all(|c| c.is_ascii_hexdigit() && !c.is_ascii_uppercase()));
        assert_eq!(w.public_key.len(), 66);
        assert!(w.public_key.chars().all(|c| c.is_ascii_hexdigit() && !c.is_ascii_uppercase()));
        assert!(w.public_key.starts_with("02") || w.public_key.starts_with("03"));
    }
}

#[test]
fn zero_count_yields_empty_sequence() {
    let wallets = derive_child_wallets(VECTOR_PHRASE, 0).unwrap();
    assert!(wallets.is_empty());
}

#[test]
fn empty_input_hash_vectors() {
    assert_eq!(
        hex::encode(sha256(b"")),
        "e3b0c44298fc1c149afbf4c8996fb92427ae41e4649b934ca495991b7852b855"
    );
    assert_eq!(
        hex::encode(keccak256(b"")),
        "c5d2460186f7233c927e7db2dcc703c0e500b653ca82273b7bfad8045d85a470"
    );
}

#[test]
fn invalid_phrase_gives_invalid_mnemonic_error() {
    assert_eq!(mnemonic_to_seed("nonsense").unwrap_err(), WalletError::InvalidMnemonic);
    assert_eq!(derive_parent_wallet("nonsense").unwrap_err(), WalletError::InvalidMnemonic);
    assert_eq!(derive_child_wallets("nonsense", 3).unwrap_err(), WalletError::InvalidMnemonic);
    assert_eq!(create_split_operation("nonsense").unwrap_err(), WalletError::InvalidMnemonic);
}

#[test]
fn parse_path_accepts_fixed_template() {
    let p = parse_path("m/44'/60'/0'/0/7").unwrap();
    assert_eq!(p.len(), 5);
    assert_eq!((p[0].index, p[0].hardened), (44, true));
    assert_eq!((p[1].index, p[1].hardened), (60, true));
    assert_eq!((p[2].index, p[2].hardened), (0, true));
    assert_eq!((p[3].index, p[3].hardened), (0, false));
    assert_eq!((p[4].index, p[4].hardened), (7, false));
    assert!(parse_path("m").unwrap().is_empty());
}

#[test]
fn malformed_path_gives_invalid_path_error() {
    assert_eq!(parse_path("").unwrap_err(), WalletError::InvalidPath);
    assert_eq!(parse_path("44'/60'").unwrap_err(), WalletError::InvalidPath);
    assert_eq!(parse_path("m/44x").unwrap_err(), WalletError::InvalidPath);
    assert_eq!(parse_path("m/").unwrap_err(), WalletError::InvalidPath);
    assert_eq!(parse_path("m/2147483648").unwrap_err(), WalletError::InvalidPath);
}

#[test]
fn string_path_walk_matches_child_derivation() {
    let seed = mnemonic_to_seed(VECTOR_PHRASE).unwrap();
    let master = master_key(&seed).unwrap();
    let child = hdwallet_split::path::derive_path_str(&master, "m/44'/60'/0'/0/0").unwrap();
    let parent = derive_parent_wallet(VECTOR_PHRASE).unwrap();
    assert_eq!(hex::encode(&child.key), parent.private_key);
    let bad = hdwallet_split::path::derive_path_str(&master, "m/oops");
    assert_eq!(bad.unwrap_err(), WalletError::InvalidPath);
}

#[test]
fn derivation_agrees_with_reference_implementation() {
    let seed = mnemonic_to_seed(VECTOR_PHRASE).unwrap();
    let reference_master = hdwallet::ExtendedPrivKey::with_seed(&seed).unwrap();
    let own_master = master_key(&seed).unwrap();
    assert_eq!(own_master.key, reference_master.private_key.secret_bytes().to_vec());
    assert_eq!(own_master.chain_code, reference_master.chain_code);
    let chain = DefaultKeyChain::new(reference_master);
    let wallets = derive_child_wallets(VECTOR_PHRASE, 4).unwrap();
    for i in 0..4 {
        let path = format!("m/44'/60'/0'/0/{}", i);
        let (reference_child, _) = chain.derive_private_key(ChainPath::from(path)).unwrap();
        assert_eq!(
            wallets[i].private_key,
            hex::encode(reference_child.private_key.secret_bytes())
        );
    }
}
