//! Wallets and addresses: construction, validation, and the round trip
//! from key to address and back.

use himalia::wallet::{
    checksum, convert_address, hash_pub_key, validate_address, Wallet, ADDRESS_CHECK_SUM_LEN,
};
use himalia::wallets::Wallets;
use himalia::{base58_decode, ecdsa_p256_sha256_sign_digest, ecdsa_p256_sha256_sign_verify};

#[test]
fn fresh_wallet_address_validates() {
    let wallet = Wallet::new().expect("key generation");
    let address = wallet.get_address();
    assert!(validate_address(address.as_str()));
}

#[test]
fn address_decodes_to_version_hash_checksum() {
    let wallet = Wallet::new().expect("key generation");
    let address = wallet.get_address();
    let payload = base58_decode(address.as_str()).expect("address is base58");
    let hash = hash_pub_key(wallet.get_public_key());
    assert_eq!(payload.len(), 1 + 20 + ADDRESS_CHECK_SUM_LEN);
    assert_eq!(payload[0], 0x00);
    assert_eq!(&payload[1..21], hash.as_slice());
    let cs = checksum(&payload[0..21]);
    assert_eq!(&payload[21..25], cs.as_slice());
}

#[test]
fn tampered_address_fails_validation() {
    let wallet = Wallet::new().expect("key generation");
    let address = wallet.get_address();
    let mut chars: Vec<char> = address.chars().collect();
    let first_char = chars[0];
    chars[0] = if first_char == '2' { '3' } else { '2' };
    let tampered: String = chars.into_iter().collect();
    assert!(!validate_address(tampered.as_str()));
}

#[test]
fn invalid_text_fails_validation() {
    assert!(!validate_address(""));
    assert!(!validate_address("0OIl"));
    assert!(!validate_address("2g"));
}

#[test]
fn convert_address_round_trip() {
    let pkh = [7u8; 20];
    let address = convert_address(&pkh);
    assert!(validate_address(address.as_str()));
    let payload = base58_decode(address.as_str()).unwrap();
    assert_eq!(&payload[1..21], &pkh);
}

#[test]
fn checksum_is_four_bytes() {
    assert_eq!(checksum(b"anything").len(), ADDRESS_CHECK_SUM_LEN);
}

#[test]
fn signing_verifies_and_tampering_fails() {
    let wallet = Wallet::new().expect("key generation");
    let message = b"a signing message";
    let sig = ecdsa_p256_sha256_sign_digest(wallet.get_pksc8(), message).expect("signing");
    assert!(ecdsa_p256_sha256_sign_verify(
        wallet.get_public_key(),
        sig.as_slice(),
        message
    ));
    let mut bad = sig.clone();
    bad[0] ^= 1;
    assert!(!ecdsa_p256_sha256_sign_verify(
        wallet.get_public_key(),
        bad.as_slice(),
        message
    ));
}

#[test]
fn wallet_registry_holds_created_wallets() {
    let mut wallets = Wallets::new();
    let a1 = wallets.create_wallet().expect("key generation");
    let a2 = wallets.create_wallet().expect("key generation");
    assert_ne!(a1, a2);
    assert_eq!(wallets.len(), 2);
    let addresses = wallets.get_addresses();
    assert!(addresses.contains(&a1));
    assert!(addresses.contains(&a2));
    let w = wallets.get_wallet(a1.as_str()).expect("registered");
    assert_eq!(w.get_address(), a1);
    assert!(wallets.get_wallet("unknown").is_none());
}

#[test]
fn wallet_from_parts_checks_key_ownership() {
    let wallet = Wallet::new().expect("key generation");
    let rebuilt = Wallet::from_parts(
        wallet.get_pksc8().to_vec(),
        wallet.get_public_key().to_vec(),
    );
    assert!(rebuilt.is_some());
    let other = Wallet::new().expect("key generation");
    let mismatched = Wallet::from_parts(
        wallet.get_pksc8().to_vec(),
        other.get_public_key().to_vec(),
    );
    assert!(mismatched.is_none());
}
