//! Encoding primitives: hex text, digests, Base58, and the canonical
//! transaction bytes.

use data_encoding::HEXLOWER;

use himalia::hex::{hex_decode, hex_encode};
use himalia::transactions::Transaction;
use himalia::{base58_decode, base58_encode, ripemd160_digest, sha256_digest};

#[test]
fn hex_encode_matches_reference_codec() {
    let samples: Vec<Vec<u8>> = vec![
        vec![],
        vec![0x00],
        vec![0xff],
        vec![0xde, 0xad, 0xbe, 0xef],
        (0u8..=255).collect(),
    ];
    for s in &samples {
        assert_eq!(hex_encode(s.as_slice()), HEXLOWER.encode(s.as_slice()));
    }
}

#[test]
fn hex_round_trip() {
    let data = vec![0u8, 1, 2, 3, 0x7f, 0x80, 0xfe, 0xff];
    let text = hex_encode(data.as_slice());
    assert_eq!(hex_decode(text.as_str()), Some(data));
}

#[test]
fn hex_decode_rejects_bad_text() {
    assert_eq!(hex_decode("zz"), None);
    assert_eq!(hex_decode("abc"), None);
    assert_eq!(hex_decode("0g"), None);
    assert_eq!(hex_decode(""), Some(vec![]));
}

#[test]
fn sha256_empty_input_known_digest() {
    let digest = sha256_digest(&[]);
    assert_eq!(
        hex_encode(digest.as_slice()),
        "e3b0c44298fc1c149afbf4c8996fb92427ae41e4649b934ca495991b7852b855"
    );
}

#[test]
fn ripemd160_empty_input_known_digest() {
    let digest = ripemd160_digest(&[]);
    assert_eq!(
        hex_encode(digest.as_slice()),
        "9c1185a5c5e9fc54612808977ee8f548b2258d31"
    );
}

#[test]
fn base58_known_vector_and_round_trip() {
    assert_eq!(base58_encode(&[0x61]), "2g");
    let data = vec![0u8, 0, 1, 2, 3, 250];
    let text = base58_encode(data.as_slice());
    assert_eq!(base58_decode(text.as_str()), Some(data));
    assert_eq!(base58_decode("0OIl"), None);
}

#[test]
fn transaction_round_trip() {
    let wallet = himalia::wallet::Wallet::new().expect("key generation");
    let address = wallet.get_address();
    let tx = Transaction::new_coinbase_tx_checked(address.as_str()).expect("valid address");
    let bytes = tx.serialize();
    let back = Transaction::deserialize(bytes.as_slice()).expect("canonical bytes");
    assert_eq!(back.get_id(), tx.get_id());
    assert_eq!(back.serialize(), bytes);
    assert!(back.is_coinbase());
    assert_eq!(back.get_vout().len(), 1);
    assert_eq!(back.get_vout()[0].get_value(), 10);
}

#[test]
fn transaction_deserialize_rejects_truncated_bytes() {
    let wallet = himalia::wallet::Wallet::new().expect("key generation");
    let tx = Transaction::new_coinbase_tx_checked(wallet.get_address().as_str()).unwrap();
    let mut bytes = tx.serialize();
    bytes.pop();
    assert!(Transaction::deserialize(bytes.as_slice()).is_none());
}

#[test]
fn coinbase_id_is_digest_of_cleared_serialization() {
    let wallet = himalia::wallet::Wallet::new().expect("key generation");
    let tx = Transaction::new_coinbase_tx_checked(wallet.get_address().as_str()).unwrap();
    // The id must be what rehashing the transaction yields, and coinbase
    // ids must differ run to run thanks to the random input tag.
    assert_eq!(tx.hash(), tx.get_id_bytes());
    let tx2 = Transaction::new_coinbase_tx_checked(wallet.get_address().as_str()).unwrap();
    assert_ne!(tx.get_id_bytes(), tx2.get_id_bytes());
}
