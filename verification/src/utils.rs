//! Trusted boundary of the library: thin wrappers around the outside
//! cryptographic primitives, together with names for their results.
//!
//! Each wrapper body only makes the outside call and converts its result;
//! the contract states what the outside crate's documentation promises.

use vstd::prelude::*;

use crypto::digest::Digest;
use ring::signature::KeyPair;

verus! {

/// What SHA-256 returns on the given input: a function of the bytes alone.
pub uninterp spec fn sha256_of(data: Seq<u8>) -> Seq<u8>;

/// What RIPEMD-160 returns on the given input: a function of the bytes alone.
pub uninterp spec fn ripemd160_of(data: Seq<u8>) -> Seq<u8>;

/// The Base58 encoding of the given bytes.
pub uninterp spec fn base58_enc(data: Seq<u8>) -> Seq<char>;

/// The Base58 decoding of the given string: `None` when some character is
/// outside the Base58 alphabet.
pub uninterp spec fn base58_dec(s: Seq<char>) -> Option<Seq<u8>>;

/// The public key that belongs to a PKCS#8 ECDSA P-256 key document.
pub uninterp spec fn ecdsa_pub_key_of(pkcs8: Seq<u8>) -> Seq<u8>;

/// Whether the signature verifies against the public key over the message,
/// under ECDSA P-256 with SHA-256 and fixed-length signatures.
pub uninterp spec fn ecdsa_verify(pub_key: Seq<u8>, sig: Seq<u8>, msg: Seq<u8>) -> bool;

/// Relies on ring::digest with SHA256: a 32-byte digest that depends on the
/// input bytes alone.
#[verifier::external_body]
pub fn sha256_digest(data: &[u8]) -> (r: Vec<u8>)
    ensures
        r@ == sha256_of(data@),
        r@.len() == 32,
{
    let mut context = ring::digest::Context::new(&ring::digest::SHA256);
    context.update(data);
    context.finish().as_ref().to_vec()
}

/// Relies on crypto::ripemd160::Ripemd160: a 20-byte digest that depends on
/// the input bytes alone.
#[verifier::external_body]
pub fn ripemd160_digest(data: &[u8]) -> (r: Vec<u8>)
    ensures
        r@ == ripemd160_of(data@),
        r@.len() == 20,
{
    let mut ripemd160 = crypto::ripemd160::Ripemd160::new();
    ripemd160.input(data);
    let mut buf = vec![0u8; ripemd160.output_bytes()];
    ripemd160.result(&mut buf);
    buf
}

/// Relies on bs58::encode: the Base58 text of the bytes; bs58::decode
/// inverts it.
#[verifier::external_body]
pub fn base58_encode(data: &[u8]) -> (r: String)
    ensures
        r@ == base58_enc(data@),
        base58_dec(r@) == Some(data@),
{
    bs58::encode(data).into_string()
}

/// Relies on bs58::decode: recovers the bytes whose Base58 text this is,
/// and fails exactly on strings outside the alphabet.
#[verifier::external_body]
pub fn base58_decode(data: &str) -> (r: Option<Vec<u8>>)
    ensures
        match r {
            Some(v) => base58_dec(data@) == Some(v@),
            None => base58_dec(data@) is None,
        },
{
    bs58::decode(data).into_vec().ok()
}

/// Relies on ring::signature::EcdsaKeyPair::generate_pkcs8 with
/// ECDSA_P256_SHA256_FIXED_SIGNING: a fresh random key document, so nothing
/// is promised of the value.
#[verifier::external_body]
pub fn new_key_pair() -> (r: Option<Vec<u8>>)
{
    let rng = ring::rand::SystemRandom::new();
    let pkcs8 = ring::signature::EcdsaKeyPair::generate_pkcs8(
        &ring::signature::ECDSA_P256_SHA256_FIXED_SIGNING,
        &rng,
    )
    .ok()?;
    Some(pkcs8.as_ref().to_vec())
}

/// Relies on ring::signature::EcdsaKeyPair::from_pkcs8 and
/// ring::signature::KeyPair::public_key: the public key is derived from the
/// key document alone.
#[verifier::external_body]
pub fn ecdsa_public_key(pkcs8: &[u8]) -> (r: Option<Vec<u8>>)
    ensures
        (r matches Some(pk) ==> pk@ == ecdsa_pub_key_of(pkcs8@)),
{
    let key_pair = ring::signature::EcdsaKeyPair::from_pkcs8(
        &ring::signature::ECDSA_P256_SHA256_FIXED_SIGNING,
        pkcs8,
        &ring::rand::SystemRandom::new(),
    )
    .ok()?;
    Some(key_pair.public_key().as_ref().to_vec())
}

/// Relies on ring::signature::EcdsaKeyPair::sign: every signature it
/// produces verifies against the pair's public key over the same message.
/// The signature itself consumes a secure RNG, so only that much is stated.
#[verifier::external_body]
pub fn ecdsa_p256_sha256_sign_digest(pkcs8: &[u8], message: &[u8]) -> (r: Option<Vec<u8>>)
    ensures
        (r matches Some(sig) ==> ecdsa_verify(ecdsa_pub_key_of(pkcs8@), sig@, message@)),
{
    let key_pair = ring::signature::EcdsaKeyPair::from_pkcs8(
        &ring::signature::ECDSA_P256_SHA256_FIXED_SIGNING,
        pkcs8,
        &ring::rand::SystemRandom::new(),
    )
    .ok()?;
    let rng = ring::rand::SystemRandom::new();
    Some(key_pair.sign(&rng, message).ok()?.as_ref().to_vec())
}

/// Relies on ring::signature::UnparsedPublicKey::verify with
/// ECDSA_P256_SHA256_FIXED: deterministic in the three inputs.
#[verifier::external_body]
pub fn ecdsa_p256_sha256_sign_verify(public_key: &[u8], signature: &[u8], message: &[u8]) -> (r:
    bool)
    ensures
        r == ecdsa_verify(public_key@, signature@, message@),
{
    let peer_public_key = ring::signature::UnparsedPublicKey::new(
        &ring::signature::ECDSA_P256_SHA256_FIXED,
        public_key,
    );
    peer_public_key.verify(message, signature).is_ok()
}

/// Relies on uuid::Uuid::new_v4: sixteen random bytes, so only the length
/// is stated.
#[verifier::external_body]
pub(crate) fn uuid_v4_bytes() -> (r: Vec<u8>)
    ensures
        r@.len() == 16,
{
    uuid::Uuid::new_v4().as_bytes().to_vec()
}

/// Relies on std::time::SystemTime::now and duration_since: milliseconds
/// since the Unix epoch, a reading of the clock, so only its sign is stated.
#[verifier::external_body]
pub fn current_timestamp() -> (r: i64)
    ensures
        r >= 0,
{
    match std::time::SystemTime::now().duration_since(std::time::UNIX_EPOCH) {
        Ok(d) => i64::try_from(d.as_millis()).unwrap_or(i64::MAX),
        Err(_) => 0,
    }
}

/// Relies on String::push: appends one character to the string.
#[verifier::external_body]
pub(crate) fn string_push(s: &mut String, c: char)
    ensures
        final(s)@ == old(s)@.push(c),
{
    s.push(c);
}

} // verus!
