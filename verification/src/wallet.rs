//! Wallets and addresses.
//!
//! An address is the Base58 text of `version byte ‖ RIPEMD160(SHA256(pk))
//! ‖ checksum`, where the checksum is the first four bytes of the double
//! SHA-256 of what precedes it.

use vstd::prelude::*;
use vstd::slice::slice_subrange;

use crate::codec::bytes_eq;
use crate::utils::{
    base58_dec, base58_decode, base58_enc, base58_encode, ecdsa_pub_key_of, ecdsa_public_key,
    new_key_pair, ripemd160_digest, ripemd160_of, sha256_digest, sha256_of,
};

verus! {

pub const VERSION: u8 = 0x00;

pub const ADDRESS_CHECK_SUM_LEN: usize = 4;

/// RIPEMD-160 of SHA-256: the hash that locks outputs to a key.
pub open spec fn spec_hash_pub_key(pub_key: Seq<u8>) -> Seq<u8> {
    ripemd160_of(sha256_of(pub_key))
}

/// First four bytes of the double SHA-256 of the payload.
pub open spec fn spec_checksum(payload: Seq<u8>) -> Seq<u8> {
    sha256_of(sha256_of(payload)).take(ADDRESS_CHECK_SUM_LEN as int)
}

/// The address that carries the given versioned payload.
pub open spec fn spec_address_of_payload(payload: Seq<u8>) -> Seq<char> {
    base58_enc(payload + spec_checksum(payload))
}

/// The address that pays to the given public-key hash.
pub open spec fn spec_address_of_pkh(pub_key_hash: Seq<u8>) -> Seq<char> {
    spec_address_of_payload(seq![VERSION] + pub_key_hash)
}

/// The address that belongs to a public key.
pub open spec fn spec_address_of_pk(pub_key: Seq<u8>) -> Seq<char> {
    spec_address_of_pkh(spec_hash_pub_key(pub_key))
}

/// Whether a string decodes to a payload long enough to carry a version
/// byte and a checksum. Constructors that lock an output to an address
/// ask for this.
pub open spec fn spec_addr_decodable(addr: Seq<char>) -> bool {
    match base58_dec(addr) {
        Some(p) => p.len() > ADDRESS_CHECK_SUM_LEN,
        None => false,
    }
}

/// The public-key hash inside an address: the decoded payload with the
/// version byte and the checksum stripped.
pub open spec fn spec_pkh_of_addr(addr: Seq<char>) -> Seq<u8> {
    match base58_dec(addr) {
        Some(p) => p.subrange(1, p.len() - ADDRESS_CHECK_SUM_LEN),
        None => Seq::empty(),
    }
}

/// Whether an address is well formed: it decodes, and its trailing
/// checksum matches the one recomputed over the rest.
pub open spec fn spec_validate_address(addr: Seq<char>) -> bool {
    match base58_dec(addr) {
        Some(p) => p.len() > ADDRESS_CHECK_SUM_LEN && p.subrange(
            p.len() - ADDRESS_CHECK_SUM_LEN,
            p.len() as int,
        ) == spec_checksum(p.subrange(0, p.len() - ADDRESS_CHECK_SUM_LEN)),
        None => false,
    }
}

/// Hashes a public key with SHA-256 and then RIPEMD-160.
pub fn hash_pub_key(pub_key: &[u8]) -> (r: Vec<u8>)
    ensures
        r@ == spec_hash_pub_key(pub_key@),
        r@.len() == 20,
{
    let pub_key_sha256 = sha256_digest(pub_key);
    ripemd160_digest(pub_key_sha256.as_slice())
}

/// The first four bytes of the double SHA-256 of the payload.
pub fn checksum(payload: &[u8]) -> (r: Vec<u8>)
    ensures
        r@ == spec_checksum(payload@),
        r@.len() == ADDRESS_CHECK_SUM_LEN,
{
    let first_sha = sha256_digest(payload);
    let mut second_sha = sha256_digest(first_sha.as_slice());
    second_sha.truncate(ADDRESS_CHECK_SUM_LEN);
    proof {
        assert(second_sha@ =~= spec_checksum(payload@));
    }
    second_sha
}

/// Checks an address: decode, split off the checksum, recompute it over
/// the versioned hash, and compare.
pub fn validate_address(address: &str) -> (r: bool)
    ensures
        r == spec_validate_address(address@),
{
    let payload = match base58_decode(address) {
        Some(p) => p,
        None => {
            return false;
        },
    };
    if payload.len() <= ADDRESS_CHECK_SUM_LEN {
        return false;
    }
    let cut = payload.len() - ADDRESS_CHECK_SUM_LEN;
    let actual_checksum = slice_subrange(payload.as_slice(), cut, payload.len());
    let target_vec = slice_subrange(payload.as_slice(), 0, cut);
    let target_checksum = checksum(target_vec);
    bytes_eq(actual_checksum, target_checksum.as_slice())
}

/// Builds the address that pays to the given public-key hash. Every
/// address built this way passes validation: the round trip holds for
/// all key hashes.
pub fn convert_address(pub_hash_key: &[u8]) -> (r: String)
    ensures
        r@ == spec_address_of_pkh(pub_hash_key@),
        spec_validate_address(r@),
        spec_addr_decodable(r@),
        spec_pkh_of_addr(r@) == pub_hash_key@,
        base58_dec(r@) == Some(
            seq![VERSION] + pub_hash_key@ + spec_checksum(seq![VERSION] + pub_hash_key@),
        ),
{
    let mut payload: Vec<u8> = Vec::new();
    payload.push(VERSION);
    payload.extend_from_slice(pub_hash_key);
    let ghost versioned = payload@;
    let cs = checksum(payload.as_slice());
    payload.extend_from_slice(cs.as_slice());
    proof {
        assert(versioned =~= seq![VERSION] + pub_hash_key@);
        assert(payload@ =~= versioned + spec_checksum(versioned));
    }
    let r = base58_encode(payload.as_slice());
    proof {
        let full = payload@;
        assert(full.subrange(full.len() - ADDRESS_CHECK_SUM_LEN, full.len() as int)
            =~= spec_checksum(versioned));
        assert(full.subrange(0, full.len() - ADDRESS_CHECK_SUM_LEN) =~= versioned);
        assert(spec_pkh_of_addr(r@) =~= pub_hash_key@);
    }
    r
}

/// A key pair: the PKCS#8 document and the public key that the document
/// determines.
pub struct Wallet {
    pkcs8: Vec<u8>,
    public_key: Vec<u8>,
}

impl Wallet {
    /// The public key bytes this wallet holds.
    pub closed spec fn spec_pk(&self) -> Seq<u8> {
        self.public_key@
    }

    /// The PKCS#8 key document this wallet holds.
    pub closed spec fn spec_pkcs8(&self) -> Seq<u8> {
        self.pkcs8@
    }

    /// The stored public key is the one the key document yields.
    #[verifier::type_invariant]
    pub closed spec fn wf(self) -> bool {
        self.public_key@ == ecdsa_pub_key_of(self.pkcs8@)
    }

    /// Generates a fresh key pair; `None` only when the key generator
    /// fails.
    pub fn new() -> (r: Option<Wallet>) {
        let pkcs8 = match new_key_pair() {
            Some(p) => p,
            None => {
                return None;
            },
        };
        let public_key = match ecdsa_public_key(pkcs8.as_slice()) {
            Some(p) => p,
            None => {
                return None;
            },
        };
        Some(Wallet { pkcs8, public_key })
    }

    /// Rebuilds a wallet from stored parts, re-deriving the public key
    /// from the document; `None` when the parts do not belong together.
    pub fn from_parts(pkcs8: Vec<u8>, public_key: Vec<u8>) -> (r: Option<Wallet>)
        ensures
            (r matches Some(w) ==> w.spec_pk() == public_key@ && w.spec_pkcs8() == pkcs8@),
    {
        let derived = match ecdsa_public_key(pkcs8.as_slice()) {
            Some(p) => p,
            None => {
                return None;
            },
        };
        if bytes_eq(derived.as_slice(), public_key.as_slice()) {
            Some(Wallet { pkcs8, public_key })
        } else {
            None
        }
    }

    /// The address of this wallet's public key. It always validates.
    pub fn get_address(&self) -> (r: String)
        ensures
            r@ == spec_address_of_pk(self.spec_pk()),
            spec_validate_address(r@),
            spec_pkh_of_addr(r@) == spec_hash_pub_key(self.spec_pk()),
            base58_dec(r@) == Some(
                seq![VERSION] + spec_hash_pub_key(self.spec_pk()) + spec_checksum(
                    seq![VERSION] + spec_hash_pub_key(self.spec_pk()),
                ),
            ),
    {
        let pub_key_hash = hash_pub_key(self.public_key.as_slice());
        convert_address(pub_key_hash.as_slice())
    }

    /// Restates, for callers, that the stored public key is the one the
    /// key document yields.
    pub fn key_facts(&self)
        ensures
            self.spec_pk() == ecdsa_pub_key_of(self.spec_pkcs8()),
    {
        proof {
            use_type_invariant(self);
        }
    }

    pub fn get_public_key(&self) -> (r: &[u8])
        ensures
            r@ == self.spec_pk(),
    {
        self.public_key.as_slice()
    }

    pub fn get_pksc8(&self) -> (r: &[u8])
        ensures
            r@ == self.spec_pkcs8(),
    {
        self.pkcs8.as_slice()
    }

}

impl Clone for Wallet {
    fn clone(&self) -> (r: Self)
        ensures
            r.spec_pk() == self.spec_pk(),
            r.spec_pkcs8() == self.spec_pkcs8(),
    {
        proof {
            use_type_invariant(self);
        }
        Wallet { pkcs8: self.pkcs8.clone(), public_key: self.public_key.clone() }
    }
}

} // verus!
