//! Proof of work: the header bytes that get hashed, the target, and the
//! mining loop that searches for the first acceptable nonce.
//!
//! A digest meets the target when, read as a big-endian integer, it is
//! strictly below `2^(256 - TARGET_BITS)`. With eight target bits that
//! holds exactly when the leading byte is zero, which keeps mining cheap
//! enough for tests while still being a real search.

use vstd::prelude::*;
use vstd::arithmetic::power::{
    lemma_pow_adds, lemma_pow_multiplies, lemma_pow_positive, pow,
};
use vstd::arithmetic::power2::{lemma_pow2, lemma2_to64, pow2};
use vstd::arithmetic::mul::lemma_mul_inequality;

use crate::block::{Block, BlockV, spec_concat_tx_ids};
use crate::codec::{ascii_bytes, spec_ascii_bytes, spec_i64_to_be_bytes, write_i64_be};
use crate::hex::{hex_encode, lemma_hex_is_ascii, spec_hex_encode, spec_is_hex};
use crate::utils::{sha256_digest, sha256_of};

verus! {

/// Leading zero bits a digest must show.
pub const TARGET_BITS: i64 = 8;

/// Exclusive upper bound of the nonce search.
pub const MAX_NONCE: i64 = i64::MAX;

/// A big-endian reading of bytes as an integer.
pub open spec fn bytes_be_to_int(s: Seq<u8>) -> int
    decreases s.len(),
{
    if s.len() == 0 {
        0
    } else {
        s[0] * pow(256, (s.len() - 1) as nat) + bytes_be_to_int(s.drop_first())
    }
}

/// Whether a 32-byte digest, read big-endian, lies below the target
/// `2^(256 - TARGET_BITS)`.
pub open spec fn spec_pow_target_met(h: Seq<u8>) -> bool {
    h.len() == 32 && bytes_be_to_int(h) < pow2((256 - TARGET_BITS) as nat)
}

/// The header bytes hashed during mining: parent hash text, digest of the
/// member transaction ids, then timestamp, target bits and nonce, each
/// big-endian.
pub open spec fn spec_prepare_data(b: BlockV, nonce: i64) -> Seq<u8> {
    spec_ascii_bytes(b.pre_block_hash) + sha256_of(spec_concat_tx_ids(b.transactions))
        + spec_i64_to_be_bytes(b.timestamp) + spec_i64_to_be_bytes(TARGET_BITS)
        + spec_i64_to_be_bytes(nonce)
}

/// The whole nonce space failed the target for this candidate's header.
pub open spec fn spec_search_exhausted(b: BlockV) -> bool {
    forall|m: i64|
        0 <= m < MAX_NONCE ==> !spec_pow_target_met(
            sha256_of(#[trigger] spec_prepare_data(b, m)),
        )
}

/// The hash and nonce stored in a block are a solved puzzle: hashing the
/// header with the stored nonce gives a digest that meets the target, and
/// the stored hash is its hex text.
pub open spec fn spec_block_pow_ok(b: BlockV) -> bool {
    &&& b.nonce >= 0
    &&& spec_pow_target_met(sha256_of(spec_prepare_data(b, b.nonce)))
    &&& b.hash == spec_hex_encode(sha256_of(spec_prepare_data(b, b.nonce)))
}

/// A big-endian reading never reaches `256^len`.
pub proof fn lemma_bytes_be_bound(s: Seq<u8>)
    ensures
        0 <= bytes_be_to_int(s) < pow(256, s.len()),
    decreases s.len(),
{
    reveal(pow);
    if s.len() == 0 {
        assert(pow(256, 0) == 1);
    } else {
        let p = pow(256, (s.len() - 1) as nat);
        lemma_pow_positive(256, (s.len() - 1) as nat);
        lemma_bytes_be_bound(s.drop_first());
        lemma_mul_inequality(s[0] as int, 255, p);
        assert(pow(256, s.len()) == 256 * p);
        assert(bytes_be_to_int(s) <= 255 * p + bytes_be_to_int(s.drop_first()));
    }
}

/// For a 32-byte digest, lying below `2^248` is the same as having a zero
/// leading byte.
pub proof fn lemma_target_is_leading_zero(s: Seq<u8>)
    requires
        s.len() == 32,
    ensures
        spec_pow_target_met(s) <==> s[0] == 0,
{
    reveal(pow);
    lemma2_to64();
    lemma_pow2((256 - TARGET_BITS) as nat);
    lemma_pow_multiplies(2, 8, 31);
    assert(pow2(8) == pow(2, 8)) by {
        lemma_pow2(8);
    }
    assert(pow(256, 31) == pow(2, 248));
    let p = pow(256, 31);
    lemma_pow_positive(256, 31);
    lemma_bytes_be_bound(s.drop_first());
    if s[0] == 0 {
        assert(bytes_be_to_int(s) == bytes_be_to_int(s.drop_first()));
    } else {
        lemma_mul_inequality(1, s[0] as int, p);
    }
}

/// The mining engine: holds the candidate block whose header is searched.
pub struct ProofOfWork {
    block: Block,
}

impl ProofOfWork {
    /// The candidate this engine works on.
    pub closed spec fn spec_block(&self) -> BlockV {
        self.block@
    }

    pub fn new(block: Block) -> (r: ProofOfWork)
        ensures
            r.spec_block() == block@,
    {
        ProofOfWork { block }
    }

    /// The header bytes for one nonce.
    pub fn prepare_data(&self, nonce: i64) -> (r: Vec<u8>)
        ensures
            r@ == spec_prepare_data(self.spec_block(), nonce),
    {
        let pre_block_hash = self.block.get_pre_block_hash();
        self.block.text_facts();
        proof {
            self.block.lemma_pre_hash_ascii();
        }
        let mut data_bytes = ascii_bytes(pre_block_hash.as_str());
        let mut transactions_hash = self.block.hash_transactions();
        data_bytes.append(&mut transactions_hash);
        write_i64_be(&mut data_bytes, self.block.get_timestamp());
        write_i64_be(&mut data_bytes, TARGET_BITS);
        write_i64_be(&mut data_bytes, nonce);
        proof {
            assert(data_bytes@ =~= spec_prepare_data(self.spec_block(), nonce));
        }
        data_bytes
    }

    /// Walks nonces from zero and accepts the first whose digest meets
    /// the target; `None` only if the whole space is exhausted. On
    /// success, returns that first nonce and the digest's hex text.
    pub fn run(&self) -> (r: Option<(i64, String)>)
        ensures
            (r matches Some(p) ==> {
                let h = sha256_of(spec_prepare_data(self.spec_block(), p.0));
                &&& 0 <= p.0 < MAX_NONCE
                &&& spec_pow_target_met(h)
                &&& p.1@ == spec_hex_encode(h)
                &&& spec_is_hex(p.1@)
                &&& forall|m: i64|
                    0 <= m < p.0 ==> !spec_pow_target_met(
                        sha256_of(spec_prepare_data(self.spec_block(), m)),
                    )
            }),
            r is None ==> spec_search_exhausted(self.spec_block()),
    {
        let mut nonce: i64 = 0;
        while nonce < MAX_NONCE
            invariant
                0 <= nonce,
                forall|m: i64|
                    0 <= m < nonce ==> !spec_pow_target_met(
                        sha256_of(spec_prepare_data(self.spec_block(), m)),
                    ),
            decreases MAX_NONCE - nonce,
        {
            let data = self.prepare_data(nonce);
            let hash = sha256_digest(data.as_slice());
            proof {
                lemma_target_is_leading_zero(hash@);
            }
            if hash[0] == 0 {
                let text = hex_encode(hash.as_slice());
                return Some((nonce, text));
            }
            nonce = nonce + 1;
        }
        None
    }
}

} // verus!
