//! A minimal UTXO-model blockchain node library.
//!
//! The library holds the verified core: the block and transaction data
//! model with proof-of-work and ECDSA signing, the blockchain store with
//! its derived index of unspent outputs, the mempool and in-transit block
//! tracking, and the decision logic of the peer-to-peer protocol.
//! Disk, network and clock access stay outside; callers hand the library
//! plain values and carry its answers back out.

pub mod block;
pub mod blockchain;
pub mod codec;
pub mod config;
pub mod hex;
pub mod memory_pool;
pub mod node;
pub mod proof_of_work;
pub mod server;
pub mod transactions;
pub mod utils;
pub mod utxo_set;
pub mod wallet;
pub mod wallets;

pub use utils::{base58_decode, base58_encode, current_timestamp, ripemd160_digest, sha256_digest};
pub use utils::{ecdsa_p256_sha256_sign_digest, ecdsa_p256_sha256_sign_verify, new_key_pair};
