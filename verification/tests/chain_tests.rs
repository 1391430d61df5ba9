//! End-to-end chain flows: create, balance, send with local mining,
//! reindex, double spends, tampered signatures, and chain integrity.

use himalia::blockchain::{Blockchain, ChainError};
use himalia::block::Block;
use himalia::proof_of_work::ProofOfWork;
use himalia::hex::hex_decode;
use himalia::sha256_digest;
use himalia::transactions::{Transaction, TXOutput};
use himalia::utxo_set::{UtxoError, UTXOSet};
use himalia::wallet::{hash_pub_key, Wallet};

fn balance_of(utxo_set: &UTXOSet, wallet: &Wallet) -> i64 {
    let pkh = hash_pub_key(wallet.get_public_key());
    let outs: Vec<TXOutput> = utxo_set.find_utxo(pkh.as_slice());
    outs.iter().map(|o| o.get_value() as i64).sum()
}

#[test]
fn create_then_balance_pays_the_subsidy() {
    let wallet = Wallet::new().expect("key generation");
    let address = wallet.get_address();
    let blockchain = Blockchain::create(address.as_str()).expect("genesis");
    assert_eq!(blockchain.get_best_height(), 0);
    let mut utxo_set = UTXOSet::new(blockchain);
    utxo_set.reindex();
    assert_eq!(balance_of(&utxo_set, &wallet), 10);
    assert_eq!(utxo_set.count_transactions(), 1);
}

#[test]
fn create_rejects_invalid_address() {
    match Blockchain::create("not-an-address") {
        Err(ChainError::InvalidAddress) => {}
        _ => panic!("an undecodable address must be refused"),
    }
}

#[test]
fn send_and_mine_locally_moves_value() {
    let wallet_a = Wallet::new().expect("key generation");
    let wallet_b = Wallet::new().expect("key generation");
    let addr_a = wallet_a.get_address();
    let addr_b = wallet_b.get_address();

    let blockchain = Blockchain::create(addr_a.as_str()).expect("genesis");
    let mut utxo_set = UTXOSet::new(blockchain);
    utxo_set.reindex();
    assert!(utxo_set.check_nonneg());

    let tx = Transaction::new_utxo_transaction(&wallet_a, addr_b.as_str(), 3, &utxo_set)
        .expect("spendable");
    let coinbase = Transaction::new_coinbase_tx_checked(addr_a.as_str()).unwrap();
    let block = utxo_set
        .blockchain
        .mine_block(&[tx, coinbase])
        .expect("both transactions verify");
    utxo_set.update(&block);

    // 10 - 3 change plus the fresh 10 subsidy on one side, 3 on the other.
    assert_eq!(balance_of(&utxo_set, &wallet_a), 17);
    assert_eq!(balance_of(&utxo_set, &wallet_b), 3);
    assert_eq!(utxo_set.blockchain.get_best_height(), 1);

    // Reindexing from scratch reproduces the same balances.
    let before_a = balance_of(&utxo_set, &wallet_a);
    let before_b = balance_of(&utxo_set, &wallet_b);
    utxo_set.reindex();
    assert_eq!(balance_of(&utxo_set, &wallet_a), before_a);
    assert_eq!(balance_of(&utxo_set, &wallet_b), before_b);
}

#[test]
fn insufficient_funds_is_refused() {
    let wallet_a = Wallet::new().expect("key generation");
    let wallet_b = Wallet::new().expect("key generation");
    let blockchain = Blockchain::create(wallet_a.get_address().as_str()).expect("genesis");
    let mut utxo_set = UTXOSet::new(blockchain);
    utxo_set.reindex();
    match Transaction::new_utxo_transaction(&wallet_a, wallet_b.get_address().as_str(), 11, &utxo_set)
    {
        Err(UtxoError::InsufficientFunds) => {}
        _ => panic!("the pot holds only the 10 of the genesis subsidy"),
    }
}

#[test]
fn double_spend_is_rejected_after_mining() {
    let wallet_a = Wallet::new().expect("key generation");
    let wallet_b = Wallet::new().expect("key generation");
    let addr_a = wallet_a.get_address();
    let addr_b = wallet_b.get_address();

    let blockchain = Blockchain::create(addr_a.as_str()).expect("genesis");
    let mut utxo_set = UTXOSet::new(blockchain);
    utxo_set.reindex();

    // Both spends are built over the same index snapshot, so they both
    // name the one genesis output.
    let tx1 = Transaction::new_utxo_transaction(&wallet_a, addr_b.as_str(), 10, &utxo_set)
        .expect("first spend");
    let coinbase = Transaction::new_coinbase_tx_checked(addr_a.as_str()).unwrap();
    let block = utxo_set
        .blockchain
        .mine_block(&[tx1, coinbase])
        .expect("first spend verifies");
    utxo_set.update(&block);

    // After the first spend is mined and applied, the same output is
    // gone: the second spend of it cannot even be assembled.
    match Transaction::new_utxo_transaction(&wallet_a, addr_b.as_str(), 20, &utxo_set) {
        Err(UtxoError::InsufficientFunds) => {}
        _ => panic!("the consumed output must not be spendable again"),
    }
}

#[test]
fn tampered_signature_fails_verification_and_mining() {
    let wallet_a = Wallet::new().expect("key generation");
    let wallet_b = Wallet::new().expect("key generation");
    let addr_a = wallet_a.get_address();

    let blockchain = Blockchain::create(addr_a.as_str()).expect("genesis");
    let mut utxo_set = UTXOSet::new(blockchain);
    utxo_set.reindex();
    let tx = Transaction::new_utxo_transaction(&wallet_a, wallet_b.get_address().as_str(), 3, &utxo_set)
        .expect("spendable");
    assert!(tx.verify(utxo_set.get_blockchain()));

    // Flip one byte inside the signature and rebuild the transaction
    // from its canonical bytes.
    let signature = tx.get_vin()[0].get_signature().to_vec();
    let mut bytes = tx.serialize();
    let pos = bytes
        .windows(signature.len())
        .position(|w| w == signature.as_slice())
        .expect("signature bytes are embedded");
    bytes[pos] ^= 1;
    let tampered = Transaction::deserialize(bytes.as_slice()).expect("same layout");
    assert!(!tampered.verify(utxo_set.get_blockchain()));

    let coinbase = Transaction::new_coinbase_tx_checked(addr_a.as_str()).unwrap();
    match utxo_set.blockchain.mine_block(&[tampered, coinbase]) {
        Err(ChainError::InvalidTransaction) => {}
        _ => panic!("a tampered transaction must not be mined"),
    }
}

#[test]
fn chain_integrity_and_proof_of_work_hold() {
    let wallet_a = Wallet::new().expect("key generation");
    let wallet_b = Wallet::new().expect("key generation");
    let addr_a = wallet_a.get_address();

    let blockchain = Blockchain::create(addr_a.as_str()).expect("genesis");
    let mut utxo_set = UTXOSet::new(blockchain);
    utxo_set.reindex();
    let tx = Transaction::new_utxo_transaction(&wallet_a, wallet_b.get_address().as_str(), 2, &utxo_set)
        .expect("spendable");
    let coinbase = Transaction::new_coinbase_tx_checked(addr_a.as_str()).unwrap();
    let _ = utxo_set.blockchain.mine_block(&[tx, coinbase]).expect("mines");

    let chain = utxo_set.blockchain.chain_blocks();
    assert_eq!(chain.len(), 2);
    // Walking tip to genesis: linked hashes, descending heights, the
    // genesis parent link, and a solved puzzle on every block.
    for (i, b) in chain.iter().enumerate() {
        if i + 1 < chain.len() {
            assert_eq!(b.get_pre_block_hash(), chain[i + 1].get_hash());
            assert_eq!(b.get_height(), chain[i + 1].get_height() + 1);
        }
        let pow = ProofOfWork::new(b.clone());
        let header = pow.prepare_data(b.get_nonce());
        let digest = sha256_digest(header.as_slice());
        assert_eq!(digest[0], 0, "the digest meets the eight-bit target");
        assert_eq!(hex_decode(b.get_hash()).unwrap(), digest);
    }
    assert_eq!(chain.last().unwrap().get_pre_block_hash(), "None");
    assert_eq!(chain.last().unwrap().get_height(), 0);
}

#[test]
fn best_height_never_moves_down() {
    let wallet_a = Wallet::new().expect("key generation");
    let addr_a = wallet_a.get_address();
    let mut bc1 = Blockchain::create(addr_a.as_str()).expect("genesis one");
    let cb = Transaction::new_coinbase_tx_checked(addr_a.as_str()).unwrap();
    let b1 = bc1.mine_block(&[cb]).expect("height one");
    let cb2 = Transaction::new_coinbase_tx_checked(addr_a.as_str()).unwrap();
    let _b2 = bc1.mine_block(&[cb2]).expect("height two");
    assert_eq!(bc1.get_best_height(), 2);

    // Taking in an older block keeps the tip where it is.
    let mut heights = vec![bc1.get_best_height()];
    bc1.add_block(&b1);
    heights.push(bc1.get_best_height());
    assert!(heights.windows(2).all(|w| w[0] <= w[1]));
    assert_eq!(bc1.get_best_height(), 2);
}

#[test]
fn block_round_trip_through_canonical_bytes() {
    let wallet = Wallet::new().expect("key generation");
    let blockchain = Blockchain::create(wallet.get_address().as_str()).expect("genesis");
    let chain = blockchain.chain_blocks();
    let genesis = &chain[0];
    let bytes = genesis.serialize();
    let back = Block::deserialize(bytes.as_slice()).expect("canonical bytes");
    assert_eq!(back.get_hash(), genesis.get_hash());
    assert_eq!(back.get_pre_block_hash(), genesis.get_pre_block_hash());
    assert_eq!(back.get_height(), genesis.get_height());
    assert_eq!(back.get_timestamp(), genesis.get_timestamp());
    assert_eq!(back.get_nonce(), genesis.get_nonce());
    assert!(genesis.get_timestamp() > 0, "the clock reading is carried");
    assert_eq!(back.serialize(), bytes);
    let mut truncated = bytes.clone();
    truncated.pop();
    assert!(Block::deserialize(truncated.as_slice()).is_none());
}
