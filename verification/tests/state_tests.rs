//! The in-memory state holders: mempool, blocks in transit, peers and
//! configuration, plus the decode error on bad wire bytes.

use himalia::blockchain::ChainError;
use himalia::config::Config;
use himalia::hex::hex_encode;
use himalia::memory_pool::{BlockInTransit, MemoryPool};
use himalia::node::Nodes;
use himalia::server::{NodeState, Package};
use himalia::transactions::Transaction;
use himalia::utxo_set::UtxoError;
use himalia::wallet::Wallet;

#[test]
fn mempool_keys_by_hex_id_and_overwrites() {
    let wallet = Wallet::new().expect("key generation");
    let address = wallet.get_address();
    let tx = Transaction::new_coinbase_tx_checked(address.as_str()).unwrap();
    let key = hex_encode(tx.get_id());

    let mut pool = MemoryPool::new();
    assert!(pool.is_empty());
    assert!(!pool.contains(key.as_str()));
    pool.add(tx.clone());
    assert!(pool.contains(key.as_str()));
    assert_eq!(pool.len(), 1);
    pool.add(tx.clone());
    assert_eq!(pool.len(), 1, "re-adding the same id overwrites");
    let held = pool.get(key.as_str()).expect("held");
    assert_eq!(held.get_id(), tx.get_id());
    assert_eq!(pool.get_all().len(), 1);
    pool.remove(key.as_str());
    assert!(!pool.contains(key.as_str()));
    assert!(pool.is_empty());
}

#[test]
fn blocks_in_transit_keep_arrival_order() {
    let mut bit = BlockInTransit::new();
    assert!(bit.is_empty());
    assert!(bit.first().is_none());
    bit.add_blocks(&[vec![1u8], vec![2u8], vec![1u8]]);
    assert_eq!(bit.len(), 3);
    assert_eq!(bit.first(), Some(vec![1u8]));
    bit.remove(&[1u8]);
    assert_eq!(bit.len(), 2, "only the first equal hash leaves");
    assert_eq!(bit.first(), Some(vec![2u8]));
    bit.remove(&[9u8]);
    assert_eq!(bit.len(), 2, "removing an unknown hash changes nothing");
    bit.clear();
    assert!(bit.is_empty());
}

#[test]
fn peers_are_held_once_in_insertion_order() {
    let mut nodes = Nodes::new();
    nodes.add_node(String::from("a:1"));
    nodes.add_node(String::from("b:2"));
    nodes.add_node(String::from("a:1"));
    assert_eq!(nodes.len(), 2);
    assert!(nodes.node_is_known("a:1"));
    assert!(!nodes.node_is_known("c:3"));
    assert_eq!(nodes.first().unwrap().get_addr(), "a:1");
    let listed: Vec<String> = nodes.get_nodes().iter().map(|n| n.get_addr()).collect();
    assert_eq!(listed, vec![String::from("a:1"), String::from("b:2")]);
    nodes.evict_node("a:1");
    assert!(!nodes.node_is_known("a:1"));
    assert_eq!(nodes.len(), 1);
}

#[test]
fn config_carries_the_mining_address() {
    let mut config = Config::new(String::from("127.0.0.1:2001"));
    assert_eq!(config.get_node_addr(), "127.0.0.1:2001");
    assert!(!config.is_miner());
    assert!(config.get_mining_addr().is_none());
    config.set_mining_addr(String::from("somewhere"));
    assert!(config.is_miner());
    assert_eq!(config.get_mining_addr(), Some(String::from("somewhere")));
}

#[test]
fn garbled_wire_bytes_are_refused() {
    let wallet = Wallet::new().expect("key generation");
    let founder = wallet.get_address();
    let blockchain = himalia::blockchain::Blockchain::create(founder.as_str()).expect("genesis");
    let chainstate = blockchain.find_utxo();
    let mut state = NodeState {
        blockchain,
        chainstate,
        mempool: MemoryPool::new(),
        in_transit: BlockInTransit::new(),
        nodes: Nodes::new(),
        config: Config::new(String::from("127.0.0.1:2005")),
    };
    let bad = state.handle_package(
        "127.0.0.1:9000",
        Package::Block { addr_from: String::from("127.0.0.1:9000"), block: vec![1, 2, 3] },
    );
    match bad {
        Err(ChainError::Decode) => {}
        _ => panic!("garbled block bytes must be refused"),
    }
    let bad_tx = state.handle_package(
        "127.0.0.1:9000",
        Package::Tx { addr_from: String::from("127.0.0.1:9000"), transaction: vec![] },
    );
    match bad_tx {
        Err(ChainError::Decode) => {}
        _ => panic!("garbled transaction bytes must be refused"),
    }
}

#[test]
fn transfer_to_an_undecodable_address_is_refused() {
    let wallet = Wallet::new().expect("key generation");
    let blockchain = himalia::blockchain::Blockchain::create(wallet.get_address().as_str())
        .expect("genesis");
    let mut utxo_set = himalia::utxo_set::UTXOSet::new(blockchain);
    utxo_set.reindex();
    match Transaction::new_utxo_transaction(&wallet, "0OIl", 1, &utxo_set) {
        Err(UtxoError::InvalidAddress) => {}
        _ => panic!("an undecodable recipient must be refused"),
    }
}

#[test]
fn unverifiable_transaction_from_the_network_is_not_pooled() {
    let wallet_a = Wallet::new().expect("key generation");
    let wallet_b = Wallet::new().expect("key generation");
    let addr_a = wallet_a.get_address();

    let blockchain = himalia::blockchain::Blockchain::create(addr_a.as_str()).expect("genesis");
    let mut utxo_set = himalia::utxo_set::UTXOSet::new(blockchain);
    utxo_set.reindex();
    let tx = Transaction::new_utxo_transaction(&wallet_a, wallet_b.get_address().as_str(), 3, &utxo_set)
        .expect("spendable");

    // Break the signature inside the canonical bytes.
    let signature = tx.get_vin()[0].get_signature().to_vec();
    let mut bytes = tx.serialize();
    let pos = bytes
        .windows(signature.len())
        .position(|w| w == signature.as_slice())
        .expect("signature bytes are embedded");
    bytes[pos] ^= 1;
    let key = hex_encode(tx.get_id());

    let mut state = NodeState {
        blockchain: utxo_set.blockchain,
        chainstate: Vec::new(),
        mempool: MemoryPool::new(),
        in_transit: BlockInTransit::new(),
        nodes: Nodes::new(),
        config: Config::new(String::from("127.0.0.1:2006")),
    };
    let acts = state
        .handle_package(
            "127.0.0.1:9000",
            Package::Tx { addr_from: String::from("127.0.0.1:9000"), transaction: bytes },
        )
        .expect("a bad transaction is dropped, not an error");
    assert!(acts.is_empty());
    assert!(!state.mempool.contains(key.as_str()));
    assert!(state.mempool.is_empty());
}
