//! Protocol flows at the decision level: two nodes exchanging packages
//! until they agree on a tip, and the miner trigger draining the pool.

use himalia::blockchain::Blockchain;
use himalia::config::Config;
use himalia::hex::hex_encode;
use himalia::memory_pool::{BlockInTransit, MemoryPool};
use himalia::node::Nodes;
use himalia::server::{Action, NodeState, Package, CENTRAL_NODE};
use himalia::transactions::Transaction;
use himalia::wallet::Wallet;

fn fresh_state(addr: &str, genesis_address: &str, miner: Option<&str>) -> NodeState {
    let blockchain = Blockchain::create(genesis_address).expect("genesis");
    let chainstate = blockchain.find_utxo();
    let mut config = Config::new(String::from(addr));
    if let Some(m) = miner {
        config.set_mining_addr(String::from(m));
    }
    let mut nodes = Nodes::new();
    nodes.add_node(String::from(CENTRAL_NODE));
    NodeState {
        blockchain,
        chainstate,
        mempool: MemoryPool::new(),
        in_transit: BlockInTransit::new(),
        nodes,
        config,
    }
}

/// Carries every action to its addressee until the exchange dies down.
fn route(x: &mut NodeState, x_addr: &str, y: &mut NodeState, y_addr: &str, start: Vec<Action>) {
    let mut queue: Vec<(String, Action)> = start
        .into_iter()
        .map(|a| (String::from(y_addr), a))
        .collect();
    let mut steps = 0usize;
    while let Some((sender, action)) = queue.pop() {
        steps += 1;
        assert!(steps < 200, "the exchange must settle");
        let produced = if action.target == x_addr {
            x.handle_package(sender.as_str(), action.package)
                .expect("handled")
        } else if action.target == y_addr {
            y.handle_package(sender.as_str(), action.package)
                .expect("handled")
        } else {
            continue;
        };
        let from = action.target.clone();
        for a in produced {
            queue.push((from.clone(), a));
        }
    }
}

#[test]
fn two_nodes_converge_on_the_higher_tip() {
    let wallet = Wallet::new().expect("key generation");
    let founder = wallet.get_address();
    let mut x = fresh_state(CENTRAL_NODE, founder.as_str(), None);
    let y_addr = "127.0.0.1:2002";
    let mut y = fresh_state(y_addr, founder.as_str(), None);

    // Both start from their own genesis; X mines two more blocks.
    let cb1 = Transaction::new_coinbase_tx_checked(founder.as_str()).unwrap();
    x.blockchain.mine_block(&[cb1]).expect("mines");
    let cb2 = Transaction::new_coinbase_tx_checked(founder.as_str()).unwrap();
    x.blockchain.mine_block(&[cb2]).expect("mines");
    assert_eq!(x.blockchain.get_best_height(), 2);
    assert_eq!(y.blockchain.get_best_height(), 0);

    // Y opens with a version handshake, as a starting node does.
    let hello = himalia::server::send_version(
        CENTRAL_NODE,
        y.blockchain.get_best_height(),
        &y.config,
    );
    let first = x
        .handle_package(y_addr, hello.package)
        .expect("handshake handled");
    route(&mut y, y_addr, &mut x, CENTRAL_NODE, first);

    assert_eq!(y.blockchain.get_best_height(), x.blockchain.get_best_height());
    assert_eq!(y.blockchain.get_tip_hash(), x.blockchain.get_tip_hash());
}

#[test]
fn miner_trigger_drains_the_pool_and_advertises() {
    let miner_wallet = Wallet::new().expect("key generation");
    let miner_addr = miner_wallet.get_address();
    let mut m = fresh_state("127.0.0.1:2003", miner_addr.as_str(), Some(miner_addr.as_str()));

    let tx1 = Transaction::new_coinbase_tx_checked(miner_addr.as_str()).unwrap();
    let tx2 = Transaction::new_coinbase_tx_checked(miner_addr.as_str()).unwrap();
    let id1 = hex_encode(tx1.get_id());
    let id2 = hex_encode(tx2.get_id());

    let h0 = m.blockchain.get_best_height();
    let acts1 = m
        .handle_package(
            "127.0.0.1:9000",
            Package::Tx { addr_from: String::from("127.0.0.1:9000"), transaction: tx1.serialize() },
        )
        .expect("first transaction pools");
    assert!(acts1.is_empty(), "below the threshold nothing happens");
    assert!(m.mempool.contains(id1.as_str()));
    assert_eq!(m.blockchain.get_best_height(), h0);

    let acts2 = m
        .handle_package(
            "127.0.0.1:9000",
            Package::Tx { addr_from: String::from("127.0.0.1:9000"), transaction: tx2.serialize() },
        )
        .expect("second transaction triggers mining");

    // The threshold was reached: a block was mined, the pool is clear of
    // its transactions, and the new block is advertised to the one known
    // peer other than the node itself.
    assert_eq!(m.blockchain.get_best_height(), h0 + 1);
    assert!(!m.mempool.contains(id1.as_str()));
    assert!(!m.mempool.contains(id2.as_str()));
    assert_eq!(m.mempool.len(), 0);
    assert_eq!(acts2.len(), 1);
    assert_eq!(acts2[0].target, CENTRAL_NODE);
    match &acts2[0].package {
        Package::Inv { items, .. } => {
            assert_eq!(items.len(), 1);
            assert_eq!(items[0], m.blockchain.chain_blocks()[0].get_hash_bytes());
        }
        _ => panic!("the trigger must advertise the mined block"),
    }

    // The rebuilt index agrees with a fresh full walk of the chain.
    let fresh = m.blockchain.find_utxo();
    assert_eq!(m.chainstate.len(), fresh.len());
    for (k, outs) in m.chainstate.iter() {
        let hit = fresh.iter().find(|(fk, _)| fk == k).expect("same keys");
        assert_eq!(outs.len(), hit.1.len());
        for (a, b) in outs.iter().zip(hit.1.iter()) {
            assert_eq!(a.get_value(), b.get_value());
            assert_eq!(a.get_pub_key_hash(), b.get_pub_key_hash());
        }
    }
}

#[test]
fn get_data_returns_the_stored_block() {
    let wallet = Wallet::new().expect("key generation");
    let founder = wallet.get_address();
    let mut s = fresh_state("127.0.0.1:2004", founder.as_str(), None);
    let tip = s.blockchain.chain_blocks()[0].get_hash_bytes();
    let acts = s
        .handle_package(
            "127.0.0.1:9000",
            Package::GetData {
                addr_from: String::from("127.0.0.1:9000"),
                op_type: himalia::server::OpType::Block,
                id: tip.clone(),
            },
        )
        .expect("handled");
    assert_eq!(acts.len(), 1);
    match &acts[0].package {
        Package::Block { block, .. } => {
            let b = himalia::block::Block::deserialize(block.as_slice()).expect("canonical");
            assert_eq!(b.get_hash_bytes(), tip);
        }
        _ => panic!("a held block must come back"),
    }

    // An unknown hash yields nothing.
    let acts2 = s
        .handle_package(
            "127.0.0.1:9000",
            Package::GetData {
                addr_from: String::from("127.0.0.1:9000"),
                op_type: himalia::server::OpType::Block,
                id: vec![0u8; 64],
            },
        )
        .expect("handled");
    assert!(acts2.is_empty());
}
