//! The peer-to-peer protocol brain: what one received package does to
//! the node's state, and which packages go out in reply.
//!
//! The surrounding program owns the sockets. It decodes a wire package,
//! hands it in here together with the node's state, and then performs
//! the returned actions, each one package to one address. Mining is
//! edge-triggered: a received transaction that lifts the mempool to the
//! threshold makes a mining node build a coinbase, mine a block of the
//! whole pool, rebuild the unspent-output index, and advertise the new
//! block.

use vstd::prelude::*;
use vstd::string::StringExecFns;

use crate::block::{Block, BlockV, spec_ser_block};
use crate::blockchain::{spec_find_block, spec_find_block_bytes, Blockchain, ChainError};
use crate::codec::{spec_ascii_bytes, str_eq};
use crate::config::Config;
use crate::hex::{hex_encode, spec_hex_encode};
use crate::memory_pool::{
    lemma_pool_remove_absent, spec_bit_idx, spec_pool_add, spec_pool_idx, BlockInTransit,
    MemoryPool,
};
use crate::node::Nodes;
use crate::transactions::{spec_is_coinbase, spec_ser_tx, Transaction, TransactionV};
use crate::utxo_set::{spec_find_utxo, UtxoEntries};
use crate::wallet::spec_pkh_of_addr;

verus! {

broadcast use crate::codec::lemma_deep_view_u8;

/// The wire protocol version.
pub const NODE_VERSION: usize = 1;

/// The bootstrap peer every node knows.
pub const CENTRAL_NODE: &'static str = "127.0.0.1:2001";

/// Mempool size at which a mining node builds a block.
pub const TRANSACTION_THRESHOLD: usize = 2;

/// What an inventory or fetch request is about.
#[derive(Clone, Copy, PartialEq, Eq, Structural)]
pub enum OpType {
    Tx,
    Block,
}

/// One wire package of the protocol.
pub enum Package {
    Block { addr_from: String, block: Vec<u8> },
    GetBlocks { addr_from: String },
    GetData { addr_from: String, op_type: OpType, id: Vec<u8> },
    Inv { addr_from: String, op_type: OpType, items: Vec<Vec<u8>> },
    Tx { addr_from: String, transaction: Vec<u8> },
    Version { addr_from: String, version: usize, best_height: usize },
}

/// One package to send to one address.
pub struct Action {
    pub target: String,
    pub package: Package,
}

/// Everything one node carries between packages.
pub struct NodeState {
    pub blockchain: Blockchain,
    pub chainstate: UtxoEntries,
    pub mempool: MemoryPool,
    pub in_transit: BlockInTransit,
    pub nodes: Nodes,
    pub config: Config,
}

// ---------------------------------------------------------------------
// Outbound package builders
// ---------------------------------------------------------------------
/// A fetch request for one item.
pub fn send_get_data(addr: &str, op_type: OpType, id: &[u8], config: &Config) -> (r: Action)
    ensures
        r.target@ == addr@,
        (r.package matches Package::GetData { addr_from, op_type: op, id: rid } && addr_from@
            == config.spec_node_addr() && op == op_type && rid@ == id@),
{
    let mut rid: Vec<u8> = Vec::new();
    rid.extend_from_slice(id);
    proof {
        assert(rid@ =~= id@);
    }
    Action {
        target: String::from_str(addr),
        package: Package::GetData {
            addr_from: config.get_node_addr(),
            op_type,
            id: rid,
        },
    }
}

/// An inventory advertisement.
pub fn send_inv(addr: &str, op_type: OpType, blocks: &[Vec<u8>], config: &Config) -> (r: Action)
    ensures
        r.target@ == addr@,
        (r.package matches Package::Inv { addr_from, op_type: op, items } && addr_from@
            == config.spec_node_addr() && op == op_type && items.deep_view()
            == blocks.deep_view()),
{
    let mut items: Vec<Vec<u8>> = Vec::new();
    let n = blocks.len();
    let mut i: usize = 0;
    while i < n
        invariant
            n == blocks@.len(),
            i <= n,
            items.deep_view() =~= blocks.deep_view().take(i as int),
        decreases n - i,
    {
        let mut h: Vec<u8> = Vec::new();
        h.extend_from_slice(blocks[i].as_slice());
        proof {
            assert(h@ =~= blocks.deep_view()[i as int]);
        }
        let ghost prev = items.deep_view();
        items.push(h);
        proof {
            assert(items.deep_view() =~= prev.push(blocks.deep_view()[i as int]));
            assert(blocks.deep_view().take(i + 1) =~= blocks.deep_view().take(i as int).push(
                blocks.deep_view()[i as int],
            ));
        }
        i = i + 1;
    }
    proof {
        assert(items.deep_view() =~= blocks.deep_view());
    }
    Action {
        target: String::from_str(addr),
        package: Package::Inv { addr_from: config.get_node_addr(), op_type, items },
    }
}

/// A whole block, in canonical bytes.
pub fn send_block(addr: &str, block: &Block, config: &Config) -> (r: Action)
    ensures
        r.target@ == addr@,
        (r.package matches Package::Block { addr_from, block: bytes } && addr_from@
            == config.spec_node_addr() && bytes@ == spec_ser_block(block@)),
{
    Action {
        target: String::from_str(addr),
        package: Package::Block { addr_from: config.get_node_addr(), block: block.serialize() },
    }
}

/// A whole transaction, in canonical bytes.
pub fn send_tx(addr: &str, tx: &Transaction, config: &Config) -> (r: Action)
    ensures
        r.target@ == addr@,
        (r.package matches Package::Tx { addr_from, transaction } && addr_from@
            == config.spec_node_addr() && transaction@ == spec_ser_tx(tx@)),
{
    Action {
        target: String::from_str(addr),
        package: Package::Tx { addr_from: config.get_node_addr(), transaction: tx.serialize() },
    }
}

/// A version handshake carrying this node's best height.
pub fn send_version(addr: &str, height: usize, config: &Config) -> (r: Action)
    ensures
        r.target@ == addr@,
        (r.package matches Package::Version { addr_from, version, best_height } && addr_from@
            == config.spec_node_addr() && version == NODE_VERSION && best_height == height),
{
    Action {
        target: String::from_str(addr),
        package: Package::Version {
            addr_from: config.get_node_addr(),
            version: NODE_VERSION,
            best_height: height,
        },
    }
}

/// A request for all block hashes.
pub fn send_get_blocks(addr: &str, config: &Config) -> (r: Action)
    ensures
        r.target@ == addr@,
        (r.package matches Package::GetBlocks { addr_from } && addr_from@
            == config.spec_node_addr()),
{
    Action {
        target: String::from_str(addr),
        package: Package::GetBlocks { addr_from: config.get_node_addr() },
    }
}

// ---------------------------------------------------------------------
// Per-package semantics
// ---------------------------------------------------------------------
/// The peers a transaction advertisement goes to: everyone known except
/// this node and the sender.
pub open spec fn spec_bcast_tx_targets(
    addrs: Seq<Seq<char>>,
    self_addr: Seq<char>,
    from: Seq<char>,
) -> Seq<Seq<char>> {
    addrs.filter(|a: Seq<char>| a != self_addr && a != from)
}

/// The peers a block advertisement goes to: everyone known except this
/// node.
pub open spec fn spec_bcast_block_targets(
    addrs: Seq<Seq<char>>,
    self_addr: Seq<char>,
) -> Seq<Seq<char>> {
    addrs.filter(|a: Seq<char>| a != self_addr)
}

/// The actions are inventory advertisements of one transaction id, one
/// per target, in order.
pub open spec fn spec_acts_tx_inv(
    acts: Seq<Action>,
    targets: Seq<Seq<char>>,
    cfg_addr: Seq<char>,
    txid: Seq<u8>,
) -> bool {
    &&& acts.len() == targets.len()
    &&& forall|j: int|
        0 <= j < targets.len() ==> (#[trigger] acts[j]).target@ == targets[j] && (
        acts[j].package matches Package::Inv { addr_from, op_type, items } && addr_from@
            == cfg_addr && op_type == OpType::Tx && items.deep_view() == seq![txid])
}

/// The actions are inventory advertisements of one block hash, one per
/// target, in order.
pub open spec fn spec_acts_block_inv(
    acts: Seq<Action>,
    targets: Seq<Seq<char>>,
    cfg_addr: Seq<char>,
    hash_bytes: Seq<u8>,
) -> bool {
    &&& acts.len() == targets.len()
    &&& forall|j: int|
        0 <= j < targets.len() ==> (#[trigger] acts[j]).target@ == targets[j] && (
        acts[j].package matches Package::Inv { addr_from, op_type, items } && addr_from@
            == cfg_addr && op_type == OpType::Block && items.deep_view() == seq![hash_bytes])
}

/// What a version handshake does: pull from a peer that is ahead, answer
/// one that is behind, learn an unknown sender.
pub open spec fn spec_post_version(
    pre: NodeState,
    post: NodeState,
    acts: Seq<Action>,
    peer: Seq<char>,
    addr_from: Seq<char>,
    their_height: usize,
) -> bool {
    let local = pre.blockchain.spec_best_height();
    &&& post.blockchain == pre.blockchain
    &&& post.chainstate == pre.chainstate
    &&& post.mempool == pre.mempool
    &&& post.in_transit == pre.in_transit
    &&& post.config == pre.config
    &&& (local < their_height ==> acts.len() == 1 && acts[0].target@ == addr_from && (
    acts[0].package matches Package::GetBlocks { .. }))
    &&& (local > their_height ==> acts.len() == 1 && acts[0].target@ == addr_from && (
    acts[0].package matches Package::Version { best_height: h, .. } && h == local))
    &&& (local == their_height ==> acts.len() == 0)
    &&& (pre.nodes.spec_known(peer) ==> post.nodes.spec_addrs() == pre.nodes.spec_addrs())
    &&& (!pre.nodes.spec_known(peer) && pre.nodes.spec_known(addr_from)
        ==> post.nodes.spec_addrs() == pre.nodes.spec_addrs())
    &&& (!pre.nodes.spec_known(peer) && !pre.nodes.spec_known(addr_from)
        ==> post.nodes.spec_addrs() == pre.nodes.spec_addrs().push(addr_from))
}

/// What a request for blocks does: nothing to the state; one inventory
/// of every chain block hash goes back.
pub open spec fn spec_post_get_blocks(
    pre: NodeState,
    post: NodeState,
    acts: Seq<Action>,
    addr_from: Seq<char>,
) -> bool {
    &&& post == pre
    &&& acts.len() == 1
    &&& acts[0].target@ == addr_from
    &&& (acts[0].package matches Package::Inv { op_type, items, .. } && op_type == OpType::Block
        && items.deep_view() == Seq::new(
        pre.blockchain.chain().len(),
        |i: int| spec_ascii_bytes(pre.blockchain.chain()[i].hash),
    ))
}

/// What a fetch does: the stored block or pooled transaction goes back,
/// when held; the state is untouched.
pub open spec fn spec_post_get_data(
    pre: NodeState,
    post: NodeState,
    acts: Seq<Action>,
    addr_from: Seq<char>,
    op_type: OpType,
    id: Seq<u8>,
) -> bool {
    &&& post == pre
    &&& (op_type == OpType::Block ==> match spec_find_block_bytes(
        pre.blockchain.blocks_view(),
        id,
    ) {
        Some(b) => acts.len() == 1 && acts[0].target@ == addr_from && (
        acts[0].package matches Package::Block { block, .. } && block@ == spec_ser_block(b)),
        None => acts.len() == 0,
    })
    &&& (op_type == OpType::Tx ==> {
        let key = spec_hex_encode(id);
        match spec_pool_idx(pre.mempool.spec_entries(), key) {
            Some(i) => acts.len() == 1 && acts[0].target@ == addr_from && (
            acts[0].package matches Package::Tx { transaction, .. } && transaction@
                == spec_ser_tx(pre.mempool.spec_entries()[i].1)),
            None => acts.len() == 0,
        }
    })
}

/// What an inventory does: announced blocks are queued and the first is
/// fetched; an unknown announced transaction is fetched.
pub open spec fn spec_post_inv(
    pre: NodeState,
    post: NodeState,
    acts: Seq<Action>,
    addr_from: Seq<char>,
    op_type: OpType,
    items: Seq<Seq<u8>>,
) -> bool {
    &&& post.blockchain == pre.blockchain
    &&& post.chainstate == pre.chainstate
    &&& post.mempool == pre.mempool
    &&& post.nodes == pre.nodes
    &&& post.config == pre.config
    &&& (op_type == OpType::Block ==> {
        let appended = pre.in_transit.spec_blocks() + items;
        &&& (items.len() == 0 ==> post.in_transit.spec_blocks() == appended && acts.len() == 0)
        &&& (items.len() > 0 ==> {
            let first = items[0];
            &&& acts.len() == 1
            &&& acts[0].target@ == addr_from
            &&& (acts[0].package matches Package::GetData { op_type: op, id, .. } && op
                == OpType::Block && id@ == first)
            &&& post.in_transit.spec_blocks() == match spec_bit_idx(appended, first) {
                Some(i) => appended.remove(i),
                None => appended,
            }
        })
    })
    &&& (op_type == OpType::Tx ==> {
        &&& post.in_transit == pre.in_transit
        &&& (items.len() == 0 ==> acts.len() == 0)
        &&& (items.len() > 0 ==> {
            let key = spec_hex_encode(items[0]);
            &&& (pre.mempool.spec_contains(key) ==> acts.len() == 0)
            &&& (!pre.mempool.spec_contains(key) ==> acts.len() == 1 && acts[0].target@
                == addr_from && (acts[0].package matches Package::GetData { op_type: op, id, .. }
                && op == OpType::Tx && id@ == items[0]))
        })
    })
}

/// What taking one block in does to the store: a restatement of
/// `add_block`'s contract over views.
pub open spec fn spec_post_add_block(pre: Blockchain, post: Blockchain, bv: BlockV) -> bool {
    let had = spec_find_block(pre.blocks_view(), bv.hash) is Some;
    &&& post.wf()
    &&& (had ==> post.blocks_view() == pre.blocks_view() && post.spec_tip() == pre.spec_tip())
    &&& (!had ==> post.blocks_view() == pre.blocks_view().push(bv))
    &&& (!had && bv.height > pre.spec_best_height() ==> post.spec_tip() == bv.hash)
    &&& (!had && bv.height <= pre.spec_best_height() ==> post.spec_tip() == pre.spec_tip())
    &&& post.spec_best_height() >= pre.spec_best_height()
}

/// What a received block does: it enters the store, and the next block
/// in transit, if any, is fetched from the sender.
pub open spec fn spec_post_block_result(
    pre: NodeState,
    post: NodeState,
    r: Result<Vec<Action>, ChainError>,
    addr_from: Seq<char>,
    block_bytes: Seq<u8>,
) -> bool {
    &&& post.chainstate == pre.chainstate
    &&& post.mempool == pre.mempool
    &&& post.nodes == pre.nodes
    &&& post.config == pre.config
    &&& match r {
        Ok(acts) => exists|bv: BlockV|
            {
                &&& spec_ser_block(bv) == block_bytes
                &&& #[trigger] spec_post_add_block(pre.blockchain, post.blockchain, bv)
                &&& (pre.in_transit.spec_blocks().len() == 0 ==> acts@.len() == 0
                    && post.in_transit == pre.in_transit)
                &&& (pre.in_transit.spec_blocks().len() > 0 ==> {
                    let first = pre.in_transit.spec_blocks()[0];
                    &&& acts@.len() == 1
                    &&& acts@[0].target@ == addr_from
                    &&& (acts@[0].package matches Package::GetData { op_type: op, id, .. } && op
                        == OpType::Block && id@ == first)
                    &&& post.in_transit.spec_blocks() == match spec_bit_idx(
                        pre.in_transit.spec_blocks(),
                        first,
                    ) {
                        Some(i) => pre.in_transit.spec_blocks().remove(i),
                        None => pre.in_transit.spec_blocks(),
                    }
                })
            },
        Err(e) => e == ChainError::Decode && post == pre && (forall|b: BlockV|
            crate::block::spec_block_text_ok(b) && crate::block::spec_block_bounded(b)
                ==> spec_ser_block(b) != block_bytes),
    }
}

/// The block a mining trigger produced: the whole pool plus a coinbase
/// for the reward address; the chain grew by it, the index was rebuilt
/// from the new chain, and its transactions left the pool.
pub open spec fn spec_mined_block(
    pre: NodeState,
    post: NodeState,
    pool1: Seq<(Seq<char>, TransactionV)>,
    b: BlockV,
) -> bool {
    &&& b.transactions.len() == pool1.len() + 1
    &&& (forall|i: int| 0 <= i < pool1.len() ==> b.transactions[i] == (#[trigger] pool1[i]).1)
    &&& spec_is_coinbase(b.transactions.last())
    &&& b.transactions.last().vout.len() == 1
    &&& b.transactions.last().vout[0].pub_key_hash == spec_pkh_of_addr(
        pre.config.spec_mining_addr()->Some_0,
    )
    &&& post.blockchain.chain() == seq![b] + pre.blockchain.chain()
    &&& post.blockchain.spec_best_height() == pre.blockchain.spec_best_height() + 1
    &&& post.chainstate.deep_view() == spec_find_utxo(post.blockchain.chain())
    &&& (forall|i: int|
        0 <= i < b.transactions.len() ==> !post.mempool.spec_contains(
            spec_hex_encode((#[trigger] b.transactions[i]).id),
        ))
}

/// What a received transaction does: one that does not verify against
/// the chain is dropped without a trace; an accepted one enters the pool
/// under its hex id, the central node advertises it to the other peers,
/// and a mining node whose pool reached the threshold mines the whole
/// pool and advertises the new block.
pub open spec fn spec_post_tx_result(
    pre: NodeState,
    post: NodeState,
    r: Result<Vec<Action>, ChainError>,
    addr_from: Seq<char>,
    tx_bytes: Seq<u8>,
) -> bool {
    &&& post.nodes == pre.nodes
    &&& post.in_transit == pre.in_transit
    &&& post.config == pre.config
    &&& match r {
        Ok(acts) => exists|txv: TransactionV|
            {
                let key = spec_hex_encode(txv.id);
                let pool1 = spec_pool_add(pre.mempool.spec_entries(), key, txv);
                let central = pre.config.spec_node_addr() == CENTRAL_NODE@;
                let accepted = crate::transactions::spec_is_coinbase(txv) || (
                crate::transactions::spec_priors_ok(txv, pre.blockchain.chain())
                    && crate::transactions::spec_tx_verifies(txv, pre.blockchain.chain()));
                let targets = spec_bcast_tx_targets(
                    pre.nodes.spec_addrs(),
                    pre.config.spec_node_addr(),
                    addr_from,
                );
                let nb = if central {
                    targets.len() as int
                } else {
                    0int
                };
                let mine = pool1.len() >= TRANSACTION_THRESHOLD
                    && pre.config.spec_mining_addr() is Some;
                &&& #[trigger] spec_ser_tx(txv) == tx_bytes
                &&& (!accepted ==> post == pre && acts@.len() == 0)
                &&& (accepted && central ==> spec_acts_tx_inv(
                    acts@.take(nb),
                    targets,
                    pre.config.spec_node_addr(),
                    txv.id,
                ))
                &&& (accepted && !mine ==> post.mempool.spec_entries() == pool1
                    && post.blockchain == pre.blockchain && post.chainstate == pre.chainstate
                    && acts@.len() == nb)
                &&& (accepted && mine ==> exists|b: BlockV|
                    {
                        let btargets = spec_bcast_block_targets(
                            pre.nodes.spec_addrs(),
                            pre.config.spec_node_addr(),
                        );
                        &&& #[trigger] spec_mined_block(pre, post, pool1, b)
                        &&& acts@.len() == nb + btargets.len()
                        &&& spec_acts_block_inv(
                            acts@.skip(nb),
                            btargets,
                            pre.config.spec_node_addr(),
                            spec_ascii_bytes(b.hash),
                        )
                    })
            },
        Err(e) => {
            &&& (e == ChainError::Decode ==> post == pre && (forall|t: TransactionV|
                crate::transactions::spec_tx_bounded(t)
                    ==> crate::transactions::spec_ser_tx(t) != tx_bytes))
            &&& (e != ChainError::Decode ==> post.blockchain == pre.blockchain && post.chainstate
                == pre.chainstate)
        },
    }
}

proof fn lemma_bcast_tx_take_empty(addrs: Seq<Seq<char>>, s: Seq<char>, f: Seq<char>)
    ensures
        spec_bcast_tx_targets(addrs.take(0), s, f) == Seq::<Seq<char>>::empty(),
{
    reveal(Seq::filter);
    assert(addrs.take(0) =~= Seq::<Seq<char>>::empty());
    assert(spec_bcast_tx_targets(addrs.take(0), s, f) =~= Seq::<Seq<char>>::empty());
}

proof fn lemma_bcast_tx_take_step(addrs: Seq<Seq<char>>, s: Seq<char>, f: Seq<char>, i: int)
    requires
        0 <= i < addrs.len(),
    ensures
        addrs[i] != s && addrs[i] != f ==> spec_bcast_tx_targets(addrs.take(i + 1), s, f)
            == spec_bcast_tx_targets(addrs.take(i), s, f).push(addrs[i]),
        !(addrs[i] != s && addrs[i] != f) ==> spec_bcast_tx_targets(addrs.take(i + 1), s, f)
            == spec_bcast_tx_targets(addrs.take(i), s, f),
{
    reveal(Seq::filter);
    assert(addrs.take(i + 1).drop_last() =~= addrs.take(i));
    assert(addrs.take(i + 1).last() == addrs[i]);
}

proof fn lemma_bcast_block_take_empty(addrs: Seq<Seq<char>>, s: Seq<char>)
    ensures
        spec_bcast_block_targets(addrs.take(0), s) == Seq::<Seq<char>>::empty(),
{
    reveal(Seq::filter);
    assert(addrs.take(0) =~= Seq::<Seq<char>>::empty());
    assert(spec_bcast_block_targets(addrs.take(0), s) =~= Seq::<Seq<char>>::empty());
}

proof fn lemma_bcast_block_take_step(addrs: Seq<Seq<char>>, s: Seq<char>, i: int)
    requires
        0 <= i < addrs.len(),
    ensures
        addrs[i] != s ==> spec_bcast_block_targets(addrs.take(i + 1), s)
            == spec_bcast_block_targets(addrs.take(i), s).push(addrs[i]),
        addrs[i] == s ==> spec_bcast_block_targets(addrs.take(i + 1), s)
            == spec_bcast_block_targets(addrs.take(i), s),
{
    reveal(Seq::filter);
    assert(addrs.take(i + 1).drop_last() =~= addrs.take(i));
    assert(addrs.take(i + 1).last() == addrs[i]);
}

impl NodeState {
    /// Handles a version handshake.
    pub fn handle_version(&mut self, peer_addr: &str, addr_from: String, best_height: usize) -> (r:
        Vec<Action>)
        requires
            old(self).blockchain.wf(),
        ensures
            spec_post_version(
                *old(self),
                *final(self),
                r@,
                peer_addr@,
                addr_from@,
                best_height,
            ),
    {
        let mut actions: Vec<Action> = Vec::new();
        let local_best_height = self.blockchain.get_best_height();
        if local_best_height < best_height {
            actions.push(send_get_blocks(addr_from.as_str(), &self.config));
        }
        if local_best_height > best_height {
            actions.push(send_version(addr_from.as_str(), local_best_height, &self.config));
        }
        if !self.nodes.node_is_known(peer_addr) {
            self.nodes.add_node(addr_from);
        }
        actions
    }

    /// Handles a request for all block hashes.
    pub fn handle_get_blocks(&self, addr_from: String) -> (r: Vec<Action>)
        ensures
            spec_post_get_blocks(*self, *self, r@, addr_from@),
    {
        let blocks = self.blockchain.get_block_hashes();
        let mut actions: Vec<Action> = Vec::new();
        actions.push(send_inv(addr_from.as_str(), OpType::Block, blocks.as_slice(), &self.config));
        actions
    }

    /// Handles a fetch of one block or one pooled transaction.
    pub fn handle_get_data(&self, addr_from: String, op_type: OpType, id: Vec<u8>) -> (r: Vec<
        Action,
    >)
        ensures
            spec_post_get_data(*self, *self, r@, addr_from@, op_type, id@),
    {
        let mut actions: Vec<Action> = Vec::new();
        match op_type {
            OpType::Block => {
                if let Some(block) = self.blockchain.get_block(id.as_slice()) {
                    actions.push(send_block(addr_from.as_str(), &block, &self.config));
                }
            },
            OpType::Tx => {
                let txid_hex = hex_encode(id.as_slice());
                if let Some(tx) = self.mempool.get(txid_hex.as_str()) {
                    actions.push(send_tx(addr_from.as_str(), &tx, &self.config));
                }
            },
        }
        actions
    }

    /// Handles an inventory advertisement.
    pub fn handle_inv(&mut self, addr_from: String, op_type: OpType, items: Vec<Vec<u8>>) -> (r:
        Vec<Action>)
        ensures
            spec_post_inv(*old(self), *final(self), r@, addr_from@, op_type, items.deep_view()),
    {
        let mut actions: Vec<Action> = Vec::new();
        match op_type {
            OpType::Block => {
                self.in_transit.add_blocks(items.as_slice());
                if items.len() > 0 {
                    let block_hash = &items[0];
                    proof {
                        assert(block_hash@ == items.deep_view()[0]);
                    }
                    actions.push(
                        send_get_data(
                            addr_from.as_str(),
                            OpType::Block,
                            block_hash.as_slice(),
                            &self.config,
                        ),
                    );
                    self.in_transit.remove(block_hash.as_slice());
                }
            },
            OpType::Tx => {
                if items.len() > 0 {
                    let txid = &items[0];
                    proof {
                        assert(txid@ == items.deep_view()[0]);
                    }
                    let txid_hex = hex_encode(txid.as_slice());
                    if !self.mempool.contains(txid_hex.as_str()) {
                        actions.push(
                            send_get_data(
                                addr_from.as_str(),
                                OpType::Tx,
                                txid.as_slice(),
                                &self.config,
                            ),
                        );
                    }
                }
            },
        }
        actions
    }

    /// Handles a received block.
    pub fn handle_block(&mut self, addr_from: String, block_bytes: Vec<u8>) -> (r: Result<
        Vec<Action>,
        ChainError,
    >)
        requires
            old(self).blockchain.wf(),
        ensures
            final(self).blockchain.wf(),
            spec_post_block_result(*old(self), *final(self), r, addr_from@, block_bytes@),
    {
        let block = match Block::deserialize(block_bytes.as_slice()) {
            Some(b) => b,
            None => {
                return Err(ChainError::Decode);
            },
        };
        let ghost bv = block@;
        self.blockchain.add_block(&block);
        proof {
            assert(spec_post_add_block(old(self).blockchain, self.blockchain, bv));
        }
        let mut actions: Vec<Action> = Vec::new();
        match self.in_transit.first() {
            Some(block_hash) => {
                actions.push(
                    send_get_data(
                        addr_from.as_str(),
                        OpType::Block,
                        block_hash.as_slice(),
                        &self.config,
                    ),
                );
                self.in_transit.remove(block_hash.as_slice());
            },
            None => {},
        }
        proof {
            assert(spec_post_add_block(old(self).blockchain, self.blockchain, bv));
        }
        Ok(actions)
    }

    /// Handles a received transaction: drops one that does not verify
    /// against the chain, pools and relays an accepted one, and triggers
    /// a mining round when the pool reaches the threshold on a mining
    /// node.
    pub fn handle_tx(&mut self, addr_from: String, tx_bytes: Vec<u8>) -> (r: Result<
        Vec<Action>,
        ChainError,
    >)
        requires
            old(self).blockchain.wf(),
        ensures
            final(self).blockchain.wf(),
            spec_post_tx_result(*old(self), *final(self), r, addr_from@, tx_bytes@),
    {
        let tx = match Transaction::deserialize(tx_bytes.as_slice()) {
            Some(t) => t,
            None => {
                return Err(ChainError::Decode);
            },
        };
        let ghost txv = tx@;
        // A transaction that does not verify against the chain never
        // enters the pool and is not relayed.
        let accepted = if tx.is_coinbase() {
            true
        } else if tx.priors_ok(&self.blockchain) {
            tx.verify(&self.blockchain)
        } else {
            false
        };
        if !accepted {
            return Ok(Vec::new());
        }
        let txid = tx.get_id_bytes();
        self.mempool.add(tx);
        let ghost pool1 = self.mempool.spec_entries();
        let mut actions: Vec<Action> = Vec::new();
        let node_addr = self.config.get_node_addr();
        let central = str_eq(node_addr.as_str(), CENTRAL_NODE);
        let ghost pre_addrs = self.nodes.spec_addrs();
        let ghost self_addr = self.config.spec_node_addr();
        let ghost tx_targets = spec_bcast_tx_targets(pre_addrs, self_addr, addr_from@);
        if central {
            let mut items_one: Vec<Vec<u8>> = Vec::new();
            let mut t0: Vec<u8> = Vec::new();
            t0.extend_from_slice(txid.as_slice());
            proof {
                assert(t0@ =~= txv.id);
            }
            items_one.push(t0);
            proof {
                assert(items_one.deep_view() =~= seq![txv.id]);
            }
            let nodes = self.nodes.get_nodes();
            let n = nodes.len();
            let mut i: usize = 0;
            proof {
                lemma_bcast_tx_take_empty(pre_addrs, self_addr, addr_from@);
            }
            while i < n
                invariant
                    n == nodes@.len(),
                    i <= n,
                    nodes.deep_view() == pre_addrs,
                    items_one.deep_view() == seq![txv.id],
                    node_addr@ == self_addr,
                    self.config.spec_node_addr() == self_addr,
                    spec_acts_tx_inv(
                        actions@,
                        spec_bcast_tx_targets(pre_addrs.take(i as int), self_addr, addr_from@),
                        self_addr,
                        txv.id,
                    ),
                decreases n - i,
            {
                proof {
                    lemma_bcast_tx_take_step(pre_addrs, self_addr, addr_from@, i as int);
                }
                let na = nodes[i].get_addr();
                proof {
                    assert(na@ == pre_addrs[i as int]);
                }
                if !str_eq(na.as_str(), node_addr.as_str()) && !str_eq(
                    na.as_str(),
                    addr_from.as_str(),
                ) {
                    actions.push(
                        send_inv(na.as_str(), OpType::Tx, items_one.as_slice(), &self.config),
                    );
                }
                i = i + 1;
            }
            proof {
                assert(pre_addrs.take(n as int) =~= pre_addrs);
            }
        }
        let ghost nb = actions@.len() as int;
        proof {
            assert(actions@.take(nb) =~= actions@);
        }
        if self.mempool.len() >= TRANSACTION_THRESHOLD && self.config.is_miner() {
            let mining_address = match self.config.get_mining_addr() {
                Some(a) => a,
                None => {
                    proof {
                        assert(false);
                    }
                    return Err(ChainError::Corrupt);
                },
            };
            let coinbase_tx = match Transaction::new_coinbase_tx_checked(mining_address.as_str()) {
                Some(t) => t,
                None => {
                    return Err(ChainError::InvalidAddress);
                },
            };
            let ghost cbv = coinbase_tx@;
            let mut txs = self.mempool.get_all();
            txs.push(coinbase_tx);
            proof {
                assert(txs.deep_view() =~= Seq::new(pool1.len(), |i: int| pool1[i].1).push(cbv));
            }
            let new_block = match self.blockchain.mine_block(txs.as_slice()) {
                Ok(b) => b,
                Err(e) => {
                    return Err(e);
                },
            };
            let ghost bv = new_block@;
            self.chainstate = self.blockchain.find_utxo();
            let ghost bc_now = self.blockchain;
            let ghost cs_now = self.chainstate;
            let ghost nodes_now = self.nodes;
            let ghost cfg_now = self.config;
            let ghost it_now = self.in_transit;
            let ntx = txs.len();
            let mut q: usize = 0;
            while q < ntx
                invariant
                    ntx == txs@.len(),
                    q <= ntx,
                    self.blockchain == bc_now,
                    self.chainstate == cs_now,
                    self.nodes == nodes_now,
                    self.config == cfg_now,
                    self.in_transit == it_now,
                    forall|j: int|
                        0 <= j < q ==> !self.mempool.spec_contains(
                            spec_hex_encode((#[trigger] txs.deep_view()[j]).id),
                        ),
                decreases ntx - q,
            {
                let h = hex_encode(txs[q].get_id());
                let ghost before_pool = self.mempool.spec_entries();
                self.mempool.remove(h.as_str());
                proof {
                    assert forall|j: int|
                        0 <= j < q implies !self.mempool.spec_contains(
                        spec_hex_encode((#[trigger] txs.deep_view()[j]).id),
                    ) by {
                        lemma_pool_remove_absent(
                            before_pool,
                            spec_hex_encode(txs.deep_view()[j].id),
                            h@,
                        );
                    }
                }
                q = q + 1;
            }
            let hash_bytes = new_block.get_hash_bytes();
            let mut items_hash: Vec<Vec<u8>> = Vec::new();
            items_hash.push(hash_bytes);
            proof {
                assert(items_hash.deep_view() =~= seq![spec_ascii_bytes(bv.hash)]);
            }
            let ghost btargets = spec_bcast_block_targets(pre_addrs, self_addr);
            let nodes = self.nodes.get_nodes();
            let n2 = nodes.len();
            let mut k: usize = 0;
            proof {
                lemma_bcast_block_take_empty(pre_addrs, self_addr);
                assert(actions@.skip(nb) =~= Seq::<Action>::empty());
            }
            while k < n2
                invariant
                    n2 == nodes@.len(),
                    k <= n2,
                    nodes.deep_view() == pre_addrs,
                    items_hash.deep_view() == seq![spec_ascii_bytes(bv.hash)],
                    node_addr@ == self_addr,
                    self.config.spec_node_addr() == self_addr,
                    0 <= nb <= actions@.len(),
                    central ==> spec_acts_tx_inv(actions@.take(nb), tx_targets, self_addr, txv.id),
                    !central ==> nb == 0,
                    central == (self_addr == CENTRAL_NODE@),
                    spec_acts_block_inv(
                        actions@.skip(nb),
                        spec_bcast_block_targets(pre_addrs.take(k as int), self_addr),
                        self_addr,
                        spec_ascii_bytes(bv.hash),
                    ),
                decreases n2 - k,
            {
                proof {
                    lemma_bcast_block_take_step(pre_addrs, self_addr, k as int);
                }
                let na = nodes[k].get_addr();
                proof {
                    assert(na@ == pre_addrs[k as int]);
                }
                if !str_eq(na.as_str(), node_addr.as_str()) {
                    let ghost prev_acts = actions@;
                    actions.push(
                        send_inv(na.as_str(), OpType::Block, items_hash.as_slice(), &self.config),
                    );
                    proof {
                        assert(actions@.take(nb) =~= prev_acts.take(nb));
                        assert(actions@.skip(nb) =~= prev_acts.skip(nb).push(actions@.last()));
                    }
                }
                k = k + 1;
            }
            proof {
                assert(pre_addrs.take(n2 as int) =~= pre_addrs);
                assert(spec_mined_block(*old(self), *self, pool1, bv));
            }
        }
        proof {
            assert(actions@.take(actions@.len() as int) =~= actions@);
        }
        Ok(actions)
    }

    /// Dispatches one received package to its handler.
    pub fn handle_package(&mut self, peer_addr: &str, pkg: Package) -> (r: Result<
        Vec<Action>,
        ChainError,
    >)
        requires
            old(self).blockchain.wf(),
        ensures
            final(self).blockchain.wf(),
            (pkg matches Package::Version { addr_from, best_height, .. } ==> r matches Ok(acts)
                && spec_post_version(
                *old(self),
                *final(self),
                acts@,
                peer_addr@,
                addr_from@,
                best_height,
            )),
            (pkg matches Package::GetBlocks { addr_from } ==> r matches Ok(acts)
                && spec_post_get_blocks(*old(self), *final(self), acts@, addr_from@)),
            (pkg matches Package::GetData { addr_from, op_type, id } ==> r matches Ok(acts)
                && spec_post_get_data(*old(self), *final(self), acts@, addr_from@, op_type, id@)),
            (pkg matches Package::Inv { addr_from, op_type, items } ==> r matches Ok(acts)
                && spec_post_inv(
                *old(self),
                *final(self),
                acts@,
                addr_from@,
                op_type,
                items.deep_view(),
            )),
            (pkg matches Package::Block { addr_from, block } ==> spec_post_block_result(
                *old(self),
                *final(self),
                r,
                addr_from@,
                block@,
            )),
            (pkg matches Package::Tx { addr_from, transaction } ==> spec_post_tx_result(
                *old(self),
                *final(self),
                r,
                addr_from@,
                transaction@,
            )),
    {
        match pkg {
            Package::Block { addr_from, block } => self.handle_block(addr_from, block),
            Package::GetBlocks { addr_from } => Ok(self.handle_get_blocks(addr_from)),
            Package::GetData { addr_from, op_type, id } => Ok(
                self.handle_get_data(addr_from, op_type, id),
            ),
            Package::Inv { addr_from, op_type, items } => Ok(
                self.handle_inv(addr_from, op_type, items),
            ),
            Package::Tx { addr_from, transaction } => self.handle_tx(addr_from, transaction),
            Package::Version { addr_from, version: _, best_height } => Ok(
                self.handle_version(peer_addr, addr_from, best_height),
            ),
        }
    }
}

} // verus!
