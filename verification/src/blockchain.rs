//! The block store: blocks keyed by their hash text, a tip pointer, and
//! the walk from tip to genesis that everything else reads.
//!
//! The store keeps two facts at all times: no two stored blocks share a
//! hash, and the tip names a stored block. The chain is the finite walk
//! that starts at the tip and follows parent links while they resolve;
//! the walk is cut off after as many steps as there are stored blocks,
//! so it is finite even on adversarial data.

use vstd::prelude::*;
use vstd::string::StringExecFns;

use crate::block::{Block, BlockV, spec_block_text_ok};
use crate::codec::{bytes_eq, spec_ascii_bytes, str_eq};
use crate::hex::lemma_hex_ne_none;
use crate::transactions::{spec_is_coinbase, Transaction, TransactionV};
use crate::wallet::spec_addr_decodable;

verus! {

/// What can go wrong when the store changes.
#[derive(Debug, PartialEq, Eq)]
pub enum ChainError {
    /// An address did not decode to a versioned payload.
    InvalidAddress,
    /// The nonce space was exhausted without meeting the target.
    PowExhausted,
    /// A transaction failed verification, or a prior it spends is not on
    /// the chain.
    InvalidTransaction,
    /// A mined block's hash text was already present in the store.
    HashClash,
    /// The handed parts do not form a consistent store.
    Corrupt,
    /// Received bytes are not the canonical form of any value.
    Decode,
}

/// The first stored block carrying the given hash text.
pub open spec fn spec_find_block(blocks: Seq<BlockV>, h: Seq<char>) -> Option<BlockV>
    decreases blocks.len(),
{
    if blocks.len() == 0 {
        None
    } else if blocks[0].hash == h {
        Some(blocks[0])
    } else {
        spec_find_block(blocks.drop_first(), h)
    }
}

/// No two stored blocks share a hash.
pub open spec fn spec_unique_hashes(blocks: Seq<BlockV>) -> bool {
    forall|i: int, j: int|
        #![trigger blocks[i], blocks[j]]
        0 <= i < j < blocks.len() ==> blocks[i].hash != blocks[j].hash
}

/// The walk from `cur` along parent links, stopping when a lookup fails
/// or the fuel runs out.
pub open spec fn spec_chain(blocks: Seq<BlockV>, cur: Seq<char>, fuel: nat) -> Seq<BlockV>
    decreases fuel,
{
    if fuel == 0 {
        Seq::empty()
    } else {
        match spec_find_block(blocks, cur) {
            Some(b) => seq![b] + spec_chain(blocks, b.pre_block_hash, (fuel - 1) as nat),
            None => Seq::empty(),
        }
    }
}

/// The chain read newest-first: every walked block was looked up by its
/// own hash, so neighbouring entries are linked by construction.
pub open spec fn spec_chain_linked(c: Seq<BlockV>) -> bool {
    forall|i: int| 0 <= i < c.len() - 1 ==> (#[trigger] c[i]).pre_block_hash == c[i + 1].hash
}

/// Chain integrity: the walk ends at a genesis block whose parent link is
/// the word "None", heights step down by one, and every block on the walk
/// carries a solved puzzle.
pub open spec fn spec_chain_integrity(c: Seq<BlockV>) -> bool {
    &&& c.len() > 0
    &&& c.last().pre_block_hash == "None"@
    &&& c.last().height == 0
    &&& forall|i: int| 0 <= i < c.len() - 1 ==> (#[trigger] c[i]).height == c[i + 1].height + 1
    &&& forall|i: int| 0 <= i < c.len() ==> crate::proof_of_work::spec_block_pow_ok(#[trigger] c[i])
}

pub proof fn lemma_find_block_at(blocks: Seq<BlockV>, h: Seq<char>, i: int)
    requires
        0 <= i < blocks.len(),
        blocks[i].hash == h,
        forall|j: int| 0 <= j < i ==> (#[trigger] blocks[j]).hash != h,
    ensures
        spec_find_block(blocks, h) == Some(blocks[i]),
    decreases i,
{
    if i == 0 {
    } else {
        assert(blocks[0].hash != h);
        assert forall|j: int| 0 <= j < i - 1 implies (#[trigger] blocks.drop_first()[j]).hash
            != h by {
            assert(blocks.drop_first()[j] == blocks[j + 1]);
        }
        lemma_find_block_at(blocks.drop_first(), h, i - 1);
        assert(blocks.drop_first()[i - 1] == blocks[i]);
    }
}

pub proof fn lemma_find_block_none(blocks: Seq<BlockV>, h: Seq<char>)
    requires
        forall|j: int| 0 <= j < blocks.len() ==> (#[trigger] blocks[j]).hash != h,
    ensures
        spec_find_block(blocks, h) is None,
    decreases blocks.len(),
{
    if blocks.len() > 0 {
        assert forall|j: int|
            0 <= j < blocks.drop_first().len() implies (#[trigger] blocks.drop_first()[j]).hash
            != h by {
            assert(blocks.drop_first()[j] == blocks[j + 1]);
        }
        lemma_find_block_none(blocks.drop_first(), h);
    }
}

/// A lookup that already resolves is unchanged by appending a block, and
/// a lookup of a fresh hash finds the appended block.
pub proof fn lemma_find_block_push(blocks: Seq<BlockV>, b: BlockV, h: Seq<char>)
    ensures
        spec_find_block(blocks, h) is Some ==> spec_find_block(blocks.push(b), h)
            == spec_find_block(blocks, h),
        spec_find_block(blocks, h) is None && b.hash == h ==> spec_find_block(blocks.push(b), h)
            == Some(b),
        spec_find_block(blocks, h) is None && b.hash != h ==> spec_find_block(blocks.push(b), h)
            is None,
    decreases blocks.len(),
{
    if blocks.len() == 0 {
        assert(blocks.push(b)[0] == b);
        if b.hash != h {
            assert(blocks.push(b).drop_first() =~= Seq::<BlockV>::empty());
        }
    } else {
        assert(blocks.push(b)[0] == blocks[0]);
        assert(blocks.push(b).drop_first() =~= blocks.drop_first().push(b));
        lemma_find_block_push(blocks.drop_first(), b, h);
    }
}

/// The walk is unchanged by appending a block that no walked link and no
/// stored parent link names.
pub proof fn lemma_chain_push(blocks: Seq<BlockV>, b: BlockV, cur: Seq<char>, fuel: nat)
    requires
        cur != b.hash,
        forall|i: int| 0 <= i < blocks.len() ==> (#[trigger] blocks[i]).pre_block_hash != b.hash,
    ensures
        spec_chain(blocks.push(b), cur, fuel) == spec_chain(blocks, cur, fuel),
    decreases fuel,
{
    if fuel > 0 {
        lemma_find_block_push(blocks, b, cur);
        match spec_find_block(blocks, cur) {
            Some(x) => {
                lemma_find_block_some_index(blocks, cur);
                lemma_chain_push(blocks, b, x.pre_block_hash, (fuel - 1) as nat);
            },
            None => {},
        }
    }
}

/// A successful lookup returns a stored block whose hash is the key.
pub proof fn lemma_find_block_some_index(blocks: Seq<BlockV>, h: Seq<char>)
    requires
        spec_find_block(blocks, h) is Some,
    ensures
        exists|i: int|
            0 <= i < blocks.len() && blocks[i] == spec_find_block(blocks, h)->Some_0,
        spec_find_block(blocks, h)->Some_0.hash == h,
    decreases blocks.len(),
{
    if blocks.len() > 0 && blocks[0].hash != h {
        lemma_find_block_some_index(blocks.drop_first(), h);
        let i = choose|i: int|
            0 <= i < blocks.drop_first().len() && blocks.drop_first()[i] == spec_find_block(
                blocks.drop_first(),
                h,
            )->Some_0;
        assert(blocks[i + 1] == blocks.drop_first()[i]);
    }
}

/// Neighbouring entries of any walk are linked.
pub proof fn lemma_chain_linked(blocks: Seq<BlockV>, cur: Seq<char>, fuel: nat)
    ensures
        spec_chain_linked(spec_chain(blocks, cur, fuel)),
        spec_chain(blocks, cur, fuel).len() > 0 ==> spec_chain(blocks, cur, fuel)[0].hash == cur,
    decreases fuel,
{
    if fuel > 0 {
        match spec_find_block(blocks, cur) {
            Some(b) => {
                lemma_find_block_some_index(blocks, cur);
                lemma_chain_linked(blocks, b.pre_block_hash, (fuel - 1) as nat);
                let c = spec_chain(blocks, cur, fuel);
                let rest = spec_chain(blocks, b.pre_block_hash, (fuel - 1) as nat);
                assert forall|i: int| 0 <= i < c.len() - 1 implies (#[trigger] c[i]).pre_block_hash
                    == c[i + 1].hash by {
                    if i == 0 {
                        if rest.len() > 0 {
                            assert(c[1] == rest[0]);
                        }
                    } else {
                        assert(c[i] == rest[i - 1]);
                        assert(c[i + 1] == rest[i]);
                    }
                }
            },
            None => {},
        }
    }
}

/// The persistent block store with its in-memory tip.
pub struct Blockchain {
    blocks: Vec<Block>,
    tip_hash: String,
}

/// A cursor over the chain, yielding blocks tip to genesis.
pub struct ChainIterator<'a> {
    chain: &'a Blockchain,
    current_hash: String,
    fuel: usize,
}

impl Blockchain {
    /// The stored blocks, in insertion order.
    pub closed spec fn blocks_view(&self) -> Seq<BlockV> {
        self.blocks.deep_view()
    }

    /// The tip hash text.
    pub closed spec fn spec_tip(&self) -> Seq<char> {
        self.tip_hash@
    }

    /// A consistent store: no duplicate hashes, and the tip resolves.
    /// Constructors establish it and every mutation keeps it.
    pub open spec fn wf(self) -> bool {
        &&& spec_unique_hashes(self.blocks_view())
        &&& spec_find_block(self.blocks_view(), self.spec_tip()) is Some
    }

    /// The block the tip names.
    pub open spec fn spec_tip_block(&self) -> BlockV {
        spec_find_block(self.blocks_view(), self.spec_tip())->Some_0
    }

    /// The height of the tip block.
    pub open spec fn spec_best_height(&self) -> usize {
        self.spec_tip_block().height
    }

    /// The chain: the walk from the tip, newest first.
    pub open spec fn chain(&self) -> Seq<BlockV> {
        spec_chain(self.blocks_view(), self.spec_tip(), self.blocks_view().len())
    }

    /// Builds a fresh store holding only a mined genesis block whose one
    /// transaction pays the subsidy to the given address.
    pub fn create(genesis_address: &str) -> (r: Result<Blockchain, ChainError>)
        ensures
            match r {
                Ok(bc) => {
                    &&& bc.wf()
                    &&& spec_addr_decodable(genesis_address@)
                    &&& bc.chain().len() == 1
                    &&& bc.blocks_view().len() == 1
                    &&& bc.chain()[0] == bc.spec_tip_block()
                    &&& bc.spec_tip_block().height == 0
                    &&& bc.spec_tip_block().pre_block_hash == "None"@
                    &&& bc.spec_tip_block().transactions.len() == 1
                    &&& spec_is_coinbase(bc.spec_tip_block().transactions[0])
                    &&& bc.spec_tip_block().transactions[0].vout.len() == 1
                    &&& bc.spec_tip_block().transactions[0].vout[0].value
                        == crate::transactions::SUBSIDY
                    &&& bc.spec_tip_block().transactions[0].vout[0].pub_key_hash
                        == crate::wallet::spec_pkh_of_addr(genesis_address@)
                    &&& bc.spec_best_height() == 0
                    &&& spec_chain_integrity(bc.chain())
                },
                Err(e) => {
                    &&& (e == ChainError::InvalidAddress || e == ChainError::PowExhausted)
                    &&& (e == ChainError::InvalidAddress ==> !spec_addr_decodable(
                        genesis_address@,
                    ))
                    &&& (e == ChainError::PowExhausted ==> spec_addr_decodable(genesis_address@)
                        && exists|cb: TransactionV, ts: i64|
                        {
                            &&& spec_is_coinbase(cb)
                            &&& cb.vout.len() == 1
                            &&& cb.vout[0].value == crate::transactions::SUBSIDY
                            &&& cb.vout[0].pub_key_hash == crate::wallet::spec_pkh_of_addr(
                                genesis_address@,
                            )
                            &&& 0 <= ts
                            &&& #[trigger] crate::proof_of_work::spec_search_exhausted(
                                BlockV {
                                    timestamp: ts,
                                    pre_block_hash: "None"@,
                                    hash: Seq::empty(),
                                    transactions: seq![cb],
                                    nonce: 0,
                                    height: 0,
                                },
                            )
                        })
                },
            },
    {
        let coinbase_tx = match Transaction::new_coinbase_tx_checked(genesis_address) {
            Some(t) => t,
            None => {
                return Err(ChainError::InvalidAddress);
            },
        };
        let block = match Block::generate_genesis(&coinbase_tx) {
            Some(b) => b,
            None => {
                proof {
                    let ts = choose|ts: i64|
                        0 <= ts && #[trigger] crate::proof_of_work::spec_search_exhausted(
                            BlockV {
                                timestamp: ts,
                                pre_block_hash: "None"@,
                                hash: Seq::empty(),
                                transactions: seq![coinbase_tx@],
                                nonce: 0,
                                height: 0,
                            },
                        );
                    assert(0 <= ts && crate::proof_of_work::spec_search_exhausted(
                        BlockV {
                            timestamp: ts,
                            pre_block_hash: "None"@,
                            hash: Seq::empty(),
                            transactions: seq![coinbase_tx@],
                            nonce: 0,
                            height: 0,
                        },
                    ));
                }
                return Err(ChainError::PowExhausted);
            },
        };
        block.text_facts();
        let tip_hash = String::from_str(block.get_hash());
        let ghost bv = block@;
        let mut blocks: Vec<Block> = Vec::new();
        blocks.push(block);
        let bc = Blockchain { blocks, tip_hash };
        proof {
            assert(bc.blocks_view() =~= seq![bv]);
            assert(bc.blocks_view()[0].hash == bc.spec_tip());
            lemma_find_block_at(bc.blocks_view(), bc.spec_tip(), 0);
            lemma_hex_ne_none(bv.hash);
            lemma_find_block_none(bc.blocks_view(), "None"@);
            assert(spec_chain(bc.blocks_view(), "None"@, 0) =~= Seq::<BlockV>::empty());
            assert(bc.chain() =~= seq![bv]);
        }
        Ok(bc)
    }

    /// Rebuilds a store from loaded parts, checking that hashes are
    /// unique and that the tip resolves.
    pub fn from_parts(blocks: Vec<Block>, tip_hash: String) -> (r: Result<Blockchain, ChainError>)
        ensures
            match r {
                Ok(bc) => bc.wf() && bc.blocks_view() == blocks.deep_view() && bc.spec_tip()
                    == tip_hash@,
                Err(e) => e == ChainError::Corrupt && !(spec_unique_hashes(blocks.deep_view())
                    && spec_find_block(blocks.deep_view(), tip_hash@) is Some),
            },
    {
        let n = blocks.len();
        let mut i: usize = 0;
        while i < n
            invariant
                n == blocks@.len(),
                i <= n,
                forall|a: int, b: int|
                    #![trigger blocks.deep_view()[a], blocks.deep_view()[b]]
                    0 <= a < b < n && a < i ==> blocks.deep_view()[a].hash
                        != blocks.deep_view()[b].hash,
            decreases n - i,
        {
            let mut j: usize = i + 1;
            while j < n
                invariant
                    n == blocks@.len(),
                    i < j <= n,
                    forall|b: int|
                        i < b < j ==> blocks.deep_view()[i as int].hash != (
                        #[trigger] blocks.deep_view()[b]).hash,
                decreases n - j,
            {
                if str_eq(blocks[i].get_hash(), blocks[j].get_hash()) {
                    proof {
                        assert(blocks.deep_view()[i as int].hash
                            == blocks.deep_view()[j as int].hash);
                        assert(!spec_unique_hashes(blocks.deep_view()));
                    }
                    return Err(ChainError::Corrupt);
                }
                j = j + 1;
            }
            i = i + 1;
        }
        let mut t: usize = 0;
        while t < n
            invariant
                n == blocks@.len(),
                t <= n,
                forall|j: int| 0 <= j < t ==> (#[trigger] blocks.deep_view()[j]).hash != tip_hash@,
                spec_unique_hashes(blocks.deep_view()),
            decreases n - t,
        {
            if str_eq(blocks[t].get_hash(), tip_hash.as_str()) {
                let bc = Blockchain { blocks, tip_hash };
                proof {
                    lemma_find_block_at(bc.blocks.deep_view(), bc.tip_hash@, t as int);
                }
                return Ok(bc);
            }
            t = t + 1;
        }
        proof {
            lemma_find_block_none(blocks.deep_view(), tip_hash@);
        }
        Err(ChainError::Corrupt)
    }

    /// All stored blocks, in insertion order, for persistence.
    pub fn get_all_blocks(&self) -> (r: Vec<Block>)
        ensures
            r.deep_view() == self.blocks_view(),
    {
        crate::block::clone_blocks(&self.blocks)
    }

    pub fn get_tip_hash(&self) -> (r: String)
        ensures
            r@ == self.spec_tip(),
    {
        self.tip_hash.clone()
    }

    /// The first stored block with the given hash text, if any.
    fn find_by_hash(&self, h: &str) -> (r: Option<&Block>)
        ensures
            match r {
                Some(b) => spec_find_block(self.blocks_view(), h@) == Some(b@),
                None => spec_find_block(self.blocks_view(), h@) is None,
            },
    {
        let n = self.blocks.len();
        let mut i: usize = 0;
        while i < n
            invariant
                n == self.blocks@.len(),
                i <= n,
                forall|j: int| 0 <= j < i ==> (#[trigger] self.blocks_view()[j]).hash != h@,
            decreases n - i,
        {
            if str_eq(self.blocks[i].get_hash(), h) {
                proof {
                    lemma_find_block_at(self.blocks_view(), h@, i as int);
                }
                return Some(&self.blocks[i]);
            }
            i = i + 1;
        }
        proof {
            lemma_find_block_none(self.blocks_view(), h@);
        }
        None
    }

    /// The height of the tip block.
    pub fn get_best_height(&self) -> (r: usize)
        requires
            self.wf(),
        ensures
            r == self.spec_best_height(),
    {
        match self.find_by_hash(self.tip_hash.as_str()) {
            Some(b) => b.get_height(),
            None => {
                proof {
                    assert(false);
                }
                0
            },
        }
    }

    /// The first stored block whose hash text has the given bytes, if
    /// any.
    pub fn get_block(&self, block_hash: &[u8]) -> (r: Option<Block>)
        ensures
            match r {
                Some(b) => spec_find_block_bytes(self.blocks_view(), block_hash@) == Some(b@),
                None => spec_find_block_bytes(self.blocks_view(), block_hash@) is None,
            },
    {
        let n = self.blocks.len();
        let mut i: usize = 0;
        while i < n
            invariant
                n == self.blocks@.len(),
                i <= n,
                forall|j: int|
                    0 <= j < i ==> spec_ascii_bytes((#[trigger] self.blocks_view()[j]).hash)
                        != block_hash@,
            decreases n - i,
        {
            let hb = self.blocks[i].get_hash_bytes();
            if bytes_eq(hb.as_slice(), block_hash) {
                proof {
                    lemma_find_block_bytes_at(self.blocks_view(), block_hash@, i as int);
                }
                return Some(self.blocks[i].clone());
            }
            i = i + 1;
        }
        proof {
            lemma_find_block_bytes_none(self.blocks_view(), block_hash@);
        }
        None
    }

    /// Takes a block in from a peer. A block whose hash is already stored
    /// is dropped; otherwise it is stored, and it becomes the tip exactly
    /// when it is strictly higher than the current tip block. The best
    /// height never moves down.
    pub fn add_block(&mut self, block: &Block)
        requires
            old(self).wf(),
        ensures
            final(self).wf(),
            ({
                let had = spec_find_block(old(self).blocks_view(), block@.hash) is Some;
                &&& (had ==> final(self).blocks_view() == old(self).blocks_view()
                    && final(self).spec_tip() == old(self).spec_tip())
                &&& (!had ==> final(self).blocks_view() == old(self).blocks_view().push(block@))
                &&& (!had && block@.height > old(self).spec_best_height()
                    ==> final(self).spec_tip() == block@.hash)
                &&& (!had && block@.height <= old(self).spec_best_height()
                    ==> final(self).spec_tip() == old(self).spec_tip())
                &&& final(self).spec_best_height() >= old(self).spec_best_height()
            }),
    {
        block.text_facts();
        let already = match self.find_by_hash(block.get_hash()) {
            Some(_) => true,
            None => false,
        };
        if already {
            return;
        }
        let best = self.get_best_height();
        let ghost old_blocks = self.blocks_view();
        let ghost old_tip = self.tip_hash@;
        self.blocks.push(block.clone());
        proof {
            assert(self.blocks.deep_view() =~= old_blocks.push(block@));
            assert forall|i: int, j: int|
                #![trigger self.blocks.deep_view()[i], self.blocks.deep_view()[j]]
                0 <= i < j < self.blocks.deep_view().len() implies self.blocks.deep_view()[i].hash
                != self.blocks.deep_view()[j].hash by {
                if j < old_blocks.len() {
                } else {
                    lemma_find_block_none_from_unique(old_blocks, block@.hash, i);
                }
            }
            lemma_find_block_push(old_blocks, block@, old_tip);
        }
        if block.get_height() > best {
            self.tip_hash = String::from_str(block.get_hash());
            proof {
                lemma_find_block_push(old_blocks, block@, block@.hash);
            }
        }
        proof {
            lemma_find_block_push(old_blocks, block@, old_tip);
        }
    }

    /// Mines a block of the given transactions on the current tip. Every
    /// transaction must verify against the chain; the freshly mined hash
    /// must be new to the store. On success the block is stored, the tip
    /// moves to it, the chain grows by exactly that block, and the best
    /// height climbs by one; chain integrity is preserved. On any error
    /// the store is unchanged.
    pub fn mine_block(&mut self, transactions: &[Transaction]) -> (r: Result<Block, ChainError>)
        requires
            old(self).wf(),
        ensures
            final(self).wf(),
            match r {
                Ok(b) => {
                    &&& forall|i: int|
                        0 <= i < transactions.deep_view().len()
                            ==> crate::transactions::spec_tx_verifies(
                            #[trigger] transactions.deep_view()[i],
                            old(self).chain(),
                        )
                    &&& b@.pre_block_hash == old(self).spec_tip()
                    &&& b@.height == old(self).spec_best_height() + 1
                    &&& b@.transactions == transactions.deep_view()
                    &&& crate::proof_of_work::spec_block_pow_ok(b@)
                    &&& final(self).blocks_view() == old(self).blocks_view().push(b@)
                    &&& final(self).spec_tip() == b@.hash
                    &&& final(self).chain() == seq![b@] + old(self).chain()
                    &&& final(self).spec_best_height() == old(self).spec_best_height() + 1
                    &&& (spec_chain_integrity(old(self).chain()) ==> spec_chain_integrity(
                        final(self).chain(),
                    ))
                },
                Err(e) => {
                    let txs = transactions.deep_view();
                    let passes = forall|i: int|
                        0 <= i < txs.len() ==> (spec_is_coinbase(#[trigger] txs[i])
                            || crate::transactions::spec_priors_ok(txs[i], old(self).chain()))
                            && crate::transactions::spec_tx_verifies(txs[i], old(self).chain());
                    &&& *final(self) == *old(self)
                    &&& (e == ChainError::InvalidTransaction || e == ChainError::Corrupt || e
                        == ChainError::PowExhausted || e == ChainError::HashClash)
                    &&& (e == ChainError::InvalidTransaction ==> !passes)
                    &&& (e == ChainError::Corrupt ==> old(self).spec_best_height() == usize::MAX)
                    &&& (e == ChainError::PowExhausted || e == ChainError::HashClash ==> passes
                        && old(self).spec_best_height() < usize::MAX)
                    &&& (e == ChainError::PowExhausted ==> exists|ts: i64|
                        0 <= ts && #[trigger] crate::proof_of_work::spec_search_exhausted(
                            BlockV {
                                timestamp: ts,
                                pre_block_hash: old(self).spec_tip(),
                                hash: Seq::empty(),
                                transactions: txs,
                                nonce: 0,
                                height: (old(self).spec_best_height() + 1) as usize,
                            },
                        ))
                },
            },
    {
        let n = transactions.len();
        let mut t: usize = 0;
        while t < n
            invariant
                old(self).wf(),
                self == old(self),
                n == transactions@.len(),
                t <= n,
                forall|i: int|
                    0 <= i < t ==> (spec_is_coinbase(#[trigger] transactions.deep_view()[i])
                        || crate::transactions::spec_priors_ok(
                        transactions.deep_view()[i],
                        self.chain(),
                    )) && crate::transactions::spec_tx_verifies(
                        transactions.deep_view()[i],
                        self.chain(),
                    ),
            decreases n - t,
        {
            let tx = &transactions[t];
            proof {
                assert(tx@ == transactions.deep_view()[t as int]);
            }
            if tx.is_coinbase() {
            } else if tx.priors_ok(self) {
                if !tx.verify(self) {
                    proof {
                        assert(!crate::transactions::spec_tx_verifies(
                            transactions.deep_view()[t as int],
                            self.chain(),
                        ));
                    }
                    return Err(ChainError::InvalidTransaction);
                }
            } else {
                proof {
                    assert(!spec_is_coinbase(transactions.deep_view()[t as int]));
                    assert(!crate::transactions::spec_priors_ok(
                        transactions.deep_view()[t as int],
                        self.chain(),
                    ));
                }
                return Err(ChainError::InvalidTransaction);
            }
            t = t + 1;
        }
        let best_height = self.get_best_height();
        if best_height == usize::MAX {
            return Err(ChainError::Corrupt);
        }
        let tip = self.get_tip_hash();
        let tip_block = match self.find_by_hash(tip.as_str()) {
            Some(b) => b,
            None => {
                proof {
                    assert(false);
                }
                return Err(ChainError::Corrupt);
            },
        };
        tip_block.text_facts();
        proof {
            lemma_find_block_some_index(self.blocks_view(), tip@);
        }
        let block = match Block::new(tip, transactions, best_height + 1) {
            Some(b) => b,
            None => {
                return Err(ChainError::PowExhausted);
            },
        };
        // The mined hash must be fresh: neither a stored hash nor a
        // stored parent link may carry it, or the walk would change
        // shape.
        let bh = block.get_hash();
        let m = self.blocks.len();
        let mut q: usize = 0;
        while q < m
            invariant
                old(self).wf(),
                self == old(self),
                m == self.blocks@.len(),
                q <= m,
                old(self).spec_best_height() < usize::MAX,
                forall|i: int|
                    0 <= i < transactions.deep_view().len() ==> (spec_is_coinbase(
                        #[trigger] transactions.deep_view()[i],
                    ) || crate::transactions::spec_priors_ok(
                        transactions.deep_view()[i],
                        old(self).chain(),
                    )) && crate::transactions::spec_tx_verifies(
                        transactions.deep_view()[i],
                        old(self).chain(),
                    ),
                forall|j: int|
                    0 <= j < q ==> (#[trigger] self.blocks_view()[j]).hash != bh@
                        && self.blocks_view()[j].pre_block_hash != bh@,
            decreases m - q,
        {
            if str_eq(self.blocks[q].get_hash(), bh)
                || str_eq(self.blocks[q].get_pre_block_hash().as_str(), bh) {
                return Err(ChainError::HashClash);
            }
            q = q + 1;
        }
        let ghost old_blocks = self.blocks_view();
        let ghost old_tip = self.tip_hash@;
        let ghost old_chain = self.chain();
        proof {
            lemma_find_block_none(old_blocks, block@.hash);
        }
        let new_tip = String::from_str(block.get_hash());
        self.blocks.push(block.clone());
        self.tip_hash = new_tip;
        proof {
            assert(self.blocks.deep_view() =~= old_blocks.push(block@));
            assert forall|i: int, j: int|
                #![trigger self.blocks.deep_view()[i], self.blocks.deep_view()[j]]
                0 <= i < j < self.blocks.deep_view().len() implies self.blocks.deep_view()[i].hash
                != self.blocks.deep_view()[j].hash by {
                if j < old_blocks.len() {
                } else {
                    lemma_find_block_none_from_unique(old_blocks, block@.hash, i);
                }
            }
            lemma_find_block_push(old_blocks, block@, block@.hash);
            lemma_chain_push(old_blocks, block@, old_tip, old_blocks.len() as nat);
            assert(self.chain() =~= seq![block@] + old_chain);
            lemma_chain_linked(old_blocks, old_tip, old_blocks.len() as nat);
            if spec_chain_integrity(old_chain) {
                assert(old_chain[0] == spec_find_block(old_blocks, old_tip)->Some_0);
                lemma_integrity_extend(old_chain, block@);
            }
        }
        Ok(block)
    }

    /// Walks the chain newest block first and gathers, per transaction
    /// id, the outputs no later input has consumed.
    pub fn find_utxo(&self) -> (r: crate::utxo_set::UtxoEntries)
        ensures
            r.deep_view() == crate::utxo_set::spec_find_utxo(self.chain()),
    {
        let blocks = self.chain_blocks();
        let mut utxo: crate::utxo_set::UtxoEntries = Vec::new();
        let mut spent: Vec<(Vec<u8>, Vec<usize>)> = Vec::new();
        proof {
            assert(utxo.deep_view() =~= Seq::<(Seq<u8>, Seq<crate::transactions::TXOutputV>)>::empty());
            assert(spent.deep_view() =~= Seq::<(Seq<u8>, Seq<usize>)>::empty());
        }
        let n = blocks.len();
        let mut i: usize = 0;
        while i < n
            invariant
                n == blocks@.len(),
                i <= n,
                blocks.deep_view() == self.chain(),
                crate::utxo_set::spec_process_blocks(
                    utxo.deep_view(),
                    spent.deep_view(),
                    self.chain(),
                    i as int,
                ) == crate::utxo_set::spec_process_blocks(
                    Seq::empty(),
                    Seq::empty(),
                    self.chain(),
                    0,
                ),
            decreases n - i,
        {
            let txs = blocks[i].get_transactions();
            let nt = txs.len();
            let mut k: usize = 0;
            let ghost u_i = utxo.deep_view();
            let ghost sp_i = spent.deep_view();
            while k < nt
                invariant
                    nt == txs@.len(),
                    k <= nt,
                    i < n == blocks@.len(),
                    blocks.deep_view() == self.chain(),
                    txs.deep_view() == self.chain()[i as int].transactions,
                    crate::utxo_set::spec_process_txs(
                        utxo.deep_view(),
                        spent.deep_view(),
                        self.chain()[i as int].transactions,
                        k as int,
                    ) == crate::utxo_set::spec_process_txs(
                        u_i,
                        sp_i,
                        self.chain()[i as int].transactions,
                        0,
                    ),
                decreases nt - k,
            {
                let tx = &txs[k];
                proof {
                    assert(tx@ == self.chain()[i as int].transactions[k as int]);
                }
                crate::utxo_set::process_tx(&mut utxo, &mut spent, tx);
                k = k + 1;
            }
            i = i + 1;
        }
        utxo
    }

    /// The chain as a list of blocks, tip to genesis.
    pub fn chain_blocks(&self) -> (r: Vec<Block>)
        ensures
            r.deep_view() == self.chain(),
    {
        let mut out: Vec<Block> = Vec::new();
        let mut current_hash = self.tip_hash.clone();
        let mut fuel = self.blocks.len();
        while fuel > 0
            invariant
                out.deep_view() + spec_chain(self.blocks_view(), current_hash@, fuel as nat)
                    =~= self.chain(),
            decreases fuel,
        {
            match self.find_by_hash(current_hash.as_str()) {
                Some(b) => {
                    let ghost prev = out.deep_view();
                    let nb = b.clone();
                    current_hash = nb.get_pre_block_hash();
                    out.push(nb);
                    proof {
                        assert(out.deep_view() =~= prev.push(b@));
                    }
                    fuel = fuel - 1;
                },
                None => {
                    proof {
                        assert(out.deep_view() =~= self.chain());
                    }
                    return out;
                },
            }
        }
        proof {
            assert(out.deep_view() =~= self.chain());
        }
        out
    }

    /// The first transaction with the given id on the chain, walking
    /// newest block first.
    pub fn find_transaction(&self, txid: &[u8]) -> (r: Option<Transaction>)
        ensures
            match r {
                Some(t) => spec_find_transaction(self.chain(), txid@) == Some(t@),
                None => spec_find_transaction(self.chain(), txid@) is None,
            },
    {
        let blocks = self.chain_blocks();
        let nb = blocks.len();
        let mut i: usize = 0;
        while i < nb
            invariant
                nb == blocks@.len(),
                i <= nb,
                blocks.deep_view() == self.chain(),
                spec_find_transaction_from(self.chain(), txid@, i as int) == spec_find_transaction(
                    self.chain(),
                    txid@,
                ),
                forall|j: int|
                    0 <= j < i ==> spec_find_tx_in(
                        (#[trigger] self.chain()[j]).transactions,
                        txid@,
                    ) is None,
            decreases nb - i,
        {
            let txs = blocks[i].get_transactions();
            let nt = txs.len();
            let mut k: usize = 0;
            while k < nt
                invariant
                    nt == txs@.len(),
                    k <= nt,
                    txs.deep_view() == self.chain()[i as int].transactions,
                    i < nb == blocks@.len(),
                    blocks.deep_view() == self.chain(),
                    spec_find_transaction_from(self.chain(), txid@, i as int)
                        == spec_find_transaction(self.chain(), txid@),
                    forall|j: int|
                        0 <= j < k ==> (#[trigger] txs.deep_view()[j]).id != txid@,
                decreases nt - k,
            {
                if bytes_eq(txs[k].get_id(), txid) {
                    let t = txs[k].clone();
                    proof {
                        assert(txs.deep_view()[k as int] == t@);
                        lemma_find_tx_in_at(txs.deep_view(), txid@, k as int);
                        lemma_find_transaction_unfold(self.chain(), txid@, i as int);
                    }
                    return Some(t);
                }
                k = k + 1;
            }
            proof {
                lemma_find_tx_in_none(txs.deep_view(), txid@);
                lemma_find_transaction_unfold(self.chain(), txid@, i as int);
            }
            i = i + 1;
        }
        proof {
            lemma_find_transaction_end(self.chain(), txid@, nb as int);
        }
        None
    }

    /// The hash bytes of every chain block, tip to genesis.
    pub fn get_block_hashes(&self) -> (r: Vec<Vec<u8>>)
        ensures
            r.deep_view() == Seq::new(self.chain().len(), |i: int| spec_ascii_bytes(self.chain()[i].hash)),
    {
        let blocks = self.chain_blocks();
        let mut out: Vec<Vec<u8>> = Vec::new();
        let n = blocks.len();
        let mut i: usize = 0;
        while i < n
            invariant
                n == blocks@.len(),
                i <= n,
                blocks.deep_view() == self.chain(),
                out.deep_view() =~~= Seq::new(i as nat, |j: int| spec_ascii_bytes(self.chain()[j].hash)),
            decreases n - i,
        {
            let ghost prev = out.deep_view();
            let hb = blocks[i].get_hash_bytes();
            proof {
                assert(blocks.deep_view()[i as int] == self.chain()[i as int]);
                assert(hb@ == spec_ascii_bytes(self.chain()[i as int].hash));
            }
            out.push(hb);
            proof {
                assert(out.deep_view() =~~= prev.push(spec_ascii_bytes(self.chain()[i as int].hash)));
            }
            i = i + 1;
        }
        proof {
            assert(out.deep_view() =~~= Seq::new(
                self.chain().len(),
                |j: int| spec_ascii_bytes(self.chain()[j].hash),
            ));
        }
        out
    }

    /// A cursor standing at the tip.
    pub fn iterator(&self) -> (r: ChainIterator<'_>)
        ensures
            r.remaining() == self.chain(),
    {
        ChainIterator {
            chain: self,
            current_hash: self.tip_hash.clone(),
            fuel: self.blocks.len(),
        }
    }
}

impl<'a> ChainIterator<'a> {
    /// The blocks this cursor will still yield, newest first.
    pub closed spec fn remaining(&self) -> Seq<BlockV> {
        spec_chain(self.chain.blocks_view(), self.current_hash@, self.fuel as nat)
    }

    /// Yields the next block toward genesis, or `None` at the end.
    pub fn next(&mut self) -> (r: Option<Block>)
        ensures
            match r {
                Some(b) => old(self).remaining().len() > 0 && b@ == old(self).remaining()[0]
                    && final(self).remaining() == old(self).remaining().drop_first(),
                None => old(self).remaining().len() == 0 && final(self).remaining()
                    == old(self).remaining(),
            },
    {
        if self.fuel == 0 {
            return None;
        }
        match self.chain.find_by_hash(self.current_hash.as_str()) {
            Some(b) => {
                let nb = b.clone();
                self.current_hash = nb.get_pre_block_hash();
                self.fuel = self.fuel - 1;
                proof {
                    assert(final(self).remaining() =~= old(self).remaining().drop_first());
                }
                Some(nb)
            },
            None => None,
        }
    }
}

/// A block mined on top of a chain with integrity extends it with
/// integrity: the new head links to the old, sits one higher, and
/// carries a solved puzzle.
pub proof fn lemma_integrity_extend(c: Seq<BlockV>, b: BlockV)
    requires
        spec_chain_integrity(c),
        b.height == c[0].height + 1,
        crate::proof_of_work::spec_block_pow_ok(b),
    ensures
        spec_chain_integrity(seq![b] + c),
{
    let n = seq![b] + c;
    assert(n.last() == c.last());
    assert forall|i: int| 0 <= i < n.len() - 1 implies (#[trigger] n[i]).height == n[i + 1].height
        + 1 by {
        if i == 0 {
            assert(n[1] == c[0]);
        } else {
            assert(n[i] == c[i - 1]);
            assert(n[i + 1] == c[i]);
        }
    }
    assert forall|i: int|
        0 <= i < n.len() implies crate::proof_of_work::spec_block_pow_ok(#[trigger] n[i]) by {
        if i > 0 {
            assert(n[i] == c[i - 1]);
        }
    }
}

/// The first stored block whose hash text has the given bytes.
pub open spec fn spec_find_block_bytes(blocks: Seq<BlockV>, kb: Seq<u8>) -> Option<BlockV>
    decreases blocks.len(),
{
    if blocks.len() == 0 {
        None
    } else if spec_ascii_bytes(blocks[0].hash) == kb {
        Some(blocks[0])
    } else {
        spec_find_block_bytes(blocks.drop_first(), kb)
    }
}

pub proof fn lemma_find_block_bytes_at(blocks: Seq<BlockV>, kb: Seq<u8>, i: int)
    requires
        0 <= i < blocks.len(),
        spec_ascii_bytes(blocks[i].hash) == kb,
        forall|j: int| 0 <= j < i ==> spec_ascii_bytes((#[trigger] blocks[j]).hash) != kb,
    ensures
        spec_find_block_bytes(blocks, kb) == Some(blocks[i]),
    decreases i,
{
    if i > 0 {
        assert forall|j: int|
            0 <= j < i - 1 implies spec_ascii_bytes((#[trigger] blocks.drop_first()[j]).hash)
            != kb by {
            assert(blocks.drop_first()[j] == blocks[j + 1]);
        }
        lemma_find_block_bytes_at(blocks.drop_first(), kb, i - 1);
        assert(blocks.drop_first()[i - 1] == blocks[i]);
    }
}

pub proof fn lemma_find_block_bytes_none(blocks: Seq<BlockV>, kb: Seq<u8>)
    requires
        forall|j: int| 0 <= j < blocks.len() ==> spec_ascii_bytes((#[trigger] blocks[j]).hash) != kb,
    ensures
        spec_find_block_bytes(blocks, kb) is None,
    decreases blocks.len(),
{
    if blocks.len() > 0 {
        assert forall|j: int|
            0 <= j < blocks.drop_first().len() implies spec_ascii_bytes(
            (#[trigger] blocks.drop_first()[j]).hash,
        ) != kb by {
            assert(blocks.drop_first()[j] == blocks[j + 1]);
        }
        lemma_find_block_bytes_none(blocks.drop_first(), kb);
    }
}

/// Appending a fresh block cannot break uniqueness.
pub proof fn lemma_find_block_none_from_unique(blocks: Seq<BlockV>, h: Seq<char>, i: int)
    requires
        spec_find_block(blocks, h) is None,
        0 <= i < blocks.len(),
    ensures
        blocks[i].hash != h,
    decreases i,
{
    if i > 0 {
        lemma_find_block_none_from_unique(blocks.drop_first(), h, i - 1);
        assert(blocks.drop_first()[i - 1] == blocks[i]);
    }
}

/// The first transaction with the given id inside one block's list.
pub open spec fn spec_find_tx_in(txs: Seq<TransactionV>, txid: Seq<u8>) -> Option<TransactionV>
    decreases txs.len(),
{
    if txs.len() == 0 {
        None
    } else if txs[0].id == txid {
        Some(txs[0])
    } else {
        spec_find_tx_in(txs.drop_first(), txid)
    }
}

/// The first transaction with the given id on the chain, from block
/// position `i` on.
pub open spec fn spec_find_transaction_from(c: Seq<BlockV>, txid: Seq<u8>, i: int) -> Option<
    TransactionV,
>
    decreases c.len() - i,
{
    if i < 0 || i >= c.len() {
        None
    } else {
        match spec_find_tx_in(c[i].transactions, txid) {
            Some(t) => Some(t),
            None => spec_find_transaction_from(c, txid, i + 1),
        }
    }
}

/// The first transaction with the given id on the chain, newest first.
pub open spec fn spec_find_transaction(c: Seq<BlockV>, txid: Seq<u8>) -> Option<TransactionV> {
    spec_find_transaction_from(c, txid, 0)
}

pub proof fn lemma_find_tx_in_at(txs: Seq<TransactionV>, txid: Seq<u8>, k: int)
    requires
        0 <= k < txs.len(),
        txs[k].id == txid,
        forall|j: int| 0 <= j < k ==> (#[trigger] txs[j]).id != txid,
    ensures
        spec_find_tx_in(txs, txid) == Some(txs[k]),
    decreases k,
{
    if k > 0 {
        assert forall|j: int| 0 <= j < k - 1 implies (#[trigger] txs.drop_first()[j]).id
            != txid by {
            assert(txs.drop_first()[j] == txs[j + 1]);
        }
        lemma_find_tx_in_at(txs.drop_first(), txid, k - 1);
        assert(txs.drop_first()[k - 1] == txs[k]);
    }
}

pub proof fn lemma_find_tx_in_none(txs: Seq<TransactionV>, txid: Seq<u8>)
    requires
        forall|j: int| 0 <= j < txs.len() ==> (#[trigger] txs[j]).id != txid,
    ensures
        spec_find_tx_in(txs, txid) is None,
    decreases txs.len(),
{
    if txs.len() > 0 {
        assert forall|j: int|
            0 <= j < txs.drop_first().len() implies (#[trigger] txs.drop_first()[j]).id != txid by {
            assert(txs.drop_first()[j] == txs[j + 1]);
        }
        lemma_find_tx_in_none(txs.drop_first(), txid);
    }
}

pub proof fn lemma_find_transaction_unfold(c: Seq<BlockV>, txid: Seq<u8>, i: int)
    requires
        0 <= i < c.len(),
    ensures
        spec_find_transaction_from(c, txid, i) == match spec_find_tx_in(c[i].transactions, txid) {
            Some(t) => Some(t),
            None => spec_find_transaction_from(c, txid, i + 1),
        },
{
}

pub proof fn lemma_find_transaction_end(c: Seq<BlockV>, txid: Seq<u8>, i: int)
    requires
        i >= c.len() || i < 0,
    ensures
        spec_find_transaction_from(c, txid, i) is None,
{
}

} // verus!
