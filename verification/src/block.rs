//! Blocks: a timestamped batch of transactions chained to a parent by
//! hash text, carrying the nonce and digest of a solved proof-of-work
//! puzzle.
//!
//! A block's hash and its parent link are lowercase hex text; the genesis
//! block's parent link is the word "None". Every block holds text of that
//! shape, which is what lets headers be rebuilt and blocks be laid out in
//! canonical bytes.

use vstd::prelude::*;
use vstd::bytes::spec_u64_to_le_bytes;
use vstd::string::{StrSliceExecFns, StringExecFns};

use crate::codec::{
    lemma_parse_ser_bytes, lemma_parse_ser_u64, read_bytes, read_u64, spec_parse_bytes,
    spec_parse_u64, spec_ser_bytes, write_bytes, write_u64,
};
use crate::hex::{
    hex_decode, hex_encode, lemma_hex_decode_encode, lemma_hex_encode_decode, lemma_hex_is_ascii,
    lemma_hex_ne_none, spec_hex_decode, spec_hex_encode, spec_is_hex,
};
use crate::proof_of_work::{spec_block_pow_ok, spec_search_exhausted, ProofOfWork};
use crate::transactions::{
    lemma_parse_ser_tx, read_tx, spec_parse_tx, spec_ser_tx, spec_tx_bounded, Transaction,
    TransactionV,
};
use crate::utils::{current_timestamp, sha256_digest, sha256_of};

verus! {

/// Mathematical form of a block.
pub struct BlockV {
    pub timestamp: i64,
    pub pre_block_hash: Seq<char>,
    pub hash: Seq<char>,
    pub transactions: Seq<TransactionV>,
    pub nonce: i64,
    pub height: usize,
}

/// A block of the chain.
pub struct Block {
    timestamp: i64,
    pre_block_hash: String,
    hash: String,
    transactions: Vec<Transaction>,
    nonce: i64,
    height: usize,
}

impl View for Block {
    type V = BlockV;

    closed spec fn view(&self) -> BlockV {
        BlockV {
            timestamp: self.timestamp,
            pre_block_hash: self.pre_block_hash@,
            hash: self.hash@,
            transactions: self.transactions.deep_view(),
            nonce: self.nonce,
            height: self.height,
        }
    }
}

impl DeepView for Block {
    type V = BlockV;

    open spec fn deep_view(&self) -> BlockV {
        self.view()
    }
}

/// The member transaction ids, laid end to end.
pub open spec fn spec_concat_tx_ids(txs: Seq<TransactionV>) -> Seq<u8>
    decreases txs.len(),
{
    if txs.len() == 0 {
        Seq::empty()
    } else {
        txs[0].id + spec_concat_tx_ids(txs.drop_first())
    }
}

pub proof fn lemma_concat_tx_ids_push(txs: Seq<TransactionV>, x: TransactionV)
    ensures
        spec_concat_tx_ids(txs.push(x)) == spec_concat_tx_ids(txs) + x.id,
    decreases txs.len(),
{
    if txs.len() == 0 {
        assert(txs.push(x).drop_first() =~= Seq::<TransactionV>::empty());
        assert(txs.push(x)[0] == x);
        assert(spec_concat_tx_ids(Seq::<TransactionV>::empty()) == Seq::<u8>::empty());
        assert(spec_concat_tx_ids(txs.push(x)) =~= spec_concat_tx_ids(txs) + x.id);
    } else {
        assert(txs.push(x).drop_first() =~= txs.drop_first().push(x));
        assert(txs.push(x)[0] == txs[0]);
        lemma_concat_tx_ids_push(txs.drop_first(), x);
        assert(spec_concat_tx_ids(txs.push(x)) =~= spec_concat_tx_ids(txs) + x.id);
    }
}

/// The text fields a block always carries: the hash is hex, the parent
/// link is hex or the word "None".
pub open spec fn spec_block_text_ok(b: BlockV) -> bool {
    &&& spec_is_hex(b.hash)
    &&& (b.pre_block_hash == "None"@ || spec_is_hex(b.pre_block_hash))
}

/// Canonical bytes of a list of transactions, in order.
pub open spec fn spec_ser_txs(txs: Seq<TransactionV>) -> Seq<u8>
    decreases txs.len(),
{
    if txs.len() == 0 {
        Seq::empty()
    } else {
        spec_ser_tx(txs[0]) + spec_ser_txs(txs.drop_first())
    }
}

pub proof fn lemma_ser_txs_push(txs: Seq<TransactionV>, x: TransactionV)
    ensures
        spec_ser_txs(txs.push(x)) == spec_ser_txs(txs) + spec_ser_tx(x),
    decreases txs.len(),
{
    if txs.len() == 0 {
        assert(txs.push(x).drop_first() =~= Seq::<TransactionV>::empty());
        assert(txs.push(x)[0] == x);
        assert(spec_ser_txs(Seq::<TransactionV>::empty()) == Seq::<u8>::empty());
        assert(spec_ser_txs(txs.push(x)) =~= spec_ser_txs(txs) + spec_ser_tx(x));
    } else {
        assert(txs.push(x).drop_first() =~= txs.drop_first().push(x));
        assert(txs.push(x)[0] == txs[0]);
        lemma_ser_txs_push(txs.drop_first(), x);
        assert(spec_ser_txs(txs.push(x)) =~= spec_ser_txs(txs) + spec_ser_tx(x));
    }
}

/// Canonical bytes of a block: timestamp, tagged parent link, hash, the
/// counted transactions, nonce and height. The two text fields are laid
/// down as the raw bytes their hex text stands for.
pub open spec fn spec_ser_block(b: BlockV) -> Seq<u8> {
    spec_u64_to_le_bytes(b.timestamp as u64) + (if b.pre_block_hash == "None"@ {
        seq![0u8]
    } else {
        seq![1u8] + spec_ser_bytes(spec_hex_decode(b.pre_block_hash))
    }) + spec_ser_bytes(spec_hex_decode(b.hash)) + spec_u64_to_le_bytes(
        b.transactions.len() as u64,
    ) + spec_ser_txs(b.transactions) + spec_u64_to_le_bytes(b.nonce as u64)
        + spec_u64_to_le_bytes(b.height as u64)
}

/// What reading `n` transactions in a row yields.
pub open spec fn spec_parse_txs(d: Seq<u8>, pos: int, n: u64) -> Option<(Seq<TransactionV>, int)>
    decreases n,
{
    if n == 0 {
        Some((Seq::empty(), pos))
    } else {
        match spec_parse_tx(d, pos) {
            Some(p) => match spec_parse_txs(d, p.1, (n - 1) as u64) {
                Some(q) => Some((seq![p.0] + q.0, q.1)),
                None => None,
            },
            None => None,
        }
    }
}

/// What reading the tagged parent link yields: the word "None", or the
/// hex text of the raw bytes that follow the tag.
pub open spec fn spec_parse_pre(d: Seq<u8>, pos: int) -> Option<(Seq<char>, int)> {
    if 0 <= pos && pos < d.len() {
        if d[pos] == 0 {
            Some(("None"@, pos + 1))
        } else if d[pos] == 1 {
            match spec_parse_bytes(d, pos + 1) {
                Some(pr) => Some((spec_hex_encode(pr.0), pr.1)),
                None => None,
            }
        } else {
            None
        }
    } else {
        None
    }
}

/// What reading one whole block at a position yields.
pub open spec fn spec_parse_block(d: Seq<u8>, pos: int) -> Option<(BlockV, int)> {
    match spec_parse_u64(d, pos) {
        Some(pts) => match spec_parse_pre(d, pts.1) {
            Some(pp) => match spec_parse_bytes(d, pp.1) {
                Some(ph) => match spec_parse_u64(d, ph.1) {
                    Some(pn) => match spec_parse_txs(d, pn.1, pn.0) {
                        Some(ptx) => match spec_parse_u64(d, ptx.1) {
                            Some(pnc) => match spec_parse_u64(d, pnc.1) {
                                Some(phh) => if phh.0 <= usize::MAX {
                                    Some(
                                        (
                                            BlockV {
                                                timestamp: pts.0 as i64,
                                                pre_block_hash: pp.0,
                                                hash: spec_hex_encode(ph.0),
                                                transactions: ptx.0,
                                                nonce: pnc.0 as i64,
                                                height: phh.0 as usize,
                                            },
                                            phh.1,
                                        ),
                                    )
                                } else {
                                    None
                                },
                                None => None,
                            },
                            None => None,
                        },
                        None => None,
                    },
                    None => None,
                },
                None => None,
            },
            None => None,
        },
        None => None,
    }
}

/// The length fields of a block's canonical form carry these faithfully.
pub open spec fn spec_block_bounded(b: BlockV) -> bool {
    &&& (b.pre_block_hash == "None"@ || spec_hex_decode(b.pre_block_hash).len() <= u64::MAX)
    &&& spec_hex_decode(b.hash).len() <= u64::MAX
    &&& b.transactions.len() <= u64::MAX
    &&& (forall|i: int| 0 <= i < b.transactions.len() ==> spec_tx_bounded(
        #[trigger] b.transactions[i],
    ))
}

/// Where canonical transactions lie in a row, the parser yields exactly
/// them.
pub proof fn lemma_parse_ser_txs(d: Seq<u8>, pos: int, s: Seq<TransactionV>)
    requires
        0 <= pos,
        s.len() <= u64::MAX,
        forall|i: int| 0 <= i < s.len() ==> spec_tx_bounded(#[trigger] s[i]),
        pos + spec_ser_txs(s).len() <= d.len(),
        d.subrange(pos, pos + spec_ser_txs(s).len()) == spec_ser_txs(s),
    ensures
        spec_parse_txs(d, pos, s.len() as u64) == Some((s, pos + spec_ser_txs(s).len())),
    decreases s.len(),
{
    if s.len() == 0 {
        assert(spec_parse_txs(d, pos, 0) == Some((Seq::<TransactionV>::empty(), pos)));
        assert(s =~= Seq::<TransactionV>::empty());
    } else {
        let whole = spec_ser_txs(s);
        assert forall|i: int|
            pos <= i < pos + whole.len() implies #[trigger] d[i] == whole[i - pos] by {
            assert(d.subrange(pos, pos + whole.len() as int)[i - pos] == whole[i - pos]);
        }
        let l0 = spec_ser_tx(s[0]).len() as int;
        assert(d.subrange(pos, pos + l0) =~= spec_ser_tx(s[0]));
        lemma_parse_ser_tx(d, pos, s[0]);
        let rest = s.drop_first();
        assert forall|i: int| 0 <= i < rest.len() implies spec_tx_bounded(#[trigger] rest[i]) by {
            assert(rest[i] == s[i + 1]);
        }
        assert(d.subrange(pos + l0, pos + l0 + spec_ser_txs(rest).len() as int) =~= spec_ser_txs(
            rest,
        ));
        lemma_parse_ser_txs(d, pos + l0, rest);
        assert((s.len() - 1) as u64 == rest.len() as u64);
        assert(seq![s[0]] + rest =~= s);
    }
}

/// Where a canonical block lies, the parser yields exactly it: the
/// encoding loses nothing.
#[verifier::rlimit(100)]
pub proof fn lemma_parse_ser_block(d: Seq<u8>, pos: int, b: BlockV)
    requires
        0 <= pos,
        spec_block_text_ok(b),
        spec_block_bounded(b),
        pos + spec_ser_block(b).len() <= d.len(),
        d.subrange(pos, pos + spec_ser_block(b).len()) == spec_ser_block(b),
    ensures
        spec_parse_block(d, pos) == Some((b, pos + spec_ser_block(b).len())),
{
    vstd::bytes::lemma_auto_spec_u64_to_from_le_bytes();
    let whole = spec_ser_block(b);
    assert forall|i: int| pos <= i < pos + whole.len() implies #[trigger] d[i] == whole[i - pos]
        by {
        assert(d.subrange(pos, pos + whole.len() as int)[i - pos] == whole[i - pos]);
    }
    let p0 = pos + 8;
    assert(d.subrange(pos, p0) =~= spec_u64_to_le_bytes(b.timestamp as u64));
    lemma_parse_ser_u64(d, pos, b.timestamp as u64);
    let tsv: i64 = b.timestamp;
    assert((tsv as u64) as i64 == tsv) by (bit_vector);
    let pe: int = if b.pre_block_hash == "None"@ {
        p0 + 1
    } else {
        p0 + 1 + 8 + spec_hex_decode(b.pre_block_hash).len() as int
    };
    if b.pre_block_hash == "None"@ {
        assert(d[p0] == 0);
        assert(spec_parse_pre(d, p0) == Some((b.pre_block_hash, pe)));
    } else {
        assert(d[p0] == 1);
        let raw = spec_hex_decode(b.pre_block_hash);
        assert(d.subrange(p0 + 1, p0 + 1 + 8 + raw.len() as int) =~= spec_ser_bytes(raw));
        lemma_parse_ser_bytes(d, p0 + 1, raw);
        lemma_hex_encode_decode(b.pre_block_hash);
        assert(spec_parse_pre(d, p0) == Some((b.pre_block_hash, pe)));
    }
    let hraw = spec_hex_decode(b.hash);
    let p2 = pe + 8 + hraw.len() as int;
    assert(d.subrange(pe, p2) =~= spec_ser_bytes(hraw));
    lemma_parse_ser_bytes(d, pe, hraw);
    lemma_hex_encode_decode(b.hash);
    let p3 = p2 + 8;
    assert(d.subrange(p2, p3) =~= spec_u64_to_le_bytes(b.transactions.len() as u64));
    lemma_parse_ser_u64(d, p2, b.transactions.len() as u64);
    let p4 = p3 + spec_ser_txs(b.transactions).len() as int;
    assert(d.subrange(p3, p4) =~= spec_ser_txs(b.transactions));
    lemma_parse_ser_txs(d, p3, b.transactions);
    let p5 = p4 + 8;
    assert(d.subrange(p4, p5) =~= spec_u64_to_le_bytes(b.nonce as u64));
    lemma_parse_ser_u64(d, p4, b.nonce as u64);
    let ncv: i64 = b.nonce;
    assert((ncv as u64) as i64 == ncv) by (bit_vector);
    let p6 = p5 + 8;
    assert(d.subrange(p5, p6) =~= spec_u64_to_le_bytes(b.height as u64));
    lemma_parse_ser_u64(d, p5, b.height as u64);
    assert(b.height as u64 <= usize::MAX);
    assert(spec_parse_block(d, pos) == Some((b, p6)));
}

/// Equal canonical bytes come from equal well-formed blocks: the
/// encoding is one to one.
pub proof fn lemma_ser_block_injective(a: BlockV, b: BlockV)
    requires
        spec_block_text_ok(a),
        spec_block_bounded(a),
        spec_block_text_ok(b),
        spec_block_bounded(b),
        spec_ser_block(a) == spec_ser_block(b),
    ensures
        a == b,
{
    let d = spec_ser_block(a);
    assert(d.subrange(0, d.len() as int) =~= d);
    lemma_parse_ser_block(d, 0, a);
    lemma_parse_ser_block(d, 0, b);
}

/// No well-formed bounded block has this byte string as its canonical
/// form.
proof fn lemma_block_no_canonical(bytes: Seq<u8>)
    requires
        match spec_parse_block(bytes, 0) {
            Some(p) => p.1 != bytes.len(),
            None => true,
        },
    ensures
        forall|b: BlockV|
            spec_block_text_ok(b) && spec_block_bounded(b) ==> spec_ser_block(b) != bytes,
{
    assert forall|b: BlockV|
        spec_block_text_ok(b) && spec_block_bounded(b) implies spec_ser_block(b) != bytes by {
        if spec_ser_block(b) == bytes {
            assert(bytes.subrange(0, bytes.len() as int) =~= bytes);
            lemma_parse_ser_block(bytes, 0, b);
        }
    }
}

pub(crate) fn clone_transactions(v: &Vec<Transaction>) -> (r: Vec<Transaction>)
    ensures
        r.deep_view() == v.deep_view(),
{
    let mut r: Vec<Transaction> = Vec::new();
    let mut i: usize = 0;
    while i < v.len()
        invariant
            i <= v@.len(),
            r.deep_view() =~= v.deep_view().take(i as int),
        decreases v@.len() - i,
    {
        let ghost prev = r.deep_view();
        r.push(v[i].clone());
        proof {
            assert(r.deep_view() =~= prev.push(v.deep_view()[i as int]));
            assert(v.deep_view().take(i + 1) =~= v.deep_view().take(i as int).push(
                v.deep_view()[i as int],
            ));
        }
        i = i + 1;
    }
    proof {
        assert(r.deep_view() =~= v.deep_view());
    }
    r
}

pub(crate) fn clone_blocks(v: &Vec<Block>) -> (r: Vec<Block>)
    ensures
        r.deep_view() == v.deep_view(),
{
    let mut r: Vec<Block> = Vec::new();
    let mut i: usize = 0;
    while i < v.len()
        invariant
            i <= v@.len(),
            r.deep_view() =~= v.deep_view().take(i as int),
        decreases v@.len() - i,
    {
        let ghost prev = r.deep_view();
        r.push(v[i].clone());
        proof {
            assert(r.deep_view() =~= prev.push(v.deep_view()[i as int]));
            assert(v.deep_view().take(i + 1) =~= v.deep_view().take(i as int).push(
                v.deep_view()[i as int],
            ));
        }
        i = i + 1;
    }
    proof {
        assert(r.deep_view() =~= v.deep_view());
    }
    r
}

fn clone_tx_slice(v: &[Transaction]) -> (r: Vec<Transaction>)
    ensures
        r.deep_view() == v.deep_view(),
{
    let mut r: Vec<Transaction> = Vec::new();
    let mut i: usize = 0;
    while i < v.len()
        invariant
            i <= v@.len(),
            r.deep_view() =~= v.deep_view().take(i as int),
        decreases v@.len() - i,
    {
        let ghost prev = r.deep_view();
        r.push(v[i].clone());
        proof {
            assert(r.deep_view() =~= prev.push(v.deep_view()[i as int]));
            assert(v.deep_view().take(i + 1) =~= v.deep_view().take(i as int).push(
                v.deep_view()[i as int],
            ));
        }
        i = i + 1;
    }
    proof {
        assert(r.deep_view() =~= v.deep_view());
    }
    r
}

impl Block {
    /// Hash text is hex; the parent link is hex or "None".
    #[verifier::type_invariant]
    pub closed spec fn wf(self) -> bool {
        spec_block_text_ok(self@)
    }

    /// Restates, for callers, the text shape every block keeps.
    pub fn text_facts(&self)
        ensures
            spec_block_text_ok(self@),
    {
        proof {
            use_type_invariant(self);
        }
    }

    /// The parent link is ASCII text.
    pub proof fn lemma_pre_hash_ascii(&self)
        requires
            spec_block_text_ok(self@),
        ensures
            vstd::utf8::is_ascii_chars(self@.pre_block_hash),
            vstd::utf8::is_ascii_chars(self@.hash),
    {
        reveal_strlit("None");
        if self@.pre_block_hash == "None"@ {
            assert forall|i: int|
                0 <= i < self@.pre_block_hash.len() implies '\0' <= #[trigger] self@
                .pre_block_hash[i] <= '\u{7f}' by {}
        } else {
            lemma_hex_is_ascii(self@.pre_block_hash);
        }
        lemma_hex_is_ascii(self@.hash);
    }

    /// Mines a new block on the given parent: stamps the clock, searches
    /// for a nonce, and stores the winning digest's hex text. `None` only
    /// when the whole nonce space is exhausted.
    pub fn new(pre_block_hash: String, transactions: &[Transaction], height: usize) -> (r:
        Option<Block>)
        requires
            pre_block_hash@ == "None"@ || spec_is_hex(pre_block_hash@),
        ensures
            (r matches Some(b) ==> {
                &&& b@.pre_block_hash == pre_block_hash@
                &&& b@.transactions == transactions.deep_view()
                &&& b@.height == height
                &&& b@.timestamp >= 0
                &&& spec_block_pow_ok(b@)
                &&& spec_block_text_ok(b@)
            }),
            r is None ==> exists|ts: i64|
                0 <= ts && #[trigger] spec_search_exhausted(
                    BlockV {
                        timestamp: ts,
                        pre_block_hash: pre_block_hash@,
                        hash: Seq::empty(),
                        transactions: transactions.deep_view(),
                        nonce: 0,
                        height,
                    },
                ),
    {
        let txs = clone_tx_slice(transactions);
        let timestamp = current_timestamp();
        let candidate = Block {
            timestamp,
            pre_block_hash,
            hash: String::new(),
            transactions: txs,
            nonce: 0,
            height,
        };
        let pow = ProofOfWork::new(candidate.clone());
        match pow.run() {
            Some((nonce, hash)) => {
                let Block { timestamp, pre_block_hash, hash: _, transactions, nonce: _, height } =
                    candidate;
                let b = Block { timestamp, pre_block_hash, hash, transactions, nonce, height };
                proof {
                    assert(spec_prepare_data_same(b@, pow.spec_block()));
                }
                Some(b)
            },
            None => {
                proof {
                    assert(pow.spec_block() == BlockV {
                        timestamp: candidate@.timestamp,
                        pre_block_hash: candidate@.pre_block_hash,
                        hash: Seq::empty(),
                        transactions: transactions.deep_view(),
                        nonce: 0,
                        height,
                    });
                }
                None
            },
        }
    }

    /// The genesis block: parent link "None", height zero, one
    /// transaction.
    pub fn generate_genesis(transaction: &Transaction) -> (r: Option<Block>)
        ensures
            (r matches Some(b) ==> {
                &&& b@.pre_block_hash == "None"@
                &&& b@.height == 0
                &&& b@.transactions.len() == 1
                &&& b@.transactions[0] == transaction@
                &&& b@.timestamp >= 0
                &&& spec_block_pow_ok(b@)
                &&& spec_block_text_ok(b@)
            }),
            r is None ==> exists|ts: i64|
                0 <= ts && #[trigger] spec_search_exhausted(
                    BlockV {
                        timestamp: ts,
                        pre_block_hash: "None"@,
                        hash: Seq::empty(),
                        transactions: seq![transaction@],
                        nonce: 0,
                        height: 0,
                    },
                ),
    {
        let mut transactions: Vec<Transaction> = Vec::new();
        transactions.push(transaction.clone());
        let r = Block::new(String::from_str("None"), transactions.as_slice(), 0);
        proof {
            assert(transactions.deep_view() =~= seq![transaction@]);
        }
        r
    }

    /// Digest of the member transaction ids laid end to end.
    pub fn hash_transactions(&self) -> (r: Vec<u8>)
        ensures
            r@ == sha256_of(spec_concat_tx_ids(self@.transactions)),
            r@.len() == 32,
    {
        let mut txhashs: Vec<u8> = Vec::new();
        let mut i: usize = 0;
        while i < self.transactions.len()
            invariant
                i <= self.transactions@.len(),
                txhashs@ == spec_concat_tx_ids(self@.transactions.take(i as int)),
            decreases self.transactions@.len() - i,
        {
            proof {
                lemma_concat_tx_ids_push(
                    self@.transactions.take(i as int),
                    self@.transactions[i as int],
                );
                assert(self@.transactions.take(i as int).push(self@.transactions[i as int])
                    =~= self@.transactions.take(i + 1));
            }
            let ghost prev = txhashs@;
            txhashs.extend_from_slice(self.transactions[i].get_id());
            proof {
                assert(txhashs@ =~= prev + self@.transactions[i as int].id);
            }
            i = i + 1;
        }
        proof {
            assert(self@.transactions.take(self.transactions@.len() as int)
                =~= self@.transactions);
        }
        sha256_digest(txhashs.as_slice())
    }

    pub fn get_transactions(&self) -> (r: &[Transaction])
        ensures
            r.deep_view() == self@.transactions,
    {
        self.transactions.as_slice()
    }

    pub fn get_pre_block_hash(&self) -> (r: String)
        ensures
            r@ == self@.pre_block_hash,
    {
        self.pre_block_hash.clone()
    }

    pub fn get_hash(&self) -> (r: &str)
        ensures
            r@ == self@.hash,
    {
        self.hash.as_str()
    }

    /// The bytes of the hash text, one per character.
    pub fn get_hash_bytes(&self) -> (r: Vec<u8>)
        ensures
            r@ == crate::codec::spec_ascii_bytes(self@.hash),
    {
        proof {
            use_type_invariant(self);
            lemma_hex_is_ascii(self@.hash);
        }
        crate::codec::ascii_bytes(self.hash.as_str())
    }

    pub fn get_timestamp(&self) -> (r: i64)
        ensures
            r == self@.timestamp,
    {
        self.timestamp
    }

    pub fn get_height(&self) -> (r: usize)
        ensures
            r == self@.height,
    {
        self.height
    }

    pub fn get_nonce(&self) -> (r: i64)
        ensures
            r == self@.nonce,
    {
        self.nonce
    }

    /// The canonical bytes of this block.
    pub fn serialize(&self) -> (r: Vec<u8>)
        ensures
            r@ == spec_ser_block(self@),
            spec_block_bounded(self@),
    {
        proof {
            use_type_invariant(self);
        }
        let mut out: Vec<u8> = Vec::new();
        write_u64(&mut out, self.timestamp as u64);
        if crate::codec::str_eq(self.pre_block_hash.as_str(), "None") {
            out.push(0u8);
        } else {
            out.push(1u8);
            match hex_decode(self.pre_block_hash.as_str()) {
                Some(raw) => {
                    proof {
                        lemma_hex_decode_encode(raw@);
                    }
                    write_bytes(&mut out, raw.as_slice());
                },
                None => {
                    proof {
                        assert(false);
                    }
                },
            }
        }
        match hex_decode(self.hash.as_str()) {
            Some(raw) => {
                proof {
                    lemma_hex_decode_encode(raw@);
                }
                write_bytes(&mut out, raw.as_slice());
            },
            None => {
                proof {
                    assert(false);
                }
            },
        }
        write_u64(&mut out, self.transactions.len() as u64);
        let ghost head = out@;
        let mut i: usize = 0;
        while i < self.transactions.len()
            invariant
                i <= self.transactions@.len(),
                out@ == head + spec_ser_txs(self@.transactions.take(i as int)),
                forall|q: int| 0 <= q < i ==> spec_tx_bounded(#[trigger] self@.transactions[q]),
            decreases self.transactions@.len() - i,
        {
            proof {
                lemma_ser_txs_push(self@.transactions.take(i as int), self@.transactions[i as int]);
                assert(self@.transactions.take(i as int).push(self@.transactions[i as int])
                    =~= self@.transactions.take(i + 1));
            }
            let mut ser = self.transactions[i].serialize();
            out.append(&mut ser);
            i = i + 1;
        }
        proof {
            assert(self@.transactions.take(self.transactions@.len() as int)
                =~= self@.transactions);
        }
        write_u64(&mut out, self.nonce as u64);
        write_u64(&mut out, self.height as u64);
        proof {
            assert(out@ =~= spec_ser_block(self@));
        }
        out
    }

    /// Reads a block back from canonical bytes. Succeeds exactly on byte
    /// strings that are the canonical form of a well-formed value, and
    /// yields that value.
    #[verifier::rlimit(100)]
    pub fn deserialize(bytes: &[u8]) -> (r: Option<Block>)
        ensures
            (r matches Some(b) ==> spec_ser_block(b@) == bytes@ && spec_block_text_ok(b@)
                && spec_parse_block(bytes@, 0) == Some((b@, bytes@.len() as int))),
            r is None ==> forall|b: BlockV|
                spec_block_text_ok(b) && spec_block_bounded(b) ==> spec_ser_block(b) != bytes@,
    {
        let (ts64, p0) = match read_u64(bytes, 0) {
            Some(p) => p,
            None => {
                proof {
                    lemma_block_no_canonical(bytes@);
                }
                return None;
            },
        };
        let timestamp = ts64 as i64;
        proof {
            assert(timestamp as u64 == ts64) by (bit_vector)
                requires
                    timestamp == ts64 as i64,
            ;
        }
        if p0 >= bytes.len() {
            proof {
                lemma_block_no_canonical(bytes@);
            }
            return None;
        }
        let tag = bytes[p0];
        let mut pos = p0 + 1;
        let pre_block_hash: String;
        if tag == 0 {
            pre_block_hash = String::from_str("None");
        } else if tag == 1 {
            let (raw, p1) = match read_bytes(bytes, pos) {
                Some(p) => p,
                None => {
                    proof {
                        lemma_block_no_canonical(bytes@);
                    }
                    return None;
                },
            };
            pre_block_hash = hex_encode(raw.as_slice());
            pos = p1;
            proof {
                lemma_hex_decode_encode(raw@);
                lemma_hex_ne_none(pre_block_hash@);
            }
        } else {
            proof {
                lemma_block_no_canonical(bytes@);
            }
            return None;
        }
        proof {
            assert(spec_parse_pre(bytes@, p0 as int) == Some((pre_block_hash@, pos as int)));
        }
        let (hraw, p2) = match read_bytes(bytes, pos) {
            Some(p) => p,
            None => {
                proof {
                    lemma_block_no_canonical(bytes@);
                }
                return None;
            },
        };
        let ghost hrawv = hraw@;
        let hash = hex_encode(hraw.as_slice());
        proof {
            lemma_hex_decode_encode(hraw@);
        }
        let (ntx, p3) = match read_u64(bytes, p2) {
            Some(p) => p,
            None => {
                proof {
                    lemma_block_no_canonical(bytes@);
                }
                return None;
            },
        };
        let mut transactions: Vec<Transaction> = Vec::new();
        let mut pos2 = p3;
        let mut k: u64 = 0;
        proof {
            assert(transactions.deep_view() =~= Seq::<TransactionV>::empty());
            if spec_parse_txs(bytes@, p3 as int, ntx) is Some {
                let q = spec_parse_txs(bytes@, p3 as int, ntx)->Some_0;
                assert(transactions.deep_view() + q.0 =~= q.0);
            }
        }
        while k < ntx
            invariant
                k <= ntx,
                transactions@.len() == k,
                p0 < bytes@.len(),
                pos <= p2 <= p3 <= pos2 <= bytes@.len(),
                spec_parse_u64(bytes@, 0) == Some((ts64, p0 as int)),
                spec_parse_pre(bytes@, p0 as int) == Some((pre_block_hash@, pos as int)),
                spec_parse_bytes(bytes@, pos as int) == Some((hrawv, p2 as int)),
                hash@ == crate::hex::spec_hex_encode(hrawv),
                spec_parse_u64(bytes@, p2 as int) == Some((ntx, p3 as int)),
                spec_ser_txs(transactions.deep_view()) == bytes@.subrange(p3 as int, pos2 as int),
                match spec_parse_txs(bytes@, pos2 as int, (ntx - k) as u64) {
                    Some(q) => spec_parse_txs(bytes@, p3 as int, ntx) == Some(
                        (transactions.deep_view() + q.0, q.1),
                    ),
                    None => spec_parse_txs(bytes@, p3 as int, ntx) is None,
                },
            decreases ntx - k,
        {
            let ghost prev = transactions.deep_view();
            let ghost prev_pos = pos2;
            let (tx, p4) = match read_tx(bytes, pos2) {
                Some(p) => p,
                None => {
                    proof {
                        assert(spec_parse_txs(bytes@, pos2 as int, (ntx - k) as u64) is None);
                        lemma_block_no_canonical(bytes@);
                    }
                    return None;
                },
            };
            transactions.push(tx);
            pos2 = p4;
            k = k + 1;
            proof {
                assert(transactions.deep_view() =~= prev.push(tx@));
                lemma_ser_txs_push(prev, tx@);
                assert(bytes@.subrange(p3 as int, pos2 as int) =~= bytes@.subrange(
                    p3 as int,
                    prev_pos as int,
                ) + bytes@.subrange(prev_pos as int, pos2 as int));
                let nb = (ntx + 1 - k) as u64;
                if spec_parse_txs(bytes@, pos2 as int, (ntx - k) as u64) is Some {
                    let q = spec_parse_txs(bytes@, pos2 as int, (ntx - k) as u64)->Some_0;
                    assert(spec_parse_txs(bytes@, prev_pos as int, nb) == Some(
                        (seq![tx@] + q.0, q.1),
                    ));
                    assert(prev + (seq![tx@] + q.0) =~= transactions.deep_view() + q.0);
                } else {
                    assert(spec_parse_txs(bytes@, prev_pos as int, nb) is None);
                }
            }
        }
        proof {
            assert(spec_parse_txs(bytes@, pos2 as int, 0) == Some(
                (Seq::<TransactionV>::empty(), pos2 as int),
            ));
            assert(transactions.deep_view() + Seq::<TransactionV>::empty()
                =~= transactions.deep_view());
            assert(spec_parse_txs(bytes@, p3 as int, ntx) == Some(
                (transactions.deep_view(), pos2 as int),
            ));
        }
        let (nonce64, p5) = match read_u64(bytes, pos2) {
            Some(p) => p,
            None => {
                proof {
                    lemma_block_no_canonical(bytes@);
                }
                return None;
            },
        };
        let nonce = nonce64 as i64;
        proof {
            assert(nonce as u64 == nonce64) by (bit_vector)
                requires
                    nonce == nonce64 as i64,
            ;
        }
        let (height64, p6) = match read_u64(bytes, p5) {
            Some(p) => p,
            None => {
                proof {
                    lemma_block_no_canonical(bytes@);
                }
                return None;
            },
        };
        if height64 > usize::MAX as u64 {
            proof {
                lemma_block_no_canonical(bytes@);
            }
            return None;
        }
        let height = height64 as usize;
        let b = Block { timestamp, pre_block_hash, hash, transactions, nonce, height };
        proof {
            assert(height as u64 == height64);
            assert(b@.transactions.len() as u64 == ntx);
            assert(spec_parse_block(bytes@, 0) == Some((b@, p6 as int)));
        }
        if p6 != bytes.len() {
            proof {
                lemma_block_no_canonical(bytes@);
            }
            return None;
        }
        proof {
            assert(bytes@ =~= bytes@.subrange(0, p0 as int) + bytes@.subrange(
                p0 as int,
                p0 + 1,
            ) + bytes@.subrange(p0 + 1, pos as int) + bytes@.subrange(pos as int, p2 as int)
                + bytes@.subrange(p2 as int, p3 as int) + bytes@.subrange(p3 as int, pos2 as int)
                + bytes@.subrange(pos2 as int, p5 as int) + bytes@.subrange(p5 as int, p6 as int));
            assert(bytes@.subrange(p0 as int, p0 + 1) =~= seq![tag]);
            assert(spec_ser_block(b@) =~= bytes@);
        }
        Some(b)
    }
}

/// Header bytes depend only on the fields that `new` copies over, so the
/// freshly built block hashes like the candidate the search ran on.
pub open spec fn spec_prepare_data_same(a: BlockV, b: BlockV) -> bool {
    a.pre_block_hash == b.pre_block_hash && a.transactions == b.transactions && a.timestamp
        == b.timestamp
}

impl Clone for Block {
    fn clone(&self) -> (r: Self)
        ensures
            r@ == self@,
    {
        proof {
            use_type_invariant(self);
        }
        Block {
            timestamp: self.timestamp,
            pre_block_hash: self.pre_block_hash.clone(),
            hash: self.hash.clone(),
            transactions: clone_transactions(&self.transactions),
            nonce: self.nonce,
            height: self.height,
        }
    }
}

} // verus!
