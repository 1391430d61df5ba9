//! The unspent-output index: for each transaction id, the outputs of
//! that transaction not yet consumed by any input on the chain.
//!
//! The index is derived data. `reindex` rebuilds it from a full chain
//! walk; `update` folds one confirmed block into it, removing spent
//! outputs by position and entering the block's own outputs. When an
//! output is removed, the survivors close ranks, as the stored list has
//! no gaps; spending from a partially spent transaction therefore names
//! positions in the stored list, which `find_spendable_outputs` hands
//! out.

use vstd::prelude::*;

use crate::block::{Block, BlockV};
use crate::blockchain::Blockchain;
use crate::codec::bytes_eq;
use crate::transactions::{
    spec_is_coinbase, Transaction, TransactionV, TXInput, TXInputV, TXOutput, TXOutputV,
    clone_outputs,
};

verus! {

broadcast use {crate::codec::lemma_deep_view_u8, crate::codec::lemma_deep_view_usize};

/// The index: transaction id bytes, each with its unspent outputs.
pub type UtxoEntries = Vec<(Vec<u8>, Vec<TXOutput>)>;

/// Mathematical form of the index.
pub type UtxoV = Seq<(Seq<u8>, Seq<TXOutputV>)>;

/// Spent positions collected during a chain walk: transaction id bytes,
/// each with the output positions already consumed.
pub type SpentV = Seq<(Seq<u8>, Seq<usize>)>;

/// The position of the first entry with the given key.
pub open spec fn spec_assoc_idx<T>(m: Seq<(Seq<u8>, T)>, k: Seq<u8>) -> Option<int>
    decreases m.len(),
{
    if m.len() == 0 {
        None
    } else if m[0].0 == k {
        Some(0int)
    } else {
        match spec_assoc_idx(m.drop_first(), k) {
            Some(i) => Some(i + 1),
            None => None,
        }
    }
}

/// Appends one unspent output under the given id, opening the entry when
/// it is new.
pub open spec fn spec_utxo_append(m: UtxoV, k: Seq<u8>, o: TXOutputV) -> UtxoV {
    match spec_assoc_idx(m, k) {
        Some(i) => m.update(i, (m[i].0, m[i].1.push(o))),
        None => m.push((k, seq![o])),
    }
}

/// Whether position `v` of transaction `k` has been seen spent.
pub open spec fn spec_spent_contains(sp: SpentV, k: Seq<u8>, v: usize) -> bool {
    match spec_assoc_idx(sp, k) {
        Some(i) => sp[i].1.contains(v),
        None => false,
    }
}

/// Records position `v` of transaction `k` as spent.
pub open spec fn spec_spent_insert(sp: SpentV, k: Seq<u8>, v: usize) -> SpentV {
    match spec_assoc_idx(sp, k) {
        Some(i) => sp.update(i, (sp[i].0, sp[i].1.push(v))),
        None => sp.push((k, seq![v])),
    }
}

/// Folds one transaction's outputs into the index, from position `j` on,
/// skipping positions already seen spent.
pub open spec fn spec_add_outputs(
    u: UtxoV,
    sp: SpentV,
    txid: Seq<u8>,
    outs: Seq<TXOutputV>,
    j: int,
) -> UtxoV
    decreases outs.len() - j,
{
    if j < 0 || j >= outs.len() {
        u
    } else {
        let u2 = if spec_spent_contains(sp, txid, j as usize) {
            u
        } else {
            spec_utxo_append(u, txid, outs[j])
        };
        spec_add_outputs(u2, sp, txid, outs, j + 1)
    }
}

/// Records one transaction's inputs as spent, from position `j` on.
pub open spec fn spec_add_inputs(sp: SpentV, vins: Seq<TXInputV>, j: int) -> SpentV
    decreases vins.len() - j,
{
    if j < 0 || j >= vins.len() {
        sp
    } else {
        spec_add_inputs(spec_spent_insert(sp, vins[j].txid, vins[j].vout), vins, j + 1)
    }
}

/// Folds one transaction: outputs first, against the spent positions
/// gathered so far, then its inputs, unless it is a coinbase.
pub open spec fn spec_process_tx(u: UtxoV, sp: SpentV, t: TransactionV) -> (UtxoV, SpentV) {
    (
        spec_add_outputs(u, sp, t.id, t.vout, 0),
        if spec_is_coinbase(t) {
            sp
        } else {
            spec_add_inputs(sp, t.vin, 0)
        },
    )
}

/// Folds a block's transactions in order, from position `j` on.
pub open spec fn spec_process_txs(
    u: UtxoV,
    sp: SpentV,
    txs: Seq<TransactionV>,
    j: int,
) -> (UtxoV, SpentV)
    decreases txs.len() - j,
{
    if j < 0 || j >= txs.len() {
        (u, sp)
    } else {
        let p = spec_process_tx(u, sp, txs[j]);
        spec_process_txs(p.0, p.1, txs, j + 1)
    }
}

/// Folds the chain newest block first, from position `j` on.
pub open spec fn spec_process_blocks(
    u: UtxoV,
    sp: SpentV,
    c: Seq<BlockV>,
    j: int,
) -> (UtxoV, SpentV)
    decreases c.len() - j,
{
    if j < 0 || j >= c.len() {
        (u, sp)
    } else {
        let p = spec_process_txs(u, sp, c[j].transactions, 0);
        spec_process_blocks(p.0, p.1, c, j + 1)
    }
}

/// Every unspent output of the chain: what a full walk discovers.
pub open spec fn spec_find_utxo(c: Seq<BlockV>) -> UtxoV {
    spec_process_blocks(Seq::empty(), Seq::empty(), c, 0).0
}

// ---------------------------------------------------------------------
// Executable mirrors of the fold steps
// ---------------------------------------------------------------------
/// The position of the first index entry with the given key.
pub(crate) fn utxo_idx(m: &UtxoEntries, k: &[u8]) -> (r: Option<usize>)
    ensures
        match r {
            Some(i) => spec_assoc_idx(m.deep_view(), k@) == Some(i as int) && i < m@.len(),
            None => spec_assoc_idx(m.deep_view(), k@) is None,
        },
{
    let n = m.len();
    let mut i: usize = 0;
    while i < n
        invariant
            n == m@.len(),
            i <= n,
            forall|j: int| 0 <= j < i ==> (#[trigger] m.deep_view()[j]).0 != k@,
        decreases n - i,
    {
        if bytes_eq(m[i].0.as_slice(), k) {
            proof {
                lemma_assoc_idx_at(m.deep_view(), k@, i as int);
            }
            return Some(i);
        }
        i = i + 1;
    }
    proof {
        lemma_assoc_idx_none(m.deep_view(), k@);
    }
    None
}

/// The position of the first spent entry with the given key.
fn spent_idx(m: &Vec<(Vec<u8>, Vec<usize>)>, k: &[u8]) -> (r: Option<usize>)
    ensures
        match r {
            Some(i) => spec_assoc_idx(m.deep_view(), k@) == Some(i as int) && i < m@.len(),
            None => spec_assoc_idx(m.deep_view(), k@) is None,
        },
{
    let n = m.len();
    let mut i: usize = 0;
    while i < n
        invariant
            n == m@.len(),
            i <= n,
            forall|j: int| 0 <= j < i ==> (#[trigger] m.deep_view()[j]).0 != k@,
        decreases n - i,
    {
        if bytes_eq(m[i].0.as_slice(), k) {
            proof {
                lemma_assoc_idx_at(m.deep_view(), k@, i as int);
            }
            return Some(i);
        }
        i = i + 1;
    }
    proof {
        lemma_assoc_idx_none(m.deep_view(), k@);
    }
    None
}

pub proof fn lemma_assoc_idx_at<T>(m: Seq<(Seq<u8>, T)>, k: Seq<u8>, i: int)
    requires
        0 <= i < m.len(),
        m[i].0 == k,
        forall|j: int| 0 <= j < i ==> (#[trigger] m[j]).0 != k,
    ensures
        spec_assoc_idx(m, k) == Some(i),
    decreases i,
{
    if i > 0 {
        assert forall|j: int| 0 <= j < i - 1 implies (#[trigger] m.drop_first()[j]).0 != k by {
            assert(m.drop_first()[j] == m[j + 1]);
        }
        lemma_assoc_idx_at(m.drop_first(), k, i - 1);
        assert(m.drop_first()[i - 1] == m[i]);
    }
}

pub proof fn lemma_assoc_idx_none<T>(m: Seq<(Seq<u8>, T)>, k: Seq<u8>)
    requires
        forall|j: int| 0 <= j < m.len() ==> (#[trigger] m[j]).0 != k,
    ensures
        spec_assoc_idx(m, k) is None,
    decreases m.len(),
{
    if m.len() > 0 {
        assert forall|j: int|
            0 <= j < m.drop_first().len() implies (#[trigger] m.drop_first()[j]).0 != k by {
            assert(m.drop_first()[j] == m[j + 1]);
        }
        lemma_assoc_idx_none(m.drop_first(), k);
    }
}

/// Appends one unspent output under the given id.
pub(crate) fn utxo_append(m: &mut UtxoEntries, k: &[u8], o: TXOutput)
    ensures
        final(m).deep_view() == spec_utxo_append(old(m).deep_view(), k@, o@),
{
    let ghost mv = m.deep_view();
    let ghost ov = o@;
    match utxo_idx(m, k) {
        Some(i) => {
            let (key, mut outs) = m.remove(i);
            let ghost outsv = outs.deep_view();
            outs.push(o);
            proof {
                assert(outs.deep_view() =~= outsv.push(ov));
            }
            m.insert(i, (key, outs));
            proof {
                assert(final(m).deep_view() =~~= spec_utxo_append(mv, k@, ov));
            }
        },
        None => {
            let mut kk: Vec<u8> = Vec::new();
            kk.extend_from_slice(k);
            let mut outs: Vec<TXOutput> = Vec::new();
            outs.push(o);
            proof {
                assert(kk@ =~= k@);
                assert(outs.deep_view() =~= seq![ov]);
            }
            m.push((kk, outs));
            proof {
                assert(final(m).deep_view() =~~= spec_utxo_append(mv, k@, ov));
            }
        },
    }
}

/// Whether position `v` of transaction `k` has been seen spent.
fn spent_contains(sp: &Vec<(Vec<u8>, Vec<usize>)>, k: &[u8], v: usize) -> (r: bool)
    ensures
        r == spec_spent_contains(sp.deep_view(), k@, v),
{
    match spent_idx(sp, k) {
        Some(i) => {
            let list = &sp[i].1;
            let n = list.len();
            let mut j: usize = 0;
            while j < n
                invariant
                    n == list@.len(),
                    i < sp@.len(),
                    spec_assoc_idx(sp.deep_view(), k@) == Some(i as int),
                    list@ == sp@[i as int].1@,
                    forall|q: int| 0 <= q < j ==> list@[q] != v,
                    j <= n,
                decreases n - j,
            {
                if list[j] == v {
                    proof {
                        assert(sp.deep_view()[i as int].1.contains(v));
                    }
                    return true;
                }
                j = j + 1;
            }
            proof {
                assert(sp.deep_view()[i as int].1 =~= list@);
                assert(!sp.deep_view()[i as int].1.contains(v));
            }
            false
        },
        None => false,
    }
}

/// Records position `v` of transaction `k` as spent.
fn spent_insert(sp: &mut Vec<(Vec<u8>, Vec<usize>)>, k: &[u8], v: usize)
    ensures
        final(sp).deep_view() == spec_spent_insert(old(sp).deep_view(), k@, v),
{
    let ghost spv = sp.deep_view();
    match spent_idx(sp, k) {
        Some(i) => {
            let (key, mut list) = sp.remove(i);
            let ghost listv = list@;
            list.push(v);
            sp.insert(i, (key, list));
            proof {
                assert(final(sp).deep_view() =~~= spec_spent_insert(spv, k@, v));
            }
        },
        None => {
            let mut kk: Vec<u8> = Vec::new();
            kk.extend_from_slice(k);
            let mut list: Vec<usize> = Vec::new();
            list.push(v);
            proof {
                assert(kk@ =~= k@);
            }
            sp.push((kk, list));
            proof {
                assert(final(sp).deep_view() =~~= spec_spent_insert(spv, k@, v));
            }
        },
    }
}

/// Folds one transaction into the walk state: unspent outputs in, spent
/// positions recorded.
pub(crate) fn process_tx(
    u: &mut UtxoEntries,
    sp: &mut Vec<(Vec<u8>, Vec<usize>)>,
    tx: &Transaction,
)
    ensures
        final(u).deep_view() == spec_process_tx(old(u).deep_view(), old(sp).deep_view(), tx@).0,
        final(sp).deep_view() == spec_process_tx(old(u).deep_view(), old(sp).deep_view(), tx@).1,
{
    let ghost u0 = u.deep_view();
    let ghost sp0 = sp.deep_view();
    let txid = tx.get_id_bytes();
    let vout = tx.get_vout();
    let n = vout.len();
    let mut j: usize = 0;
    while j < n
        invariant
            n == vout@.len(),
            j <= n,
            txid@ == tx@.id,
            vout.deep_view() == tx@.vout,
            sp.deep_view() == sp0,
            spec_add_outputs(u.deep_view(), sp0, tx@.id, tx@.vout, j as int) == spec_add_outputs(
                u0,
                sp0,
                tx@.id,
                tx@.vout,
                0,
            ),
        decreases n - j,
    {
        if !spent_contains(sp, txid.as_slice(), j) {
            utxo_append(u, txid.as_slice(), vout[j].clone());
            proof {
                assert(vout.deep_view()[j as int] == tx@.vout[j as int]);
            }
        }
        j = j + 1;
    }
    if !tx.is_coinbase() {
        let vin = tx.get_vin();
        let m = vin.len();
        let mut i: usize = 0;
        while i < m
            invariant
                m == vin@.len(),
                i <= m,
                vin.deep_view() == tx@.vin,
                u.deep_view() == spec_process_tx(u0, sp0, tx@).0,
                spec_add_inputs(sp.deep_view(), tx@.vin, i as int) == spec_add_inputs(
                    sp0,
                    tx@.vin,
                    0,
                ),
            decreases m - i,
        {
            let input = &vin[i];
            proof {
                assert(input@ == tx@.vin[i as int]);
            }
            spent_insert(sp, input.get_txid(), input.get_vout());
            i = i + 1;
        }
    }
}

/// What can go wrong while assembling a spend.
#[derive(Debug, PartialEq, Eq)]
pub enum UtxoError {
    /// The address did not decode to a versioned payload.
    InvalidAddress,
    /// The spendable outputs locked to the sender do not reach the
    /// amount.
    InsufficientFunds,
    /// A selected prior was not found on the chain, or a signature could
    /// not be produced.
    InvalidTransaction,
}

/// The pot a greedy selection can reach: one output past the amount, and
/// nothing at all when the amount asks for nothing.
pub open spec fn spec_acc_bound(amount: int) -> int {
    if amount > 0 {
        amount + 0x8000_0000
    } else {
        1
    }
}

/// All output values in the index are non-negative.
pub open spec fn spec_nonneg(m: UtxoV) -> bool {
    forall|i: int, j: int|
        0 <= i < m.len() && 0 <= j < (#[trigger] m[i]).1.len() ==> (#[trigger] m[i].1[j]).value
            >= 0
}

/// Greedy selection inside one entry's outputs, from position `j` on:
/// take each output locked to the key while the accumulated value is
/// still short of the amount.
pub open spec fn spec_select_outs(
    acc: int,
    picked: Seq<usize>,
    outs: Seq<TXOutputV>,
    pkh: Seq<u8>,
    amount: int,
    j: int,
) -> (int, Seq<usize>)
    decreases outs.len() - j,
{
    if j < 0 || j >= outs.len() {
        (acc, picked)
    } else if outs[j].pub_key_hash == pkh && acc < amount {
        spec_select_outs(acc + outs[j].value, picked.push(j as usize), outs, pkh, amount, j + 1)
    } else {
        spec_select_outs(acc, picked, outs, pkh, amount, j + 1)
    }
}

/// Greedy selection across the index, entry by entry, from position `i`
/// on.
pub open spec fn spec_select(
    acc: int,
    sel: SpentV,
    m: UtxoV,
    pkh: Seq<u8>,
    amount: int,
    i: int,
) -> (int, SpentV)
    decreases m.len() - i,
{
    if i < 0 || i >= m.len() {
        (acc, sel)
    } else {
        let p = spec_select_outs(acc, Seq::empty(), m[i].1, pkh, amount, 0);
        let sel2 = if p.1.len() > 0 {
            sel.push((m[i].0, p.1))
        } else {
            sel
        };
        spec_select(p.0, sel2, m, pkh, amount, i + 1)
    }
}

/// The selection a scan of the whole index returns.
pub open spec fn spec_spendable(m: UtxoV, pkh: Seq<u8>, amount: int) -> (int, SpentV) {
    spec_select(0, Seq::empty(), m, pkh, amount, 0)
}

/// Selection only grows the pot while it is short of the amount, so the
/// result stays within one output of it.
pub proof fn lemma_select_outs_bound(
    acc: int,
    picked: Seq<usize>,
    outs: Seq<TXOutputV>,
    pkh: Seq<u8>,
    amount: int,
    j: int,
)
    requires
        forall|q: int| 0 <= q < outs.len() ==> (#[trigger] outs[q]).value >= 0,
        acc >= 0,
        acc < spec_acc_bound(amount),
    ensures
        ({
            let p = spec_select_outs(acc, picked, outs, pkh, amount, j);
            p.0 >= acc && p.0 >= 0 && p.0 < spec_acc_bound(amount)
        }),
    decreases outs.len() - j,
{
    if j < 0 || j >= outs.len() {
    } else if outs[j].pub_key_hash == pkh && acc < amount {
        lemma_select_outs_bound(
            acc + outs[j].value,
            picked.push(j as usize),
            outs,
            pkh,
            amount,
            j + 1,
        );
    } else {
        lemma_select_outs_bound(acc, picked, outs, pkh, amount, j + 1);
    }
}

pub proof fn lemma_select_bound(
    acc: int,
    sel: SpentV,
    m: UtxoV,
    pkh: Seq<u8>,
    amount: int,
    i: int,
)
    requires
        spec_nonneg(m),
        acc >= 0,
        acc < spec_acc_bound(amount),
    ensures
        ({
            let p = spec_select(acc, sel, m, pkh, amount, i);
            p.0 >= acc && p.0 >= 0 && p.0 < spec_acc_bound(amount)
        }),
    decreases m.len() - i,
{
    if i < 0 || i >= m.len() {
    } else {
        lemma_select_outs_bound(acc, Seq::empty(), m[i].1, pkh, amount, 0);
        let p = spec_select_outs(acc, Seq::empty(), m[i].1, pkh, amount, 0);
        let sel2 = if p.1.len() > 0 {
            sel.push((m[i].0, p.1))
        } else {
            sel
        };
        lemma_select_bound(p.0, sel2, m, pkh, amount, i + 1);
    }
}

/// The outputs locked to a key, flattened in index order.
pub open spec fn spec_utxo_for(m: UtxoV, pkh: Seq<u8>, i: int) -> Seq<TXOutputV>
    decreases m.len() - i,
{
    if i < 0 || i >= m.len() {
        Seq::empty()
    } else {
        m[i].1.filter(|o: TXOutputV| o.pub_key_hash == pkh) + spec_utxo_for(m, pkh, i + 1)
    }
}

/// The unspent-output index, derived from a blockchain.
pub struct UTXOSet {
    /// The chain this index is derived from.
    pub blockchain: Blockchain,
    index: UtxoEntries,
}

impl UTXOSet {
    /// The index contents: transaction id bytes with their unspent
    /// outputs.
    pub closed spec fn spec_index(&self) -> UtxoV {
        self.index.deep_view()
    }

    /// The chain this index is derived from, as a value.
    pub closed spec fn spec_bc(&self) -> Blockchain {
        self.blockchain
    }

    /// Wraps a blockchain with an empty index; `reindex` fills it.
    pub fn new(blockchain: Blockchain) -> (r: UTXOSet)
        ensures
            r.spec_bc() == blockchain,
            r.spec_index() == Seq::<(Seq<u8>, Seq<TXOutputV>)>::empty(),
    {
        let r = UTXOSet { blockchain, index: Vec::new() };
        proof {
            assert(r.spec_index() =~= Seq::<(Seq<u8>, Seq<TXOutputV>)>::empty());
        }
        r
    }

    pub fn get_blockchain(&self) -> (r: &Blockchain)
        ensures
            r == self.spec_bc(),
    {
        &self.blockchain
    }

    /// Rebuilds the index from a full chain walk: afterwards it holds
    /// exactly what `find_utxo` discovers.
    pub fn reindex(&mut self)
        ensures
            final(self).spec_bc() == old(self).spec_bc(),
            final(self).spec_index() == spec_find_utxo(old(self).spec_bc().chain()),
    {
        let fresh = self.blockchain.find_utxo();
        self.index = fresh;
    }

    /// How many transactions still carry unspent outputs, saturating at
    /// the widest count the callers print.
    pub fn count_transactions(&self) -> (r: i32)
        ensures
            r == if self.spec_index().len() > i32::MAX {
                i32::MAX as int
            } else {
                self.spec_index().len() as int
            },
    {
        if self.index.len() > i32::MAX as usize {
            i32::MAX
        } else {
            self.index.len() as i32
        }
    }

    /// All output values in the index are non-negative; selection sums
    /// rely on it.
    pub fn check_nonneg(&self) -> (r: bool)
        ensures
            r == spec_nonneg(self.spec_index()),
    {
        let n = self.index.len();
        let mut i: usize = 0;
        while i < n
            invariant
                n == self.index@.len(),
                i <= n,
                forall|a: int, b: int|
                    #![trigger self.spec_index()[a].1[b]]
                    0 <= a < i && 0 <= b < self.spec_index()[a].1.len()
                        ==> self.spec_index()[a].1[b].value >= 0,
            decreases n - i,
        {
            let outs = &self.index[i].1;
            let m = outs.len();
            let mut j: usize = 0;
            while j < m
                invariant
                    m == outs@.len(),
                    i < self.index@.len(),
                    outs.deep_view() == self.spec_index()[i as int].1,
                    j <= m,
                    forall|b: int|
                        0 <= b < j ==> (#[trigger] self.spec_index()[i as int].1[b]).value >= 0,
                decreases m - j,
            {
                proof {
                    assert(outs.deep_view()[j as int] == self.spec_index()[i as int].1[j as int]);
                }
                if outs[j].get_value() < 0 {
                    proof {
                        assert(self.spec_index()[i as int].1[j as int].value < 0);
                        assert(!spec_nonneg(self.spec_index()));
                    }
                    return false;
                }
                j = j + 1;
            }
            i = i + 1;
        }
        true
    }

    /// Greedily gathers outputs locked to the key until the pot reaches
    /// the amount, returning the pot and the positions taken, per
    /// transaction.
    pub fn find_spendable_outputs(&self, pub_key_hash: &[u8], amount: i32) -> (r: (
        i64,
        Vec<(Vec<u8>, Vec<usize>)>,
    ))
        requires
            spec_nonneg(self.spec_index()),
        ensures
            r.0 == spec_spendable(self.spec_index(), pub_key_hash@, amount as int).0,
            r.1.deep_view() == spec_spendable(self.spec_index(), pub_key_hash@, amount as int).1,
            0 <= r.0 < spec_acc_bound(amount as int),
    {
        let mut accumulated: i64 = 0;
        let mut unspent: Vec<(Vec<u8>, Vec<usize>)> = Vec::new();
        proof {
            assert(unspent.deep_view() =~~= Seq::<(Seq<u8>, Seq<usize>)>::empty());
        }
        let n = self.index.len();
        let mut i: usize = 0;
        while i < n
            invariant
                n == self.index@.len(),
                i <= n,
                spec_nonneg(self.spec_index()),
                0 <= accumulated < spec_acc_bound(amount as int),
                spec_select(
                    accumulated as int,
                    unspent.deep_view(),
                    self.spec_index(),
                    pub_key_hash@,
                    amount as int,
                    i as int,
                ) == spec_spendable(self.spec_index(), pub_key_hash@, amount as int),
            decreases n - i,
        {
            let ghost acc0 = accumulated as int;
            let ghost sel0 = unspent.deep_view();
            let entry_key = &self.index[i].0;
            let outs = &self.index[i].1;
            let m = outs.len();
            let mut picked: Vec<usize> = Vec::new();
            let mut j: usize = 0;
            while j < m
                invariant
                    m == outs@.len(),
                    i < self.index@.len(),
                    outs.deep_view() == self.spec_index()[i as int].1,
                    spec_nonneg(self.spec_index()),
                    j <= m,
                    acc0 >= 0,
                    acc0 < spec_acc_bound(amount as int),
                    0 <= accumulated < spec_acc_bound(amount as int),
                    spec_select_outs(
                        accumulated as int,
                        picked@,
                        self.spec_index()[i as int].1,
                        pub_key_hash@,
                        amount as int,
                        j as int,
                    ) == spec_select_outs(
                        acc0,
                        Seq::empty(),
                        self.spec_index()[i as int].1,
                        pub_key_hash@,
                        amount as int,
                        0,
                    ),
                decreases m - j,
            {
                proof {
                    assert(outs.deep_view()[j as int] == self.spec_index()[i as int].1[j as int]);
                }
                if outs[j].is_locked_with_key(pub_key_hash) && accumulated < amount as i64 {
                    proof {
                        assert(self.spec_index()[i as int].1[j as int].value >= 0);
                    }
                    accumulated = accumulated + outs[j].get_value() as i64;
                    picked.push(j);
                }
                j = j + 1;
            }
            proof {
                assert(spec_select_outs(
                    accumulated as int,
                    picked@,
                    self.spec_index()[i as int].1,
                    pub_key_hash@,
                    amount as int,
                    m as int,
                ) == (accumulated as int, picked@));
            }
            if picked.len() > 0 {
                let mut kk: Vec<u8> = Vec::new();
                kk.extend_from_slice(entry_key.as_slice());
                proof {
                    assert(kk@ =~= self.spec_index()[i as int].0);
                }
                let ghost prev = unspent.deep_view();
                unspent.push((kk, picked));
                proof {
                    assert(unspent.deep_view() =~~= prev.push(
                        (self.spec_index()[i as int].0, picked@),
                    ));
                }
            }
            i = i + 1;
        }
        (accumulated, unspent)
    }

    /// All outputs locked to the key, flattened in index order.
    pub fn find_utxo(&self, pub_key_hash: &[u8]) -> (r: Vec<TXOutput>)
        ensures
            r.deep_view() == spec_utxo_for(self.spec_index(), pub_key_hash@, 0),
    {
        let mut utxos: Vec<TXOutput> = Vec::new();
        proof {
            assert(utxos.deep_view() =~= Seq::<TXOutputV>::empty());
        }
        let n = self.index.len();
        let mut i: usize = 0;
        while i < n
            invariant
                n == self.index@.len(),
                i <= n,
                utxos.deep_view() + spec_utxo_for(self.spec_index(), pub_key_hash@, i as int)
                    =~= spec_utxo_for(self.spec_index(), pub_key_hash@, 0),
            decreases n - i,
        {
            let outs = &self.index[i].1;
            let m = outs.len();
            let mut j: usize = 0;
            proof {
                assert(outs.deep_view().skip(0) =~= outs.deep_view());
                assert(spec_utxo_for(self.spec_index(), pub_key_hash@, i as int)
                    == self.spec_index()[i as int].1.filter(
                    |o: TXOutputV| o.pub_key_hash == pub_key_hash@,
                ) + spec_utxo_for(self.spec_index(), pub_key_hash@, i + 1));
            }
            while j < m
                invariant
                    m == outs@.len(),
                    i < self.index@.len(),
                    outs.deep_view() == self.spec_index()[i as int].1,
                    j <= m,
                    utxos.deep_view() + outs.deep_view().skip(j as int).filter(
                        |o: TXOutputV| o.pub_key_hash == pub_key_hash@,
                    ) + spec_utxo_for(self.spec_index(), pub_key_hash@, i + 1) =~= spec_utxo_for(
                        self.spec_index(),
                        pub_key_hash@,
                        0,
                    ),
                decreases m - j,
            {
                proof {
                    assert(outs.deep_view()[j as int] == self.spec_index()[i as int].1[j as int]);
                    lemma_filter_skip_step(
                        outs.deep_view(),
                        pub_key_hash@,
                        j as int,
                    );
                }
                if outs[j].is_locked_with_key(pub_key_hash) {
                    let ghost prev = utxos.deep_view();
                    utxos.push(outs[j].clone());
                    proof {
                        assert(utxos.deep_view() =~= prev.push(outs.deep_view()[j as int]));
                    }
                }
                j = j + 1;
            }
            proof {
                assert(outs.deep_view().skip(m as int)
                    =~= Seq::<TXOutputV>::empty());
                assert(outs.deep_view().skip(m as int).filter(
                    |o: TXOutputV| o.pub_key_hash == pub_key_hash@,
                ) =~= Seq::<TXOutputV>::empty());
            }
            i = i + 1;
        }
        utxos
    }

    /// Folds one confirmed block into the index: for each non-coinbase
    /// input, the named position leaves the stored list (the key leaves
    /// with its last output); then the block's own outputs come in under
    /// their transaction id.
    pub fn update(&mut self, block: &Block)
        ensures
            final(self).spec_bc() == old(self).spec_bc(),
            final(self).spec_index() == spec_update_block(
                old(self).spec_index(),
                block@.transactions,
                0,
            ),
    {
        let txs = block.get_transactions();
        let n = txs.len();
        let mut k: usize = 0;
        while k < n
            invariant
                n == txs@.len(),
                k <= n,
                txs.deep_view() == block@.transactions,
                self.spec_bc() == old(self).spec_bc(),
                spec_update_block(self.spec_index(), block@.transactions, k as int)
                    == spec_update_block(old(self).spec_index(), block@.transactions, 0),
            decreases n - k,
        {
            let tx = &txs[k];
            proof {
                assert(tx@ == block@.transactions[k as int]);
            }
            self.update_one(tx);
            k = k + 1;
        }
    }

    /// Folds one transaction of a confirmed block into the index.
    fn update_one(&mut self, tx: &Transaction)
        ensures
            final(self).spec_bc() == old(self).spec_bc(),
            final(self).spec_index() == spec_update_tx(old(self).spec_index(), tx@),
    {
        if !tx.is_coinbase() {
            let vin = tx.get_vin();
            let m = vin.len();
            let mut i: usize = 0;
            while i < m
                invariant
                    m == vin@.len(),
                    i <= m,
                    vin.deep_view() == tx@.vin,
                    !spec_is_coinbase(tx@),
                    self.spec_bc() == old(self).spec_bc(),
                    spec_update_inputs(self.spec_index(), tx@.vin, i as int) == spec_update_inputs(
                        old(self).spec_index(),
                        tx@.vin,
                        0,
                    ),
                decreases m - i,
            {
                let input = &vin[i];
                proof {
                    assert(input@ == tx@.vin[i as int]);
                }
                self.spend_input(input);
                i = i + 1;
            }
        }
        let txid = tx.get_id_bytes();
        let new_outputs = clone_outputs_slice(tx.get_vout());
        let ghost before = self.spec_index();
        match utxo_idx(&self.index, txid.as_slice()) {
            Some(i) => {
                let _ = self.index.remove(i);
                self.index.insert(i, (txid, new_outputs));
                proof {
                    assert(self.spec_index() =~~= spec_utxo_set_entry(before, tx@.id, tx@.vout));
                }
            },
            None => {
                self.index.push((txid, new_outputs));
                proof {
                    assert(self.spec_index() =~~= spec_utxo_set_entry(before, tx@.id, tx@.vout));
                }
            },
        }
    }

    /// Removes the position one input names from the stored list of the
    /// transaction it spends.
    fn spend_input(&mut self, input: &TXInput)
        ensures
            final(self).spec_bc() == old(self).spec_bc(),
            final(self).spec_index() == spec_update_input(old(self).spec_index(), input@),
    {
        let ghost before = self.spec_index();
        match utxo_idx(&self.index, input.get_txid()) {
            Some(i) => {
                let (key, outs) = self.index.remove(i);
                let mut updated: Vec<TXOutput> = Vec::new();
                let m = outs.len();
                let mut j: usize = 0;
                while j < m
                    invariant
                        m == outs@.len(),
                        j <= m,
                        updated.deep_view() =~= spec_remove_vout(
                            outs.deep_view().take(j as int),
                            input@.vout,
                        ),
                    decreases m - j,
                {
                    proof {
                        lemma_remove_vout_step(outs.deep_view(), input@.vout, j as int);
                    }
                    if j != input.get_vout() {
                        let ghost prev = updated.deep_view();
                        updated.push(outs[j].clone());
                        proof {
                            assert(updated.deep_view() =~= prev.push(outs.deep_view()[j as int]));
                        }
                    }
                    j = j + 1;
                }
                proof {
                    assert(outs.deep_view().take(m as int) =~= outs.deep_view());
                }
                if updated.len() == 0 {
                    proof {
                        assert(self.spec_index() =~~= spec_update_input(before, input@));
                    }
                } else {
                    self.index.insert(i, (key, updated));
                    proof {
                        assert(self.spec_index() =~~= spec_update_input(before, input@));
                    }
                }
            },
            None => {},
        }
    }
}

/// The stored outputs with the named position removed; the survivors
/// keep their order and close ranks.
pub open spec fn spec_remove_vout(outs: Seq<TXOutputV>, v: usize) -> Seq<TXOutputV> {
    if v < outs.len() {
        outs.remove(v as int)
    } else {
        outs
    }
}

/// One input leaving the index: the named position goes; an emptied
/// entry goes with it; a missing key changes nothing.
pub open spec fn spec_update_input(m: UtxoV, input: TXInputV) -> UtxoV {
    match spec_assoc_idx(m, input.txid) {
        Some(i) => {
            let rem = spec_remove_vout(m[i].1, input.vout);
            if rem.len() == 0 {
                m.remove(i)
            } else {
                m.update(i, (m[i].0, rem))
            }
        },
        None => m,
    }
}

/// A transaction's inputs leaving the index, in order, from position `j`
/// on.
pub open spec fn spec_update_inputs(m: UtxoV, vins: Seq<TXInputV>, j: int) -> UtxoV
    decreases vins.len() - j,
{
    if j < 0 || j >= vins.len() {
        m
    } else {
        spec_update_inputs(spec_update_input(m, vins[j]), vins, j + 1)
    }
}

/// The entry for a transaction set to its full output list.
pub open spec fn spec_utxo_set_entry(m: UtxoV, txid: Seq<u8>, outs: Seq<TXOutputV>) -> UtxoV {
    match spec_assoc_idx(m, txid) {
        Some(i) => m.update(i, (txid, outs)),
        None => m.push((txid, outs)),
    }
}

/// One transaction folded into the index: its inputs leave (unless it is
/// a coinbase), then its outputs come in.
pub open spec fn spec_update_tx(m: UtxoV, t: TransactionV) -> UtxoV {
    let m2 = if spec_is_coinbase(t) {
        m
    } else {
        spec_update_inputs(m, t.vin, 0)
    };
    spec_utxo_set_entry(m2, t.id, t.vout)
}

/// A block folded into the index, transaction by transaction, from
/// position `j` on.
pub open spec fn spec_update_block(m: UtxoV, txs: Seq<TransactionV>, j: int) -> UtxoV
    decreases txs.len() - j,
{
    if j < 0 || j >= txs.len() {
        m
    } else {
        spec_update_block(spec_update_tx(m, txs[j]), txs, j + 1)
    }
}

pub proof fn lemma_remove_vout_step(outs: Seq<TXOutputV>, v: usize, j: int)
    requires
        0 <= j < outs.len(),
    ensures
        j != v ==> spec_remove_vout(outs.take(j + 1), v) == spec_remove_vout(
            outs.take(j),
            v,
        ).push(outs[j]),
        j == v ==> spec_remove_vout(outs.take(j + 1), v) == spec_remove_vout(outs.take(j), v),
{
    if j < v {
        assert(spec_remove_vout(outs.take(j + 1), v) =~= spec_remove_vout(outs.take(j), v).push(
            outs[j],
        ));
    } else if j == v {
        assert(spec_remove_vout(outs.take(j + 1), v) =~= outs.take(j + 1).remove(v as int));
        assert(outs.take(j + 1).remove(v as int) =~= outs.take(j));
        assert(spec_remove_vout(outs.take(j), v) =~= outs.take(j));
    } else {
        assert(outs.take(j + 1).remove(v as int) =~= outs.take(j).remove(v as int).push(outs[j]));
    }
}

/// One filtering step over the remainder of an output list.
pub proof fn lemma_filter_skip_step(outs: Seq<TXOutputV>, pkh: Seq<u8>, j: int)
    requires
        0 <= j < outs.len(),
    ensures
        outs[j].pub_key_hash == pkh ==> outs.skip(j).filter(|o: TXOutputV| o.pub_key_hash == pkh)
            == seq![outs[j]] + outs.skip(j + 1).filter(|o: TXOutputV| o.pub_key_hash == pkh),
        outs[j].pub_key_hash != pkh ==> outs.skip(j).filter(|o: TXOutputV| o.pub_key_hash == pkh)
            == outs.skip(j + 1).filter(|o: TXOutputV| o.pub_key_hash == pkh),
{
    let f = |o: TXOutputV| o.pub_key_hash == pkh;
    assert(outs.skip(j).drop_first() =~= outs.skip(j + 1));
    assert(outs.skip(j)[0] == outs[j]);
    lemma_filter_first(outs.skip(j), pkh);
}

/// Filtering a non-empty list handles its head first.
pub proof fn lemma_filter_first(s: Seq<TXOutputV>, pkh: Seq<u8>)
    requires
        s.len() > 0,
    ensures
        s[0].pub_key_hash == pkh ==> s.filter(|o: TXOutputV| o.pub_key_hash == pkh) == seq![s[0]]
            + s.drop_first().filter(|o: TXOutputV| o.pub_key_hash == pkh),
        s[0].pub_key_hash != pkh ==> s.filter(|o: TXOutputV| o.pub_key_hash == pkh)
            == s.drop_first().filter(|o: TXOutputV| o.pub_key_hash == pkh),
    decreases s.len(),
{
    reveal(Seq::filter);
    if s.len() == 1 {
        assert(s.drop_last() =~= Seq::<TXOutputV>::empty());
        assert(s.drop_first() =~= Seq::<TXOutputV>::empty());
    } else {
        lemma_filter_first(s.drop_last(), pkh);
        assert(s.drop_last().drop_first() =~= s.drop_first().drop_last());
        assert(s.drop_last()[0] == s[0]);
        assert(s.drop_first().last() == s.last());
    }
}

/// Clones the outputs of a borrowed slice.
pub(crate) fn clone_outputs_slice(v: &[TXOutput]) -> (r: Vec<TXOutput>)
    ensures
        r.deep_view() == v.deep_view(),
{
    let mut r: Vec<TXOutput> = Vec::new();
    let mut i: usize = 0;
    while i < v.len()
        invariant
            i <= v@.len(),
            r.deep_view() =~= v.deep_view().take(i as int),
        decreases v@.len() - i,
    {
        let ghost prev = r.deep_view();
        r.push(v[i].clone());
        proof {
            assert(r.deep_view() =~= prev.push(v.deep_view()[i as int]));
            assert(v.deep_view().take(i + 1) =~= v.deep_view().take(i as int).push(
                v.deep_view()[i as int],
            ));
        }
        i = i + 1;
    }
    proof {
        assert(r.deep_view() =~= v.deep_view());
    }
    r
}

} // verus!
