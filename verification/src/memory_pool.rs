//! The mempool of unconfirmed transactions, keyed by the hex text of
//! their ids, and the list of block hashes still in transit from peers.

use vstd::prelude::*;

use crate::hex::{hex_encode, spec_hex_encode};
use crate::codec::str_eq;
use crate::transactions::{Transaction, TransactionV};

verus! {

broadcast use crate::codec::lemma_deep_view_u8;

/// The position of the first entry with the given key.
pub open spec fn spec_pool_idx(es: Seq<(Seq<char>, TransactionV)>, k: Seq<char>) -> Option<int>
    decreases es.len(),
{
    if es.len() == 0 {
        None
    } else if es[0].0 == k {
        Some(0int)
    } else {
        match spec_pool_idx(es.drop_first(), k) {
            Some(i) => Some(i + 1),
            None => None,
        }
    }
}

/// Entering a transaction under a key: the held entry is replaced, a new
/// key goes to the end.
pub open spec fn spec_pool_add(
    es: Seq<(Seq<char>, TransactionV)>,
    k: Seq<char>,
    t: TransactionV,
) -> Seq<(Seq<char>, TransactionV)> {
    match spec_pool_idx(es, k) {
        Some(i) => es.update(i, (k, t)),
        None => es.push((k, t)),
    }
}

/// The pool without any entry under the given key.
pub open spec fn spec_pool_remove(
    es: Seq<(Seq<char>, TransactionV)>,
    k: Seq<char>,
) -> Seq<(Seq<char>, TransactionV)> {
    es.filter(|e: (Seq<char>, TransactionV)| e.0 != k)
}

proof fn lemma_pool_idx_at(es: Seq<(Seq<char>, TransactionV)>, k: Seq<char>, i: int)
    requires
        0 <= i < es.len(),
        es[i].0 == k,
        forall|j: int| 0 <= j < i ==> (#[trigger] es[j]).0 != k,
    ensures
        spec_pool_idx(es, k) == Some(i),
    decreases i,
{
    if i > 0 {
        assert forall|j: int| 0 <= j < i - 1 implies (#[trigger] es.drop_first()[j]).0 != k by {
            assert(es.drop_first()[j] == es[j + 1]);
        }
        lemma_pool_idx_at(es.drop_first(), k, i - 1);
        assert(es.drop_first()[i - 1] == es[i]);
    }
}

proof fn lemma_pool_idx_none(es: Seq<(Seq<char>, TransactionV)>, k: Seq<char>)
    requires
        forall|j: int| 0 <= j < es.len() ==> (#[trigger] es[j]).0 != k,
    ensures
        spec_pool_idx(es, k) is None,
    decreases es.len(),
{
    if es.len() > 0 {
        assert forall|j: int|
            0 <= j < es.drop_first().len() implies (#[trigger] es.drop_first()[j]).0 != k by {
            assert(es.drop_first()[j] == es[j + 1]);
        }
        lemma_pool_idx_none(es.drop_first(), k);
    }
}

/// Unconfirmed transactions awaiting inclusion, keyed by hex id.
pub struct MemoryPool {
    entries: Vec<(String, Transaction)>,
}

impl MemoryPool {
    /// The held entries, in insertion order.
    pub closed spec fn spec_entries(&self) -> Seq<(Seq<char>, TransactionV)> {
        self.entries.deep_view()
    }

    /// Whether a transaction is held under the given hex id.
    pub open spec fn spec_contains(&self, k: Seq<char>) -> bool {
        spec_pool_idx(self.spec_entries(), k) is Some
    }

    pub fn new() -> (r: MemoryPool)
        ensures
            r.spec_entries() == Seq::<(Seq<char>, TransactionV)>::empty(),
    {
        let r = MemoryPool { entries: Vec::new() };
        proof {
            assert(r.spec_entries() =~= Seq::<(Seq<char>, TransactionV)>::empty());
        }
        r
    }

    fn idx(&self, txid_hex: &str) -> (r: Option<usize>)
        ensures
            match r {
                Some(i) => spec_pool_idx(self.spec_entries(), txid_hex@) == Some(i as int) && i
                    < self.entries@.len(),
                None => spec_pool_idx(self.spec_entries(), txid_hex@) is None,
            },
    {
        let n = self.entries.len();
        let mut i: usize = 0;
        while i < n
            invariant
                n == self.entries@.len(),
                i <= n,
                forall|j: int| 0 <= j < i ==> (#[trigger] self.spec_entries()[j]).0 != txid_hex@,
            decreases n - i,
        {
            if str_eq(self.entries[i].0.as_str(), txid_hex) {
                proof {
                    lemma_pool_idx_at(self.spec_entries(), txid_hex@, i as int);
                }
                return Some(i);
            }
            i = i + 1;
        }
        proof {
            lemma_pool_idx_none(self.spec_entries(), txid_hex@);
        }
        None
    }

    /// Whether a transaction with this hex id is held.
    pub fn contains(&self, txid_hex: &str) -> (r: bool)
        ensures
            r == self.spec_contains(txid_hex@),
    {
        match self.idx(txid_hex) {
            Some(_) => true,
            None => false,
        }
    }

    /// Enters a transaction under the hex text of its id; a held entry
    /// with that key is replaced.
    pub fn add(&mut self, tx: Transaction)
        ensures
            final(self).spec_entries() == spec_pool_add(
                old(self).spec_entries(),
                spec_hex_encode(tx@.id),
                tx@,
            ),
    {
        let txid_hex = hex_encode(tx.get_id());
        let ghost before = self.spec_entries();
        match self.idx(txid_hex.as_str()) {
            Some(i) => {
                let _ = self.entries.remove(i);
                self.entries.insert(i, (txid_hex, tx));
                proof {
                    assert(self.spec_entries() =~~= spec_pool_add(
                        before,
                        spec_hex_encode(tx@.id),
                        tx@,
                    ));
                }
            },
            None => {
                self.entries.push((txid_hex, tx));
                proof {
                    assert(self.spec_entries() =~~= spec_pool_add(
                        before,
                        spec_hex_encode(tx@.id),
                        tx@,
                    ));
                }
            },
        }
    }

    /// The transaction held under the given hex id, if any.
    pub fn get(&self, txid_hex: &str) -> (r: Option<Transaction>)
        ensures
            match r {
                Some(t) => {
                    &&& spec_pool_idx(self.spec_entries(), txid_hex@) is Some
                    &&& t@ == self.spec_entries()[spec_pool_idx(
                        self.spec_entries(),
                        txid_hex@,
                    )->Some_0].1
                },
                None => !self.spec_contains(txid_hex@),
            },
    {
        match self.idx(txid_hex) {
            Some(i) => Some(self.entries[i].1.clone()),
            None => None,
        }
    }

    /// Drops every entry held under the given hex id.
    pub fn remove(&mut self, txid_hex: &str)
        ensures
            final(self).spec_entries() == spec_pool_remove(old(self).spec_entries(), txid_hex@),
            !final(self).spec_contains(txid_hex@),
    {
        let ghost before = self.spec_entries();
        let ghost key = txid_hex@;
        let mut kept: Vec<(String, Transaction)> = Vec::new();
        let n = self.entries.len();
        let mut i: usize = 0;
        proof {
            lemma_pool_remove_take_empty(before, key);
        }
        while i < n
            invariant
                n == self.entries@.len(),
                i <= n,
                before == self.spec_entries(),
                key == txid_hex@,
                kept.deep_view() =~= spec_pool_remove(before.take(i as int), key),
            decreases n - i,
        {
            proof {
                lemma_pool_remove_take_step(before, key, i as int);
            }
            if !str_eq(self.entries[i].0.as_str(), txid_hex) {
                let ghost prev = kept.deep_view();
                let entry = (self.entries[i].0.clone(), self.entries[i].1.clone());
                proof {
                    assert(entry.deep_view() == before[i as int]);
                }
                kept.push(entry);
                proof {
                    assert(kept.deep_view() =~= prev.push(before[i as int]));
                }
            }
            i = i + 1;
        }
        self.entries = kept;
        proof {
            assert(before.take(n as int) =~= before);
            lemma_pool_remove_no_key(before, key);
        }
    }

    /// Every held transaction, in insertion order.
    pub fn get_all(&self) -> (r: Vec<Transaction>)
        ensures
            r.deep_view() == Seq::new(
                self.spec_entries().len(),
                |i: int| self.spec_entries()[i].1,
            ),
    {
        let mut txs: Vec<Transaction> = Vec::new();
        let n = self.entries.len();
        let mut i: usize = 0;
        while i < n
            invariant
                n == self.entries@.len(),
                i <= n,
                txs.deep_view() =~= Seq::new(i as nat, |j: int| self.spec_entries()[j].1),
            decreases n - i,
        {
            let ghost prev = txs.deep_view();
            txs.push(self.entries[i].1.clone());
            proof {
                assert(txs.deep_view() =~= prev.push(self.spec_entries()[i as int].1));
            }
            i = i + 1;
        }
        txs
    }

    pub fn len(&self) -> (r: usize)
        ensures
            r == self.spec_entries().len(),
    {
        self.entries.len()
    }

    pub fn is_empty(&self) -> (r: bool)
        ensures
            r == (self.spec_entries().len() == 0),
    {
        self.entries.len() == 0
    }
}

/// Dropping a key from an empty prefix gives the empty pool.
proof fn lemma_pool_remove_take_empty(es: Seq<(Seq<char>, TransactionV)>, k: Seq<char>)
    ensures
        spec_pool_remove(es.take(0), k) == Seq::<(Seq<char>, TransactionV)>::empty(),
{
    reveal(Seq::filter);
    assert(es.take(0) =~= Seq::<(Seq<char>, TransactionV)>::empty());
    assert(spec_pool_remove(es.take(0), k) =~= Seq::<(Seq<char>, TransactionV)>::empty());
}

/// One step of dropping a key over a growing prefix.
proof fn lemma_pool_remove_take_step(es: Seq<(Seq<char>, TransactionV)>, k: Seq<char>, i: int)
    requires
        0 <= i < es.len(),
    ensures
        es[i].0 != k ==> spec_pool_remove(es.take(i + 1), k) == spec_pool_remove(
            es.take(i),
            k,
        ).push(es[i]),
        es[i].0 == k ==> spec_pool_remove(es.take(i + 1), k) == spec_pool_remove(es.take(i), k),
{
    reveal(Seq::filter);
    assert(es.take(i + 1).drop_last() =~= es.take(i));
    assert(es.take(i + 1).last() == es[i]);
}

/// Nothing left in the pool carries the dropped key.
proof fn lemma_pool_remove_no_key(es: Seq<(Seq<char>, TransactionV)>, k: Seq<char>)
    ensures
        spec_pool_idx(spec_pool_remove(es, k), k) is None,
    decreases es.len(),
{
    reveal(Seq::filter);
    if es.len() == 0 {
        assert(spec_pool_remove(es, k) =~= Seq::<(Seq<char>, TransactionV)>::empty());
        lemma_pool_idx_none(spec_pool_remove(es, k), k);
    } else {
        lemma_pool_remove_no_key(es.drop_last(), k);
        let f = spec_pool_remove(es, k);
        let g = spec_pool_remove(es.drop_last(), k);
        assert forall|j: int| 0 <= j < f.len() implies (#[trigger] f[j]).0 != k by {
            if j < g.len() {
                lemma_pool_idx_some_of_hit(g, k, j);
            } else {
                assert(f[j] == es.last());
            }
        }
        lemma_pool_idx_none(f, k);
    }
}

/// A key already absent stays absent when another key is dropped.
pub proof fn lemma_pool_remove_absent(
    es: Seq<(Seq<char>, TransactionV)>,
    k1: Seq<char>,
    k2: Seq<char>,
)
    requires
        spec_pool_idx(es, k1) is None,
    ensures
        spec_pool_idx(spec_pool_remove(es, k2), k1) is None,
    decreases es.len(),
{
    reveal(Seq::filter);
    if es.len() == 0 {
        assert(spec_pool_remove(es, k2) =~= Seq::<(Seq<char>, TransactionV)>::empty());
        lemma_pool_idx_none(spec_pool_remove(es, k2), k1);
    } else {
        assert forall|j: int|
            0 <= j < es.drop_last().len() implies (#[trigger] es.drop_last()[j]).0 != k1 by {
            lemma_pool_idx_some_of_hit(es, k1, j);
        }
        lemma_pool_idx_none(es.drop_last(), k1);
        lemma_pool_remove_absent(es.drop_last(), k1, k2);
        let f = spec_pool_remove(es, k2);
        let g = spec_pool_remove(es.drop_last(), k2);
        assert forall|j: int| 0 <= j < f.len() implies (#[trigger] f[j]).0 != k1 by {
            if j < g.len() {
                lemma_pool_idx_some_of_hit(g, k1, j);
            } else {
                assert(f[j] == es.last());
                lemma_pool_idx_some_of_hit(es, k1, es.len() - 1);
            }
        }
        lemma_pool_idx_none(f, k1);
    }
}

/// An entry carrying the key would make the lookup succeed.
proof fn lemma_pool_idx_some_of_hit(es: Seq<(Seq<char>, TransactionV)>, k: Seq<char>, j: int)
    requires
        spec_pool_idx(es, k) is None,
        0 <= j < es.len(),
    ensures
        es[j].0 != k,
    decreases j,
{
    if j > 0 {
        lemma_pool_idx_some_of_hit(es.drop_first(), k, j - 1);
        assert(es.drop_first()[j - 1] == es[j]);
    }
}

/// Block hashes announced by peers and not yet fetched.
pub struct BlockInTransit {
    blocks: Vec<Vec<u8>>,
}

/// The position of the first hash equal to the given one.
pub open spec fn spec_bit_idx(s: Seq<Seq<u8>>, x: Seq<u8>) -> Option<int>
    decreases s.len(),
{
    if s.len() == 0 {
        None
    } else if s[0] == x {
        Some(0int)
    } else {
        match spec_bit_idx(s.drop_first(), x) {
            Some(i) => Some(i + 1),
            None => None,
        }
    }
}

impl BlockInTransit {
    /// The pending hashes, oldest first.
    pub closed spec fn spec_blocks(&self) -> Seq<Seq<u8>> {
        self.blocks.deep_view()
    }

    pub fn new() -> (r: BlockInTransit)
        ensures
            r.spec_blocks() == Seq::<Seq<u8>>::empty(),
    {
        let r = BlockInTransit { blocks: Vec::new() };
        proof {
            assert(r.spec_blocks() =~~= Seq::<Seq<u8>>::empty());
        }
        r
    }

    /// Appends the announced hashes, in order.
    pub fn add_blocks(&mut self, blocks: &[Vec<u8>])
        ensures
            final(self).spec_blocks() == old(self).spec_blocks() + blocks.deep_view(),
    {
        let n = blocks.len();
        let mut i: usize = 0;
        while i < n
            invariant
                n == blocks@.len(),
                i <= n,
                self.spec_blocks() =~= old(self).spec_blocks() + blocks.deep_view().take(i as int),
            decreases n - i,
        {
            let mut h: Vec<u8> = Vec::new();
            h.extend_from_slice(blocks[i].as_slice());
            proof {
                assert(h@ =~= blocks.deep_view()[i as int]);
            }
            let ghost prev = self.spec_blocks();
            self.blocks.push(h);
            proof {
                assert(self.spec_blocks() =~= prev.push(blocks.deep_view()[i as int]));
                assert(blocks.deep_view().take(i + 1) =~= blocks.deep_view().take(i as int).push(
                    blocks.deep_view()[i as int],
                ));
            }
            i = i + 1;
        }
        proof {
            assert(blocks.deep_view().take(n as int) =~= blocks.deep_view());
            assert(self.spec_blocks() =~= old(self).spec_blocks() + blocks.deep_view());
        }
    }

    /// The oldest pending hash, if any.
    pub fn first(&self) -> (r: Option<Vec<u8>>)
        ensures
            match r {
                Some(h) => self.spec_blocks().len() > 0 && h@ == self.spec_blocks()[0],
                None => self.spec_blocks().len() == 0,
            },
    {
        if self.blocks.len() == 0 {
            return None;
        }
        let mut h: Vec<u8> = Vec::new();
        h.extend_from_slice(self.blocks[0].as_slice());
        proof {
            assert(h@ =~= self.spec_blocks()[0]);
        }
        Some(h)
    }

    /// Drops the first pending hash equal to the given one, if any.
    pub fn remove(&mut self, block_hash: &[u8])
        ensures
            match spec_bit_idx(old(self).spec_blocks(), block_hash@) {
                Some(i) => final(self).spec_blocks() == old(self).spec_blocks().remove(i),
                None => final(self).spec_blocks() == old(self).spec_blocks(),
            },
    {
        let n = self.blocks.len();
        let mut i: usize = 0;
        while i < n
            invariant
                n == self.blocks@.len(),
                self.spec_blocks() == old(self).spec_blocks(),
                i <= n,
                forall|j: int| 0 <= j < i ==> (#[trigger] self.spec_blocks()[j]) != block_hash@,
            decreases n - i,
        {
            if crate::codec::bytes_eq(self.blocks[i].as_slice(), block_hash) {
                proof {
                    lemma_bit_idx_at(self.spec_blocks(), block_hash@, i as int);
                }
                let _ = self.blocks.remove(i);
                proof {
                    assert(self.spec_blocks() =~~= old(self).spec_blocks().remove(i as int));
                }
                return;
            }
            i = i + 1;
        }
        proof {
            lemma_bit_idx_none(self.spec_blocks(), block_hash@);
        }
    }

    /// Forgets every pending hash.
    pub fn clear(&mut self)
        ensures
            final(self).spec_blocks() == Seq::<Seq<u8>>::empty(),
    {
        self.blocks.clear();
        proof {
            assert(self.spec_blocks() =~~= Seq::<Seq<u8>>::empty());
        }
    }

    pub fn len(&self) -> (r: usize)
        ensures
            r == self.spec_blocks().len(),
    {
        self.blocks.len()
    }

    pub fn is_empty(&self) -> (r: bool)
        ensures
            r == (self.spec_blocks().len() == 0),
    {
        self.blocks.len() == 0
    }
}

proof fn lemma_bit_idx_at(s: Seq<Seq<u8>>, x: Seq<u8>, i: int)
    requires
        0 <= i < s.len(),
        s[i] == x,
        forall|j: int| 0 <= j < i ==> (#[trigger] s[j]) != x,
    ensures
        spec_bit_idx(s, x) == Some(i),
    decreases i,
{
    if i > 0 {
        assert forall|j: int| 0 <= j < i - 1 implies (#[trigger] s.drop_first()[j]) != x by {
            assert(s.drop_first()[j] == s[j + 1]);
        }
        lemma_bit_idx_at(s.drop_first(), x, i - 1);
        assert(s.drop_first()[i - 1] == s[i]);
    }
}

proof fn lemma_bit_idx_none(s: Seq<Seq<u8>>, x: Seq<u8>)
    requires
        forall|j: int| 0 <= j < s.len() ==> (#[trigger] s[j]) != x,
    ensures
        spec_bit_idx(s, x) is None,
    decreases s.len(),
{
    if s.len() > 0 {
        assert forall|j: int|
            0 <= j < s.drop_first().len() implies (#[trigger] s.drop_first()[j]) != x by {
            assert(s.drop_first()[j] == s[j + 1]);
        }
        lemma_bit_idx_none(s.drop_first(), x);
    }
}

} // verus!
