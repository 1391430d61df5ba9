//! Transactions: inputs that spend prior outputs, outputs locked to a
//! public-key hash, and the canonical byte encoding that a transaction's
//! id digests.
//!
//! A transaction's id is the SHA-256 digest of its canonical bytes with
//! the id field cleared. A coinbase transaction has one input with an
//! empty public key and a random tag as its signature, and one output
//! paying the block subsidy.

use vstd::prelude::*;
use vstd::bytes::{spec_u32_to_le_bytes, spec_u64_to_le_bytes, u32_from_le_bytes, u32_to_le_bytes};
use vstd::slice::slice_subrange;

use crate::blockchain::{spec_find_transaction, Blockchain};
use crate::block::BlockV;
use crate::codec::{
    bytes_eq, lemma_parse_ser_bytes, lemma_parse_ser_u64, read_bytes, read_u64, spec_parse_bytes,
    spec_parse_u64, spec_ser_bytes, write_bytes, write_u64,
};
use crate::hex::{hex_encode, spec_hex_encode};
use crate::utils::{ecdsa_pub_key_of, ecdsa_verify, sha256_digest, sha256_of, uuid_v4_bytes};
use crate::utxo_set::{spec_nonneg, spec_spendable, UtxoError, UTXOSet};
use crate::wallet::{hash_pub_key, spec_addr_decodable, spec_hash_pub_key, spec_pkh_of_addr, Wallet};
use crate::utils::base58_decode;

verus! {

/// The reward paid by a coinbase transaction.
pub const SUBSIDY: i32 = 10;

/// Mathematical form of an input.
pub struct TXInputV {
    pub txid: Seq<u8>,
    pub vout: usize,
    pub signature: Seq<u8>,
    pub pub_key: Seq<u8>,
}

/// Mathematical form of an output.
pub struct TXOutputV {
    pub value: i32,
    pub pub_key_hash: Seq<u8>,
}

/// Mathematical form of a transaction.
pub struct TransactionV {
    pub id: Seq<u8>,
    pub vin: Seq<TXInputV>,
    pub vout: Seq<TXOutputV>,
}

/// An input: the output it spends, named by creating transaction and
/// output index, with the spender's signature and public key.
pub struct TXInput {
    txid: Vec<u8>,
    vout: usize,
    signature: Vec<u8>,
    pub_key: Vec<u8>,
}

/// An output: a positive value locked to one public-key hash.
pub struct TXOutput {
    value: i32,
    pub_key_hash: Vec<u8>,
}

/// A transaction: an id over ordered inputs and outputs.
pub struct Transaction {
    id: Vec<u8>,
    vin: Vec<TXInput>,
    vout: Vec<TXOutput>,
}

impl View for TXInput {
    type V = TXInputV;

    closed spec fn view(&self) -> TXInputV {
        TXInputV {
            txid: self.txid@,
            vout: self.vout,
            signature: self.signature@,
            pub_key: self.pub_key@,
        }
    }
}

impl DeepView for TXInput {
    type V = TXInputV;

    open spec fn deep_view(&self) -> TXInputV {
        self.view()
    }
}

impl View for TXOutput {
    type V = TXOutputV;

    closed spec fn view(&self) -> TXOutputV {
        TXOutputV { value: self.value, pub_key_hash: self.pub_key_hash@ }
    }
}

impl DeepView for TXOutput {
    type V = TXOutputV;

    open spec fn deep_view(&self) -> TXOutputV {
        self.view()
    }
}

impl View for Transaction {
    type V = TransactionV;

    closed spec fn view(&self) -> TransactionV {
        TransactionV { id: self.id@, vin: self.vin.deep_view(), vout: self.vout.deep_view() }
    }
}

impl DeepView for Transaction {
    type V = TransactionV;

    open spec fn deep_view(&self) -> TransactionV {
        self.view()
    }
}

// ---------------------------------------------------------------------
// Canonical encoding
// ---------------------------------------------------------------------
/// Canonical bytes of one input.
pub open spec fn spec_ser_input(i: TXInputV) -> Seq<u8> {
    spec_ser_bytes(i.txid) + spec_u64_to_le_bytes(i.vout as u64) + spec_ser_bytes(i.signature)
        + spec_ser_bytes(i.pub_key)
}

/// Canonical bytes of one output.
pub open spec fn spec_ser_output(o: TXOutputV) -> Seq<u8> {
    spec_u32_to_le_bytes(o.value as u32) + spec_ser_bytes(o.pub_key_hash)
}

/// Canonical bytes of a list of inputs, in order.
pub open spec fn spec_ser_inputs(s: Seq<TXInputV>) -> Seq<u8>
    decreases s.len(),
{
    if s.len() == 0 {
        Seq::empty()
    } else {
        spec_ser_input(s[0]) + spec_ser_inputs(s.drop_first())
    }
}

/// Canonical bytes of a list of outputs, in order.
pub open spec fn spec_ser_outputs(s: Seq<TXOutputV>) -> Seq<u8>
    decreases s.len(),
{
    if s.len() == 0 {
        Seq::empty()
    } else {
        spec_ser_output(s[0]) + spec_ser_outputs(s.drop_first())
    }
}

/// Canonical bytes of a whole transaction: id, then counted inputs, then
/// counted outputs.
pub open spec fn spec_ser_tx(t: TransactionV) -> Seq<u8> {
    spec_ser_bytes(t.id) + spec_u64_to_le_bytes(t.vin.len() as u64) + spec_ser_inputs(t.vin)
        + spec_u64_to_le_bytes(t.vout.len() as u64) + spec_ser_outputs(t.vout)
}

/// The transaction id: the digest of the canonical bytes with the id
/// cleared.
pub open spec fn spec_tx_hash(t: TransactionV) -> Seq<u8> {
    sha256_of(spec_ser_tx(TransactionV { id: Seq::empty(), vin: t.vin, vout: t.vout }))
}

/// A coinbase: a single input that spends nothing and carries no key.
pub open spec fn spec_is_coinbase(t: TransactionV) -> bool {
    t.vin.len() == 1 && t.vin[0].pub_key.len() == 0
}

pub proof fn lemma_ser_inputs_push(s: Seq<TXInputV>, x: TXInputV)
    ensures
        spec_ser_inputs(s.push(x)) == spec_ser_inputs(s) + spec_ser_input(x),
    decreases s.len(),
{
    if s.len() == 0 {
        assert(s.push(x).drop_first() =~= Seq::<TXInputV>::empty());
        assert(s.push(x)[0] == x);
        assert(spec_ser_inputs(Seq::<TXInputV>::empty()) == Seq::<u8>::empty());
        assert(spec_ser_inputs(s.push(x)) =~= spec_ser_inputs(s) + spec_ser_input(x));
    } else {
        assert(s.push(x).drop_first() =~= s.drop_first().push(x));
        assert(s.push(x)[0] == s[0]);
        lemma_ser_inputs_push(s.drop_first(), x);
        assert(spec_ser_inputs(s.push(x)) =~= spec_ser_inputs(s) + spec_ser_input(x));
    }
}

pub proof fn lemma_ser_outputs_push(s: Seq<TXOutputV>, x: TXOutputV)
    ensures
        spec_ser_outputs(s.push(x)) == spec_ser_outputs(s) + spec_ser_output(x),
    decreases s.len(),
{
    if s.len() == 0 {
        assert(s.push(x).drop_first() =~= Seq::<TXOutputV>::empty());
        assert(s.push(x)[0] == x);
        assert(spec_ser_outputs(Seq::<TXOutputV>::empty()) == Seq::<u8>::empty());
        assert(spec_ser_outputs(s.push(x)) =~= spec_ser_outputs(s) + spec_ser_output(x));
    } else {
        assert(s.push(x).drop_first() =~= s.drop_first().push(x));
        assert(s.push(x)[0] == s[0]);
        lemma_ser_outputs_push(s.drop_first(), x);
        assert(spec_ser_outputs(s.push(x)) =~= spec_ser_outputs(s) + spec_ser_output(x));
    }
}

fn write_input(out: &mut Vec<u8>, input: &TXInput)
    ensures
        final(out)@ == old(out)@ + spec_ser_input(input@),
        spec_input_bounded(input@),
{
    write_bytes(out, input.txid.as_slice());
    write_u64(out, input.vout as u64);
    write_bytes(out, input.signature.as_slice());
    write_bytes(out, input.pub_key.as_slice());
    proof {
        assert(final(out)@ =~= old(out)@ + spec_ser_input(input@));
    }
}

fn write_output(out: &mut Vec<u8>, output: &TXOutput)
    ensures
        final(out)@ == old(out)@ + spec_ser_output(output@),
        spec_output_bounded(output@),
{
    let mut vb = u32_to_le_bytes(output.value as u32);
    out.append(&mut vb);
    write_bytes(out, output.pub_key_hash.as_slice());
    proof {
        assert(final(out)@ =~= old(out)@ + spec_ser_output(output@));
    }
}

// ---------------------------------------------------------------------
// The canonical form read back: a mathematical parser that the readers
// mirror, which is what makes the encoding a faithful round trip.
// ---------------------------------------------------------------------
/// What reading one input at a position yields.
pub open spec fn spec_parse_input(d: Seq<u8>, pos: int) -> Option<(TXInputV, int)> {
    match spec_parse_bytes(d, pos) {
        Some(pt) => match spec_parse_u64(d, pt.1) {
            Some(pv) => if pv.0 <= usize::MAX {
                match spec_parse_bytes(d, pv.1) {
                    Some(ps) => match spec_parse_bytes(d, ps.1) {
                        Some(pk) => Some(
                            (
                                TXInputV {
                                    txid: pt.0,
                                    vout: pv.0 as usize,
                                    signature: ps.0,
                                    pub_key: pk.0,
                                },
                                pk.1,
                            ),
                        ),
                        None => None,
                    },
                    None => None,
                }
            } else {
                None
            },
            None => None,
        },
        None => None,
    }
}

/// What reading one output at a position yields.
pub open spec fn spec_parse_output(d: Seq<u8>, pos: int) -> Option<(TXOutputV, int)> {
    if 0 <= pos && pos + 4 <= d.len() {
        match spec_parse_bytes(d, pos + 4) {
            Some(p) => Some(
                (
                    TXOutputV {
                        value: vstd::bytes::spec_u32_from_le_bytes(
                            d.subrange(pos, pos + 4),
                        ) as i32,
                        pub_key_hash: p.0,
                    },
                    p.1,
                ),
            ),
            None => None,
        }
    } else {
        None
    }
}

/// What reading `n` inputs in a row yields.
pub open spec fn spec_parse_inputs(d: Seq<u8>, pos: int, n: u64) -> Option<(Seq<TXInputV>, int)>
    decreases n,
{
    if n == 0 {
        Some((Seq::empty(), pos))
    } else {
        match spec_parse_input(d, pos) {
            Some(p) => match spec_parse_inputs(d, p.1, (n - 1) as u64) {
                Some(q) => Some((seq![p.0] + q.0, q.1)),
                None => None,
            },
            None => None,
        }
    }
}

/// What reading `n` outputs in a row yields.
pub open spec fn spec_parse_outputs(d: Seq<u8>, pos: int, n: u64) -> Option<(Seq<TXOutputV>, int)>
    decreases n,
{
    if n == 0 {
        Some((Seq::empty(), pos))
    } else {
        match spec_parse_output(d, pos) {
            Some(p) => match spec_parse_outputs(d, p.1, (n - 1) as u64) {
                Some(q) => Some((seq![p.0] + q.0, q.1)),
                None => None,
            },
            None => None,
        }
    }
}

/// What reading one whole transaction at a position yields.
pub open spec fn spec_parse_tx(d: Seq<u8>, pos: int) -> Option<(TransactionV, int)> {
    match spec_parse_bytes(d, pos) {
        Some(pid) => match spec_parse_u64(d, pid.1) {
            Some(pnv) => match spec_parse_inputs(d, pnv.1, pnv.0) {
                Some(pvin) => match spec_parse_u64(d, pvin.1) {
                    Some(pno) => match spec_parse_outputs(d, pno.1, pno.0) {
                        Some(pvout) => Some(
                            (TransactionV { id: pid.0, vin: pvin.0, vout: pvout.0 }, pvout.1),
                        ),
                        None => None,
                    },
                    None => None,
                },
                None => None,
            },
            None => None,
        },
        None => None,
    }
}

/// The length fields of the canonical form carry these faithfully.
pub open spec fn spec_input_bounded(i: TXInputV) -> bool {
    i.txid.len() <= u64::MAX && i.signature.len() <= u64::MAX && i.pub_key.len() <= u64::MAX
}

pub open spec fn spec_output_bounded(o: TXOutputV) -> bool {
    o.pub_key_hash.len() <= u64::MAX
}

/// Every count and byte-string length fits its canonical length field.
/// The form of every transaction held in memory is bounded.
pub open spec fn spec_tx_bounded(t: TransactionV) -> bool {
    &&& t.id.len() <= u64::MAX
    &&& t.vin.len() <= u64::MAX
    &&& t.vout.len() <= u64::MAX
    &&& (forall|i: int| 0 <= i < t.vin.len() ==> spec_input_bounded(#[trigger] t.vin[i]))
    &&& (forall|i: int| 0 <= i < t.vout.len() ==> spec_output_bounded(#[trigger] t.vout[i]))
}

/// Where a canonical input lies, the parser yields exactly it.
pub proof fn lemma_parse_ser_input(d: Seq<u8>, pos: int, x: TXInputV)
    requires
        0 <= pos,
        spec_input_bounded(x),
        pos + spec_ser_input(x).len() <= d.len(),
        d.subrange(pos, pos + spec_ser_input(x).len()) == spec_ser_input(x),
    ensures
        spec_parse_input(d, pos) == Some((x, pos + spec_ser_input(x).len())),
{
    vstd::bytes::lemma_auto_spec_u64_to_from_le_bytes();
    let whole = spec_ser_input(x);
    assert forall|i: int| pos <= i < pos + whole.len() implies #[trigger] d[i] == whole[i - pos]
        by {
        assert(d.subrange(pos, pos + whole.len() as int)[i - pos] == whole[i - pos]);
    }
    let la = 8 + x.txid.len() as int;
    let lb = 8int;
    let lc = 8 + x.signature.len() as int;
    let p1 = pos + la;
    let p2 = p1 + lb;
    let p3 = p2 + lc;
    let p4 = pos + whole.len() as int;
    assert(d.subrange(pos, p1) =~= spec_ser_bytes(x.txid));
    lemma_parse_ser_bytes(d, pos, x.txid);
    assert(d.subrange(p1, p1 + 8) =~= spec_u64_to_le_bytes(x.vout as u64));
    lemma_parse_ser_u64(d, p1, x.vout as u64);
    assert(x.vout as u64 <= usize::MAX);
    assert(d.subrange(p2, p2 + 8 + x.signature.len() as int) =~= spec_ser_bytes(x.signature));
    lemma_parse_ser_bytes(d, p2, x.signature);
    assert(d.subrange(p3, p3 + 8 + x.pub_key.len() as int) =~= spec_ser_bytes(x.pub_key));
    lemma_parse_ser_bytes(d, p3, x.pub_key);
    assert(spec_parse_input(d, pos) == Some((x, p4)));
}

/// Where a canonical output lies, the parser yields exactly it.
pub proof fn lemma_parse_ser_output(d: Seq<u8>, pos: int, x: TXOutputV)
    requires
        0 <= pos,
        spec_output_bounded(x),
        pos + spec_ser_output(x).len() <= d.len(),
        d.subrange(pos, pos + spec_ser_output(x).len()) == spec_ser_output(x),
    ensures
        spec_parse_output(d, pos) == Some((x, pos + spec_ser_output(x).len())),
{
    vstd::bytes::lemma_auto_spec_u32_to_from_le_bytes();
    vstd::bytes::lemma_auto_spec_u64_to_from_le_bytes();
    let whole = spec_ser_output(x);
    assert forall|i: int| pos <= i < pos + whole.len() implies #[trigger] d[i] == whole[i - pos]
        by {
        assert(d.subrange(pos, pos + whole.len() as int)[i - pos] == whole[i - pos]);
    }
    let p1 = pos + 4;
    assert(d.subrange(pos, p1) =~= spec_u32_to_le_bytes(x.value as u32));
    assert(vstd::bytes::spec_u32_from_le_bytes(d.subrange(pos, p1)) == x.value as u32);
    let v: i32 = x.value;
    assert((v as u32) as i32 == v) by (bit_vector);
    assert(d.subrange(p1, p1 + 8 + x.pub_key_hash.len() as int) =~= spec_ser_bytes(
        x.pub_key_hash,
    ));
    lemma_parse_ser_bytes(d, p1, x.pub_key_hash);
}

/// Where canonical inputs lie in a row, the parser yields exactly them.
pub proof fn lemma_parse_ser_inputs(d: Seq<u8>, pos: int, s: Seq<TXInputV>)
    requires
        0 <= pos,
        s.len() <= u64::MAX,
        forall|i: int| 0 <= i < s.len() ==> spec_input_bounded(#[trigger] s[i]),
        pos + spec_ser_inputs(s).len() <= d.len(),
        d.subrange(pos, pos + spec_ser_inputs(s).len()) == spec_ser_inputs(s),
    ensures
        spec_parse_inputs(d, pos, s.len() as u64) == Some((s, pos + spec_ser_inputs(s).len())),
    decreases s.len(),
{
    if s.len() == 0 {
        assert(spec_parse_inputs(d, pos, 0) == Some((Seq::<TXInputV>::empty(), pos)));
        assert(s =~= Seq::<TXInputV>::empty());
    } else {
        let whole = spec_ser_inputs(s);
        assert forall|i: int|
            pos <= i < pos + whole.len() implies #[trigger] d[i] == whole[i - pos] by {
            assert(d.subrange(pos, pos + whole.len() as int)[i - pos] == whole[i - pos]);
        }
        let l0 = spec_ser_input(s[0]).len() as int;
        assert(d.subrange(pos, pos + l0) =~= spec_ser_input(s[0]));
        lemma_parse_ser_input(d, pos, s[0]);
        let rest = s.drop_first();
        assert forall|i: int| 0 <= i < rest.len() implies spec_input_bounded(
            #[trigger] rest[i],
        ) by {
            assert(rest[i] == s[i + 1]);
        }
        assert(d.subrange(pos + l0, pos + l0 + spec_ser_inputs(rest).len() as int)
            =~= spec_ser_inputs(rest));
        lemma_parse_ser_inputs(d, pos + l0, rest);
        assert((s.len() - 1) as u64 == rest.len() as u64);
        assert(seq![s[0]] + rest =~= s);
    }
}

/// Where canonical outputs lie in a row, the parser yields exactly them.
pub proof fn lemma_parse_ser_outputs(d: Seq<u8>, pos: int, s: Seq<TXOutputV>)
    requires
        0 <= pos,
        s.len() <= u64::MAX,
        forall|i: int| 0 <= i < s.len() ==> spec_output_bounded(#[trigger] s[i]),
        pos + spec_ser_outputs(s).len() <= d.len(),
        d.subrange(pos, pos + spec_ser_outputs(s).len()) == spec_ser_outputs(s),
    ensures
        spec_parse_outputs(d, pos, s.len() as u64) == Some((s, pos + spec_ser_outputs(s).len())),
    decreases s.len(),
{
    if s.len() == 0 {
        assert(spec_parse_outputs(d, pos, 0) == Some((Seq::<TXOutputV>::empty(), pos)));
        assert(s =~= Seq::<TXOutputV>::empty());
    } else {
        let whole = spec_ser_outputs(s);
        assert forall|i: int|
            pos <= i < pos + whole.len() implies #[trigger] d[i] == whole[i - pos] by {
            assert(d.subrange(pos, pos + whole.len() as int)[i - pos] == whole[i - pos]);
        }
        let l0 = spec_ser_output(s[0]).len() as int;
        assert(d.subrange(pos, pos + l0) =~= spec_ser_output(s[0]));
        lemma_parse_ser_output(d, pos, s[0]);
        let rest = s.drop_first();
        assert forall|i: int| 0 <= i < rest.len() implies spec_output_bounded(
            #[trigger] rest[i],
        ) by {
            assert(rest[i] == s[i + 1]);
        }
        assert(d.subrange(pos + l0, pos + l0 + spec_ser_outputs(rest).len() as int)
            =~= spec_ser_outputs(rest));
        lemma_parse_ser_outputs(d, pos + l0, rest);
        assert((s.len() - 1) as u64 == rest.len() as u64);
        assert(seq![s[0]] + rest =~= s);
    }
}

/// Where a canonical transaction lies, the parser yields exactly it: the
/// encoding loses nothing.
pub proof fn lemma_parse_ser_tx(d: Seq<u8>, pos: int, t: TransactionV)
    requires
        0 <= pos,
        spec_tx_bounded(t),
        pos + spec_ser_tx(t).len() <= d.len(),
        d.subrange(pos, pos + spec_ser_tx(t).len()) == spec_ser_tx(t),
    ensures
        spec_parse_tx(d, pos) == Some((t, pos + spec_ser_tx(t).len())),
{
    vstd::bytes::lemma_auto_spec_u64_to_from_le_bytes();
    let whole = spec_ser_tx(t);
    assert forall|i: int| pos <= i < pos + whole.len() implies #[trigger] d[i] == whole[i - pos]
        by {
        assert(d.subrange(pos, pos + whole.len() as int)[i - pos] == whole[i - pos]);
    }
    let p0 = pos + 8 + t.id.len() as int;
    let p1 = p0 + 8;
    let p2 = p1 + spec_ser_inputs(t.vin).len() as int;
    let p3 = p2 + 8;
    let p4 = p3 + spec_ser_outputs(t.vout).len() as int;
    assert(d.subrange(pos, p0) =~= spec_ser_bytes(t.id));
    lemma_parse_ser_bytes(d, pos, t.id);
    assert(d.subrange(p0, p1) =~= spec_u64_to_le_bytes(t.vin.len() as u64));
    lemma_parse_ser_u64(d, p0, t.vin.len() as u64);
    assert(d.subrange(p1, p2) =~= spec_ser_inputs(t.vin));
    lemma_parse_ser_inputs(d, p1, t.vin);
    assert(d.subrange(p2, p3) =~= spec_u64_to_le_bytes(t.vout.len() as u64));
    lemma_parse_ser_u64(d, p2, t.vout.len() as u64);
    assert(d.subrange(p3, p4) =~= spec_ser_outputs(t.vout));
    lemma_parse_ser_outputs(d, p3, t.vout);
    assert(spec_parse_tx(d, pos) == Some((t, p4)));
}

/// Equal canonical bytes come from equal transactions: the encoding is
/// one to one.
pub proof fn lemma_ser_tx_injective(a: TransactionV, b: TransactionV)
    requires
        spec_tx_bounded(a),
        spec_tx_bounded(b),
        spec_ser_tx(a) == spec_ser_tx(b),
    ensures
        a == b,
{
    let d = spec_ser_tx(a);
    assert(d.subrange(0, d.len() as int) =~= d);
    lemma_parse_ser_tx(d, 0, a);
    lemma_parse_ser_tx(d, 0, b);
}

fn read_input(data: &[u8], pos: usize) -> (r: Option<(TXInput, usize)>)
    ensures
        (r matches Some(p) ==> pos <= p.1 <= data@.len() && spec_ser_input(p.0@)
            == data@.subrange(pos as int, p.1 as int) && spec_parse_input(data@, pos as int)
            == Some((p.0@, p.1 as int))),
        r is None ==> spec_parse_input(data@, pos as int) is None,
{
    let (txid, p1) = match read_bytes(data, pos) {
        Some(p) => p,
        None => {
            return None;
        },
    };
    let (vout64, p2) = match read_u64(data, p1) {
        Some(p) => p,
        None => {
            return None;
        },
    };
    if vout64 > usize::MAX as u64 {
        return None;
    }
    let vout = vout64 as usize;
    let (signature, p3) = match read_bytes(data, p2) {
        Some(p) => p,
        None => {
            return None;
        },
    };
    let (pub_key, p4) = match read_bytes(data, p3) {
        Some(p) => p,
        None => {
            return None;
        },
    };
    let input = TXInput { txid, vout, signature, pub_key };
    proof {
        assert(vout as u64 == vout64);
        assert(spec_ser_input(input@) =~= data@.subrange(pos as int, p4 as int));
    }
    Some((input, p4))
}

fn read_output(data: &[u8], pos: usize) -> (r: Option<(TXOutput, usize)>)
    ensures
        (r matches Some(p) ==> pos <= p.1 <= data@.len() && spec_ser_output(p.0@)
            == data@.subrange(pos as int, p.1 as int) && spec_parse_output(data@, pos as int)
            == Some((p.0@, p.1 as int))),
        r is None ==> spec_parse_output(data@, pos as int) is None,
{
    if data.len() < 4 || pos > data.len() - 4 {
        return None;
    }
    let s = slice_subrange(data, pos, pos + 4);
    let value32 = u32_from_le_bytes(s);
    proof {
        vstd::bytes::lemma_auto_spec_u32_to_from_le_bytes();
    }
    let value = value32 as i32;
    let (pub_key_hash, p1) = match read_bytes(data, pos + 4) {
        Some(p) => p,
        None => {
            return None;
        },
    };
    let output = TXOutput { value, pub_key_hash };
    proof {
        assert(value as u32 == value32) by (bit_vector)
            requires
                value == value32 as i32,
        ;
        assert(spec_ser_output(output@) =~= data@.subrange(pos as int, p1 as int));
    }
    Some((output, p1))
}

// ---------------------------------------------------------------------
// TXInput
// ---------------------------------------------------------------------
impl TXInput {
    /// A bare input that spends the named output, not yet signed.
    pub fn new(txid: &[u8], vout: usize) -> (r: Self)
        ensures
            r@ == (TXInputV {
                txid: txid@,
                vout,
                signature: Seq::empty(),
                pub_key: Seq::empty(),
            }),
    {
        let mut t: Vec<u8> = Vec::new();
        t.extend_from_slice(txid);
        proof {
            assert(t@ =~= txid@);
        }
        TXInput { txid: t, vout, signature: Vec::new(), pub_key: Vec::new() }
    }

    pub fn get_txid(&self) -> (r: &[u8])
        ensures
            r@ == self@.txid,
    {
        self.txid.as_slice()
    }

    pub fn get_vout(&self) -> (r: usize)
        ensures
            r == self@.vout,
    {
        self.vout
    }

    pub fn get_pub_key(&self) -> (r: &[u8])
        ensures
            r@ == self@.pub_key,
    {
        self.pub_key.as_slice()
    }

    pub fn get_signature(&self) -> (r: &[u8])
        ensures
            r@ == self@.signature,
    {
        self.signature.as_slice()
    }

    /// Whether the key carried by this input hashes to the given lock.
    pub fn uses_key(&self, pub_key_hash: &[u8]) -> (r: bool)
        ensures
            r == (spec_hash_pub_key(self@.pub_key) == pub_key_hash@),
    {
        let locking_hash = hash_pub_key(self.pub_key.as_slice());
        bytes_eq(locking_hash.as_slice(), pub_key_hash)
    }
}

impl Clone for TXInput {
    fn clone(&self) -> (r: Self)
        ensures
            r@ == self@,
    {
        let r = TXInput {
            txid: self.txid.clone(),
            vout: self.vout,
            signature: self.signature.clone(),
            pub_key: self.pub_key.clone(),
        };
        proof {
            assert(r.txid@ =~= self.txid@);
            assert(r.signature@ =~= self.signature@);
            assert(r.pub_key@ =~= self.pub_key@);
        }
        r
    }
}

// ---------------------------------------------------------------------
// TXOutput
// ---------------------------------------------------------------------
impl TXOutput {
    /// An output of the given value locked to the given address.
    pub fn new(value: i32, address: &str) -> (r: Self)
        requires
            spec_addr_decodable(address@),
        ensures
            r@.value == value,
            r@.pub_key_hash == spec_pkh_of_addr(address@),
    {
        let mut output = TXOutput { value, pub_key_hash: Vec::new() };
        output.lock(address);
        output
    }

    /// Like `new`, after checking that the address decodes; `None` when
    /// it does not.
    pub fn try_new(value: i32, address: &str) -> (r: Option<Self>)
        ensures
            match r {
                Some(o) => spec_addr_decodable(address@) && o@.value == value && o@.pub_key_hash
                    == spec_pkh_of_addr(address@),
                None => !spec_addr_decodable(address@),
            },
    {
        match base58_decode(address) {
            Some(payload) => {
                if payload.len() > crate::wallet::ADDRESS_CHECK_SUM_LEN {
                    Some(Self::new(value, address))
                } else {
                    None
                }
            },
            None => None,
        }
    }

    pub fn get_value(&self) -> (r: i32)
        ensures
            r == self@.value,
    {
        self.value
    }

    pub fn get_pub_key_hash(&self) -> (r: &[u8])
        ensures
            r@ == self@.pub_key_hash,
    {
        self.pub_key_hash.as_slice()
    }

    /// Locks this output to the key hash inside the address.
    pub fn lock(&mut self, address: &str)
        requires
            spec_addr_decodable(address@),
        ensures
            final(self)@.value == old(self)@.value,
            final(self)@.pub_key_hash == spec_pkh_of_addr(address@),
    {
        match base58_decode(address) {
            Some(payload) => {
                let cut = payload.len() - crate::wallet::ADDRESS_CHECK_SUM_LEN;
                let pkh = slice_subrange(payload.as_slice(), 1, cut);
                let mut v: Vec<u8> = Vec::new();
                v.extend_from_slice(pkh);
                proof {
                    assert(v@ =~= spec_pkh_of_addr(address@));
                }
                self.pub_key_hash = v;
            },
            None => {
                proof {
                    assert(false);
                }
            },
        }
    }

    /// Whether this output is locked to the given key hash.
    pub fn is_locked_with_key(&self, pub_key_hash: &[u8]) -> (r: bool)
        ensures
            r == (self@.pub_key_hash == pub_key_hash@),
    {
        bytes_eq(self.pub_key_hash.as_slice(), pub_key_hash)
    }
}

impl Clone for TXOutput {
    fn clone(&self) -> (r: Self)
        ensures
            r@ == self@,
    {
        let r = TXOutput { value: self.value, pub_key_hash: self.pub_key_hash.clone() };
        proof {
            assert(r.pub_key_hash@ =~= self.pub_key_hash@);
        }
        r
    }
}

pub(crate) fn clone_inputs(v: &Vec<TXInput>) -> (r: Vec<TXInput>)
    ensures
        r.deep_view() == v.deep_view(),
{
    let mut r: Vec<TXInput> = Vec::new();
    let mut i: usize = 0;
    while i < v.len()
        invariant
            i <= v@.len(),
            r.deep_view() =~= v.deep_view().take(i as int),
        decreases v@.len() - i,
    {
        let ghost prev = r.deep_view();
        r.push(v[i].clone());
        proof {
            assert(r.deep_view() =~= prev.push(v.deep_view()[i as int]));
            assert(v.deep_view().take(i + 1) =~= v.deep_view().take(i as int).push(
                v.deep_view()[i as int],
            ));
        }
        i = i + 1;
    }
    proof {
        assert(r.deep_view() =~= v.deep_view());
    }
    r
}

pub(crate) fn clone_outputs(v: &Vec<TXOutput>) -> (r: Vec<TXOutput>)
    ensures
        r.deep_view() == v.deep_view(),
{
    let mut r: Vec<TXOutput> = Vec::new();
    let mut i: usize = 0;
    while i < v.len()
        invariant
            i <= v@.len(),
            r.deep_view() =~= v.deep_view().take(i as int),
        decreases v@.len() - i,
    {
        let ghost prev = r.deep_view();
        r.push(v[i].clone());
        proof {
            assert(r.deep_view() =~= prev.push(v.deep_view()[i as int]));
            assert(v.deep_view().take(i + 1) =~= v.deep_view().take(i as int).push(
                v.deep_view()[i as int],
            ));
        }
        i = i + 1;
    }
    proof {
        assert(r.deep_view() =~= v.deep_view());
    }
    r
}

// ---------------------------------------------------------------------
// Transaction
// ---------------------------------------------------------------------
impl Transaction {
    /// A coinbase transaction paying the subsidy to the given address.
    /// Its single input spends nothing; its signature field carries a
    /// random sixteen-byte tag so coinbase ids differ.
    pub fn new_coinbase_tx(to: &str) -> (r: Self)
        requires
            spec_addr_decodable(to@),
        ensures
            spec_is_coinbase(r@),
            r@.vin.len() == 1,
            r@.vin[0].txid.len() == 0,
            r@.vin[0].vout == 0,
            r@.vin[0].signature.len() == 16,
            r@.vin[0].pub_key.len() == 0,
            r@.vout.len() == 1,
            r@.vout[0].value == SUBSIDY,
            r@.vout[0].pub_key_hash == spec_pkh_of_addr(to@),
            r@.id == spec_tx_hash(r@),
    {
        let tx_output = TXOutput::new(SUBSIDY, to);
        let tag = uuid_v4_bytes();
        let tx_input = TXInput {
            txid: Vec::new(),
            vout: 0,
            signature: tag,
            pub_key: Vec::new(),
        };
        let mut vin: Vec<TXInput> = Vec::new();
        vin.push(tx_input);
        let mut vout: Vec<TXOutput> = Vec::new();
        vout.push(tx_output);
        let mut tx = Transaction { id: Vec::new(), vin, vout };
        let id = tx.hash();
        tx.id = id;
        tx
    }

    /// Like `new_coinbase_tx`, after checking that the address decodes;
    /// `None` when it does not.
    pub fn new_coinbase_tx_checked(to: &str) -> (r: Option<Self>)
        ensures
            match r {
                Some(t) => spec_addr_decodable(to@) && spec_is_coinbase(t@) && t@.id
                    == spec_tx_hash(t@) && t@.vin[0].signature.len() == 16 && t@.vout.len() == 1
                    && t@.vout[0].value == SUBSIDY && t@.vout[0].pub_key_hash == spec_pkh_of_addr(
                    to@,
                ),
                None => !spec_addr_decodable(to@),
            },
    {
        match base58_decode(to) {
            Some(payload) => {
                if payload.len() > crate::wallet::ADDRESS_CHECK_SUM_LEN {
                    Some(Self::new_coinbase_tx(to))
                } else {
                    None
                }
            },
            None => None,
        }
    }

    /// Whether this transaction is a coinbase.
    pub fn is_coinbase(&self) -> (r: bool)
        ensures
            r == spec_is_coinbase(self@),
    {
        self.vin.len() == 1 && self.vin[0].pub_key.is_empty()
    }

    /// The id bytes.
    pub fn get_id(&self) -> (r: &[u8])
        ensures
            r@ == self@.id,
    {
        self.id.as_slice()
    }

    pub fn get_id_bytes(&self) -> (r: Vec<u8>)
        ensures
            r@ == self@.id,
    {
        let mut v: Vec<u8> = Vec::new();
        v.extend_from_slice(self.id.as_slice());
        proof {
            assert(v@ =~= self.id@);
        }
        v
    }

    /// The id as lowercase hex text.
    pub fn get_id_hex(&self) -> (r: String)
        ensures
            r@ == spec_hex_encode(self@.id),
    {
        hex_encode(self.id.as_slice())
    }

    pub fn get_vin(&self) -> (r: &[TXInput])
        ensures
            r.deep_view() == self@.vin,
    {
        self.vin.as_slice()
    }

    pub fn get_vout(&self) -> (r: &[TXOutput])
        ensures
            r.deep_view() == self@.vout,
    {
        self.vout.as_slice()
    }

    /// The canonical bytes of this transaction.
    pub fn serialize(&self) -> (r: Vec<u8>)
        ensures
            r@ == spec_ser_tx(self@),
            spec_tx_bounded(self@),
    {
        let mut out: Vec<u8> = Vec::new();
        write_bytes(&mut out, self.id.as_slice());
        write_u64(&mut out, self.vin.len() as u64);
        let ghost head = out@;
        let mut i: usize = 0;
        while i < self.vin.len()
            invariant
                i <= self.vin@.len(),
                out@ == head + spec_ser_inputs(self@.vin.take(i as int)),
                forall|q: int| 0 <= q < i ==> spec_input_bounded(#[trigger] self@.vin[q]),
            decreases self.vin@.len() - i,
        {
            proof {
                lemma_ser_inputs_push(self@.vin.take(i as int), self@.vin[i as int]);
                assert(self@.vin.take(i as int).push(self@.vin[i as int]) =~= self@.vin.take(
                    i + 1,
                ));
            }
            write_input(&mut out, &self.vin[i]);
            i = i + 1;
        }
        proof {
            assert(self@.vin.take(self.vin@.len() as int) =~= self@.vin);
        }
        write_u64(&mut out, self.vout.len() as u64);
        let ghost head2 = out@;
        let mut j: usize = 0;
        while j < self.vout.len()
            invariant
                j <= self.vout@.len(),
                out@ == head2 + spec_ser_outputs(self@.vout.take(j as int)),
                forall|q: int| 0 <= q < j ==> spec_output_bounded(#[trigger] self@.vout[q]),
            decreases self.vout@.len() - j,
        {
            proof {
                lemma_ser_outputs_push(self@.vout.take(j as int), self@.vout[j as int]);
                assert(self@.vout.take(j as int).push(self@.vout[j as int]) =~= self@.vout.take(
                    j + 1,
                ));
            }
            write_output(&mut out, &self.vout[j]);
            j = j + 1;
        }
        proof {
            assert(self@.vout.take(self.vout@.len() as int) =~= self@.vout);
            assert(out@ =~= spec_ser_tx(self@));
        }
        out
    }

    /// Reads a transaction back from canonical bytes. Succeeds exactly
    /// on byte strings that are the canonical form of a bounded value,
    /// and yields that value.
    pub fn deserialize(bytes: &[u8]) -> (r: Option<Self>)
        ensures
            (r matches Some(t) ==> spec_ser_tx(t@) == bytes@ && spec_parse_tx(bytes@, 0) == Some(
                (t@, bytes@.len() as int),
            )),
            r is None ==> forall|t: TransactionV|
                spec_tx_bounded(t) ==> spec_ser_tx(t) != bytes@,
    {
        let (t, end) = match read_tx(bytes, 0) {
            Some(p) => p,
            None => {
                proof {
                    assert forall|u: TransactionV|
                        spec_tx_bounded(u) implies spec_ser_tx(u) != bytes@ by {
                        if spec_ser_tx(u) == bytes@ {
                            assert(bytes@.subrange(0, bytes@.len() as int) =~= bytes@);
                            lemma_parse_ser_tx(bytes@, 0, u);
                        }
                    }
                }
                return None;
            },
        };
        if end != bytes.len() {
            proof {
                assert forall|u: TransactionV|
                    spec_tx_bounded(u) implies spec_ser_tx(u) != bytes@ by {
                    if spec_ser_tx(u) == bytes@ {
                        assert(bytes@.subrange(0, bytes@.len() as int) =~= bytes@);
                        lemma_parse_ser_tx(bytes@, 0, u);
                    }
                }
            }
            return None;
        }
        proof {
            assert(bytes@.subrange(0, end as int) =~= bytes@);
        }
        Some(t)
    }
}

/// Reads one transaction in canonical form starting at `pos`.
pub fn read_tx(bytes: &[u8], pos: usize) -> (r: Option<(Transaction, usize)>)
    ensures
        (r matches Some(p) ==> pos <= p.1 <= bytes@.len() && spec_ser_tx(p.0@) == bytes@.subrange(
            pos as int,
            p.1 as int,
        ) && spec_parse_tx(bytes@, pos as int) == Some((p.0@, p.1 as int))),
        r is None ==> spec_parse_tx(bytes@, pos as int) is None,
{
    let start = pos;
    let (id, p0) = match read_bytes(bytes, pos) {
            Some(p) => p,
            None => {
                return None;
            },
    };
    let (nvin, p1) = match read_u64(bytes, p0) {
        Some(p) => p,
        None => {
            return None;
        },
    };
    let mut vin: Vec<TXInput> = Vec::new();
    let mut cur = p1;
    let mut k: u64 = 0;
    proof {
        assert(vin.deep_view() =~= Seq::<TXInputV>::empty());
        if spec_parse_inputs(bytes@, p1 as int, nvin) is Some {
            let q = spec_parse_inputs(bytes@, p1 as int, nvin)->Some_0;
            assert(vin.deep_view() + q.0 =~= q.0);
        }
    }
    while k < nvin
            invariant
                start == pos,
                k <= nvin,
                vin@.len() == k,
                start <= p0 <= p1 <= cur <= bytes@.len(),
                spec_parse_bytes(bytes@, start as int) == Some((id@, p0 as int)),
                spec_parse_u64(bytes@, p0 as int) == Some((nvin, p1 as int)),
                spec_ser_inputs(vin.deep_view()) == bytes@.subrange(p1 as int, cur as int),
                match spec_parse_inputs(bytes@, cur as int, (nvin - k) as u64) {
                    Some(q) => spec_parse_inputs(bytes@, p1 as int, nvin) == Some(
                        (vin.deep_view() + q.0, q.1),
                    ),
                    None => spec_parse_inputs(bytes@, p1 as int, nvin) is None,
                },
            decreases nvin - k,
        {
            let ghost prev = vin.deep_view();
            let ghost prev_pos = cur;
            let (input, p2) = match read_input(bytes, cur) {
                Some(p) => p,
                None => {
                    proof {
                        assert(spec_parse_inputs(bytes@, cur as int, (nvin - k) as u64) is None);
                        assert(spec_parse_tx(bytes@, start as int) is None);
                    }
                    return None;
                },
            };
            vin.push(input);
            cur = p2;
            k = k + 1;
            proof {
                assert(vin.deep_view() =~= prev.push(input@));
                lemma_ser_inputs_push(prev, input@);
                assert(bytes@.subrange(p1 as int, cur as int) =~= bytes@.subrange(
                    p1 as int,
                    prev_pos as int,
                ) + bytes@.subrange(prev_pos as int, cur as int));
                let nb = (nvin + 1 - k) as u64;
                if spec_parse_inputs(bytes@, cur as int, (nvin - k) as u64) is Some {
                    let q = spec_parse_inputs(bytes@, cur as int, (nvin - k) as u64)->Some_0;
                    assert(spec_parse_inputs(bytes@, prev_pos as int, nb) == Some(
                        (seq![input@] + q.0, q.1),
                    ));
                    assert(prev + (seq![input@] + q.0) =~= vin.deep_view() + q.0);
                } else {
                    assert(spec_parse_inputs(bytes@, prev_pos as int, nb) is None);
                }
            }
        }
    proof {
        assert(spec_parse_inputs(bytes@, cur as int, 0) == Some(
            (Seq::<TXInputV>::empty(), cur as int),
        ));
        assert(vin.deep_view() + Seq::<TXInputV>::empty() =~= vin.deep_view());
        assert(spec_parse_inputs(bytes@, p1 as int, nvin) == Some((vin.deep_view(), cur as int)));
    }
        let (nvout, p3) = match read_u64(bytes, cur) {
            Some(p) => p,
            None => {
                proof {
                    assert(spec_parse_tx(bytes@, start as int) is None);
                }
                return None;
            },
        };
        let ghost mid = cur;
        let mut vout: Vec<TXOutput> = Vec::new();
        let mut pos2 = p3;
        let mut m: u64 = 0;
        proof {
            assert(vout.deep_view() =~= Seq::<TXOutputV>::empty());
            if spec_parse_outputs(bytes@, p3 as int, nvout) is Some {
                let q = spec_parse_outputs(bytes@, p3 as int, nvout)->Some_0;
                assert(vout.deep_view() + q.0 =~= q.0);
            }
        }
        while m < nvout
            invariant
                start == pos,
                m <= nvout,
                vout@.len() == m,
                start <= p0 <= p1 <= mid <= p3 <= pos2 <= bytes@.len(),
                spec_parse_bytes(bytes@, start as int) == Some((id@, p0 as int)),
                spec_parse_u64(bytes@, p0 as int) == Some((nvin, p1 as int)),
                spec_parse_inputs(bytes@, p1 as int, nvin) == Some((vin.deep_view(), mid as int)),
                spec_parse_u64(bytes@, mid as int) == Some((nvout, p3 as int)),
                spec_ser_inputs(vin.deep_view()) == bytes@.subrange(p1 as int, mid as int),
                spec_ser_outputs(vout.deep_view()) == bytes@.subrange(p3 as int, pos2 as int),
                match spec_parse_outputs(bytes@, pos2 as int, (nvout - m) as u64) {
                    Some(q) => spec_parse_outputs(bytes@, p3 as int, nvout) == Some(
                        (vout.deep_view() + q.0, q.1),
                    ),
                    None => spec_parse_outputs(bytes@, p3 as int, nvout) is None,
                },
            decreases nvout - m,
        {
            let ghost prev = vout.deep_view();
            let ghost prev_pos = pos2;
            let (output, p4) = match read_output(bytes, pos2) {
                Some(p) => p,
                None => {
                    proof {
                        assert(spec_parse_outputs(bytes@, pos2 as int, (nvout - m) as u64)
                            is None);
                        assert(spec_parse_tx(bytes@, start as int) is None);
                    }
                    return None;
                },
            };
            vout.push(output);
            pos2 = p4;
            m = m + 1;
            proof {
                assert(vout.deep_view() =~= prev.push(output@));
                lemma_ser_outputs_push(prev, output@);
                assert(bytes@.subrange(p3 as int, pos2 as int) =~= bytes@.subrange(
                    p3 as int,
                    prev_pos as int,
                ) + bytes@.subrange(prev_pos as int, pos2 as int));
                let nb = (nvout + 1 - m) as u64;
                if spec_parse_outputs(bytes@, pos2 as int, (nvout - m) as u64) is Some {
                    let q = spec_parse_outputs(bytes@, pos2 as int, (nvout - m) as u64)->Some_0;
                    assert(spec_parse_outputs(bytes@, prev_pos as int, nb) == Some(
                        (seq![output@] + q.0, q.1),
                    ));
                    assert(prev + (seq![output@] + q.0) =~= vout.deep_view() + q.0);
                } else {
                    assert(spec_parse_outputs(bytes@, prev_pos as int, nb) is None);
                }
            }
        }
        proof {
            assert(spec_parse_outputs(bytes@, pos2 as int, 0) == Some(
                (Seq::<TXOutputV>::empty(), pos2 as int),
            ));
            assert(vout.deep_view() + Seq::<TXOutputV>::empty() =~= vout.deep_view());
            assert(spec_parse_outputs(bytes@, p3 as int, nvout) == Some(
                (vout.deep_view(), pos2 as int),
            ));
        }
    let t = Transaction { id, vin, vout };
    proof {
        assert(t@.vin.len() as u64 == nvin);
        assert(t@.vout.len() as u64 == nvout);
        assert(spec_ser_bytes(t@.id) == bytes@.subrange(start as int, p0 as int));
        assert(spec_u64_to_le_bytes(t@.vin.len() as u64) == bytes@.subrange(p0 as int, p1 as int));
        assert(spec_ser_inputs(t@.vin) == bytes@.subrange(p1 as int, mid as int));
        assert(spec_u64_to_le_bytes(t@.vout.len() as u64) == bytes@.subrange(
            mid as int,
            p3 as int,
        ));
        assert(spec_ser_outputs(t@.vout) == bytes@.subrange(p3 as int, pos2 as int));
        assert(bytes@.subrange(start as int, pos2 as int) =~= bytes@.subrange(
            start as int,
            p0 as int,
        ) + bytes@.subrange(p0 as int, p1 as int) + bytes@.subrange(p1 as int, mid as int)
            + bytes@.subrange(mid as int, p3 as int) + bytes@.subrange(p3 as int, pos2 as int));
        assert(spec_ser_tx(t@) =~= bytes@.subrange(start as int, pos2 as int));
        assert(spec_parse_tx(bytes@, start as int) == Some((t@, pos2 as int)));
    }
    Some((t, pos2))
}

impl Transaction {
    /// A copy whose inputs carry no signature and no key: the shape that
    /// per-input signing messages are computed over.
    pub fn trimmed_copy(&self) -> (r: Self)
        ensures
            r@ == spec_trimmed(self@),
    {
        let mut inputs: Vec<TXInput> = Vec::new();
        let mut i: usize = 0;
        while i < self.vin.len()
            invariant
                i <= self.vin@.len(),
                inputs.deep_view() =~= self@.vin.take(i as int).map_values(
                    |x: TXInputV| spec_trimmed_input(x),
                ),
            decreases self.vin@.len() - i,
        {
            let input = &self.vin[i];
            inputs.push(TXInput::new(input.get_txid(), input.get_vout()));
            proof {
                assert(self@.vin.take(i + 1).map_values(|x: TXInputV| spec_trimmed_input(x))
                    =~= self@.vin.take(i as int).map_values(
                    |x: TXInputV| spec_trimmed_input(x),
                ).push(spec_trimmed_input(self@.vin[i as int])));
            }
            i = i + 1;
        }
        let outputs = clone_outputs(&self.vout);
        let id = self.get_id_bytes();
        proof {
            assert(self@.vin.take(self.vin@.len() as int) =~= self@.vin);
        }
        Transaction { id, vin: inputs, vout: outputs }
    }

    /// The id this transaction should carry: the digest of its canonical
    /// bytes with the id cleared.
    pub fn hash(&self) -> (r: Vec<u8>)
        ensures
            r@ == spec_tx_hash(self@),
            r@.len() == 32,
    {
        let tx_copy = Transaction {
            id: Vec::new(),
            vin: clone_inputs(&self.vin),
            vout: clone_outputs(&self.vout),
        };
        let ser = tx_copy.serialize();
        sha256_digest(ser.as_slice())
    }
}

/// One input with signature and key cleared.
pub open spec fn spec_trimmed_input(i: TXInputV) -> TXInputV {
    TXInputV { txid: i.txid, vout: i.vout, signature: Seq::empty(), pub_key: Seq::empty() }
}

/// The trimmed form of a transaction: same id and outputs, inputs bare.
pub open spec fn spec_trimmed(t: TransactionV) -> TransactionV {
    TransactionV {
        id: t.id,
        vin: t.vin.map_values(|i: TXInputV| spec_trimmed_input(i)),
        vout: t.vout,
    }
}

// ---------------------------------------------------------------------
// Signing and verification
// ---------------------------------------------------------------------
/// The message one input signs: the id of the transaction trimmed bare,
/// with that input's key slot holding the hash that locks the spent
/// output.
pub open spec fn spec_sign_message(t: TransactionV, i: int, prev_pkh: Seq<u8>) -> Seq<u8> {
    spec_tx_hash(
        TransactionV {
            id: Seq::empty(),
            vin: t.vin.map_values(|x: TXInputV| spec_trimmed_input(x)).update(
                i,
                TXInputV {
                    txid: t.vin[i].txid,
                    vout: t.vin[i].vout,
                    signature: Seq::empty(),
                    pub_key: prev_pkh,
                },
            ),
            vout: t.vout,
        },
    )
}

/// The hash locking the output that input `i` spends, read from the
/// chain.
pub open spec fn spec_prior_pkh(t: TransactionV, chain: Seq<BlockV>, i: int) -> Seq<u8> {
    spec_find_transaction(chain, t.vin[i].txid)->Some_0.vout[t.vin[i].vout as int].pub_key_hash
}

/// Every input spends an output that exists on the chain.
pub open spec fn spec_priors_ok(t: TransactionV, chain: Seq<BlockV>) -> bool {
    forall|i: int|
        0 <= i < t.vin.len() ==> {
            let p = spec_find_transaction(chain, (#[trigger] t.vin[i]).txid);
            p is Some && t.vin[i].vout < p->Some_0.vout.len()
        }
}

/// Input `i` carries a signature that verifies, under the key it names,
/// over its signing message.
pub open spec fn spec_input_verifies(t: TransactionV, chain: Seq<BlockV>, i: int) -> bool {
    ecdsa_verify(
        t.vin[i].pub_key,
        t.vin[i].signature,
        spec_sign_message(t, i, spec_prior_pkh(t, chain, i)),
    )
}

/// A transaction verifies against a chain: a coinbase outright, any
/// other exactly when every input's signature verifies.
pub open spec fn spec_tx_verifies(t: TransactionV, chain: Seq<BlockV>) -> bool {
    spec_is_coinbase(t) || (forall|i: int|
        0 <= i < t.vin.len() ==> spec_input_verifies(t, chain, i))
}

/// Signing with the key behind the carried public keys makes every input
/// verify: what `sign` establishes is exactly what `verify` checks.
pub proof fn lemma_signed_tx_verifies(t: TransactionV, chain: Seq<BlockV>, pkcs8: Seq<u8>)
    requires
        forall|i: int|
            0 <= i < t.vin.len() ==> (#[trigger] t.vin[i]).pub_key == ecdsa_pub_key_of(pkcs8),
        forall|i: int|
            0 <= i < t.vin.len() ==> ecdsa_verify(
                ecdsa_pub_key_of(pkcs8),
                (#[trigger] t.vin[i]).signature,
                spec_sign_message(t, i, spec_prior_pkh(t, chain, i)),
            ),
    ensures
        spec_tx_verifies(t, chain),
{
    assert forall|i: int| 0 <= i < t.vin.len() implies spec_input_verifies(t, chain, i) by {
        assert(t.vin[i].pub_key == ecdsa_pub_key_of(pkcs8));
    }
}

impl Transaction {
    /// Builds the signing message for input `idx`, given the lock of the
    /// output it spends.
    pub fn signing_message(&self, idx: usize, prev_pkh: &[u8]) -> (r: Vec<u8>)
        requires
            idx < self@.vin.len(),
        ensures
            r@ == spec_sign_message(self@, idx as int, prev_pkh@),
            r@.len() == 32,
    {
        let ghost target = self@.vin.map_values(|x: TXInputV| spec_trimmed_input(x)).update(
            idx as int,
            TXInputV {
                txid: self@.vin[idx as int].txid,
                vout: self@.vin[idx as int].vout,
                signature: Seq::empty(),
                pub_key: prev_pkh@,
            },
        );
        let mut inputs: Vec<TXInput> = Vec::new();
        let n = self.vin.len();
        let mut i: usize = 0;
        while i < n
            invariant
                n == self.vin@.len(),
                i <= n,
                idx < n,
                target == self@.vin.map_values(|x: TXInputV| spec_trimmed_input(x)).update(
                    idx as int,
                    TXInputV {
                        txid: self@.vin[idx as int].txid,
                        vout: self@.vin[idx as int].vout,
                        signature: Seq::empty(),
                        pub_key: prev_pkh@,
                    },
                ),
                inputs.deep_view() =~= target.take(i as int),
            decreases n - i,
        {
            let ghost prev = inputs.deep_view();
            let input = &self.vin[i];
            if i == idx {
                let mut pk: Vec<u8> = Vec::new();
                pk.extend_from_slice(prev_pkh);
                let mut txid: Vec<u8> = Vec::new();
                txid.extend_from_slice(input.txid.as_slice());
                proof {
                    assert(pk@ =~= prev_pkh@);
                    assert(txid@ =~= input.txid@);
                }
                inputs.push(
                    TXInput { txid, vout: input.vout, signature: Vec::new(), pub_key: pk },
                );
            } else {
                inputs.push(TXInput::new(input.txid.as_slice(), input.vout));
            }
            proof {
                assert(inputs.deep_view() =~= prev.push(target[i as int]));
                assert(target.take(i + 1) =~= target.take(i as int).push(target[i as int]));
            }
            i = i + 1;
        }
        proof {
            assert(inputs.deep_view() =~= target);
        }
        let msg_tx = Transaction {
            id: Vec::new(),
            vin: inputs,
            vout: clone_outputs(&self.vout),
        };
        msg_tx.hash()
    }

    /// Whether every input of this transaction spends an output that the
    /// chain holds.
    pub fn priors_ok(&self, blockchain: &Blockchain) -> (r: bool)
        ensures
            r == spec_priors_ok(self@, blockchain.chain()),
    {
        let n = self.vin.len();
        let mut i: usize = 0;
        while i < n
            invariant
                n == self.vin@.len(),
                i <= n,
                forall|j: int|
                    0 <= j < i ==> {
                        let p = spec_find_transaction(
                            blockchain.chain(),
                            (#[trigger] self@.vin[j]).txid,
                        );
                        p is Some && self@.vin[j].vout < p->Some_0.vout.len()
                    },
            decreases n - i,
        {
            let input = &self.vin[i];
            proof {
                assert(input@ == self@.vin[i as int]);
            }
            match blockchain.find_transaction(input.txid.as_slice()) {
                Some(p) => {
                    proof {
                        assert(p@.vout.len() == p.vout@.len());
                    }
                    if input.vout >= p.vout.len() {
                        proof {
                            assert(!spec_priors_ok(self@, blockchain.chain()));
                        }
                        return false;
                    }
                },
                None => {
                    proof {
                        assert(!spec_priors_ok(self@, blockchain.chain()));
                    }
                    return false;
                },
            }
            i = i + 1;
        }
        true
    }

    /// Checks every input's signature against the key it carries, over
    /// the per-input signing message rebuilt from the chain. A coinbase
    /// verifies outright.
    pub fn verify(&self, blockchain: &Blockchain) -> (r: bool)
        requires
            !spec_is_coinbase(self@) ==> spec_priors_ok(self@, blockchain.chain()),
        ensures
            r == spec_tx_verifies(self@, blockchain.chain()),
    {
        if self.is_coinbase() {
            return true;
        }
        let n = self.vin.len();
        let mut idx: usize = 0;
        while idx < n
            invariant
                n == self.vin@.len(),
                idx <= n,
                !spec_is_coinbase(self@),
                spec_priors_ok(self@, blockchain.chain()),
                forall|j: int|
                    0 <= j < idx ==> spec_input_verifies(self@, blockchain.chain(), j),
            decreases n - idx,
        {
            let input = &self.vin[idx];
            proof {
                assert(input@ == self@.vin[idx as int]);
            }
            let prev_tx = match blockchain.find_transaction(input.txid.as_slice()) {
                Some(p) => p,
                None => {
                    proof {
                        assert(false);
                    }
                    return false;
                },
            };
            proof {
                assert(prev_tx@.vout.len() == prev_tx.vout@.len());
                assert(prev_tx.vout@[input.vout as int]@ == prev_tx@.vout[input.vout as int]);
            }
            let pkh = prev_tx.vout[input.vout].get_pub_key_hash();
            let msg = self.signing_message(idx, pkh);
            let ok = crate::utils::ecdsa_p256_sha256_sign_verify(
                input.pub_key.as_slice(),
                input.signature.as_slice(),
                msg.as_slice(),
            );
            if !ok {
                proof {
                    assert(!spec_input_verifies(self@, blockchain.chain(), idx as int));
                }
                return false;
            }
            idx = idx + 1;
        }
        true
    }

    /// Signs every input with the given key document, storing one
    /// signature per input. On success every stored signature verifies
    /// under the key document's public key; on failure the transaction is
    /// left unchanged.
    pub fn sign(&mut self, blockchain: &Blockchain, pkcs8: &[u8]) -> (r: bool)
        requires
            spec_priors_ok(old(self)@, blockchain.chain()),
        ensures
            final(self)@.id == old(self)@.id,
            final(self)@.vout == old(self)@.vout,
            final(self)@.vin.len() == old(self)@.vin.len(),
            forall|i: int|
                0 <= i < old(self)@.vin.len() ==> {
                    let nv = #[trigger] final(self)@.vin[i];
                    let ov = old(self)@.vin[i];
                    nv.txid == ov.txid && nv.vout == ov.vout && nv.pub_key == ov.pub_key
                },
            !r ==> final(self)@ == old(self)@,
            r ==> forall|i: int|
                0 <= i < final(self)@.vin.len() ==> ecdsa_verify(
                    ecdsa_pub_key_of(pkcs8@),
                    (#[trigger] final(self)@.vin[i]).signature,
                    spec_sign_message(
                        final(self)@,
                        i,
                        spec_prior_pkh(final(self)@, blockchain.chain(), i),
                    ),
                ),
    {
        let n = self.vin.len();
        let mut signatures: Vec<Vec<u8>> = Vec::new();
        let mut idx: usize = 0;
        while idx < n
            invariant
                n == self.vin@.len(),
                idx <= n,
                signatures@.len() == idx,
                spec_priors_ok(self@, blockchain.chain()),
                forall|j: int|
                    0 <= j < idx ==> ecdsa_verify(
                        ecdsa_pub_key_of(pkcs8@),
                        (#[trigger] signatures.deep_view()[j]),
                        spec_sign_message(
                            self@,
                            j,
                            spec_prior_pkh(self@, blockchain.chain(), j),
                        ),
                    ),
            decreases n - idx,
        {
            let input = &self.vin[idx];
            proof {
                assert(input@ == self@.vin[idx as int]);
            }
            let prev_tx = match blockchain.find_transaction(input.txid.as_slice()) {
                Some(p) => p,
                None => {
                    proof {
                        assert(false);
                    }
                    return false;
                },
            };
            proof {
                assert(prev_tx@.vout.len() == prev_tx.vout@.len());
                assert(prev_tx.vout@[input.vout as int]@ == prev_tx@.vout[input.vout as int]);
            }
            let pkh = prev_tx.vout[input.vout].get_pub_key_hash();
            let msg = self.signing_message(idx, pkh);
            let sig = match crate::utils::ecdsa_p256_sha256_sign_digest(pkcs8, msg.as_slice()) {
                Some(s) => s,
                None => {
                    return false;
                },
            };
            let ghost prev = signatures.deep_view();
            signatures.push(sig);
            proof {
                assert(signatures.deep_view() =~~= prev.push(sig@));
            }
            idx = idx + 1;
        }
        let ghost oldv = self@;
        let mut new_vin: Vec<TXInput> = Vec::new();
        let mut i: usize = 0;
        while i < n
            invariant
                n == self.vin@.len() == signatures@.len(),
                i <= n,
                self@ == oldv,
                new_vin@.len() == i,
                forall|j: int|
                    0 <= j < i ==> {
                        let nv = #[trigger] new_vin.deep_view()[j];
                        let ov = self@.vin[j];
                        nv.txid == ov.txid && nv.vout == ov.vout && nv.pub_key == ov.pub_key
                            && nv.signature == signatures.deep_view()[j]
                    },
            decreases n - i,
        {
            let input = &self.vin[i];
            proof {
                assert(input@ == self@.vin[i as int]);
            }
            let mut txid: Vec<u8> = Vec::new();
            txid.extend_from_slice(input.txid.as_slice());
            let mut pub_key: Vec<u8> = Vec::new();
            pub_key.extend_from_slice(input.pub_key.as_slice());
            let mut signature: Vec<u8> = Vec::new();
            signature.extend_from_slice(signatures[i].as_slice());
            proof {
                assert(txid@ =~= input.txid@);
                assert(pub_key@ =~= input.pub_key@);
                assert(signature@ =~= signatures@[i as int]@);
                assert(signatures@[i as int]@ =~= signatures.deep_view()[i as int]);
            }
            let entry = TXInput { txid, vout: input.vout, signature, pub_key };
            let ghost entryv = entry@;
            let ghost prevnew = new_vin.deep_view();
            new_vin.push(entry);
            proof {
                assert(new_vin.deep_view() =~= prevnew.push(entryv));
            }
            i = i + 1;
        }
        self.vin = new_vin;
        proof {
            assert(final(self)@.vout =~= oldv.vout);
            assert forall|j: int|
                0 <= j < final(self)@.vin.len() implies spec_sign_message(
                final(self)@,
                j,
                spec_prior_pkh(final(self)@, blockchain.chain(), j),
            ) == spec_sign_message(oldv, j, spec_prior_pkh(oldv, blockchain.chain(), j)) by {
                lemma_sign_message_signature_blind(oldv, final(self)@, j, blockchain.chain());
            }
        }
        true
    }
}

/// The inputs a selection stands for: one bare input per picked
/// position, all carrying the spender's public key.
pub open spec fn spec_sel_entry_inputs(k: Seq<u8>, vs: Seq<usize>, pk: Seq<u8>) -> Seq<TXInputV> {
    Seq::new(
        vs.len(),
        |q: int| TXInputV { txid: k, vout: vs[q], signature: Seq::empty(), pub_key: pk },
    )
}

/// The inputs of a whole selection, entry by entry, from position `i`
/// on.
pub open spec fn spec_sel_inputs(
    sel: Seq<(Seq<u8>, Seq<usize>)>,
    pk: Seq<u8>,
    i: int,
) -> Seq<TXInputV>
    decreases sel.len() - i,
{
    if i < 0 || i >= sel.len() {
        Seq::empty()
    } else {
        spec_sel_entry_inputs(sel[i].0, sel[i].1, pk) + spec_sel_inputs(sel, pk, i + 1)
    }
}

/// Every input a selection stands for carries the spender's key and no
/// signature yet.
pub proof fn lemma_sel_inputs_pk(sel: Seq<(Seq<u8>, Seq<usize>)>, pk: Seq<u8>, i: int)
    ensures
        forall|q: int|
            0 <= q < spec_sel_inputs(sel, pk, i).len() ==> (#[trigger] spec_sel_inputs(
                sel,
                pk,
                i,
            )[q]).pub_key == pk && spec_sel_inputs(sel, pk, i)[q].signature == Seq::<u8>::empty(),
    decreases sel.len() - i,
{
    if i < 0 || i >= sel.len() {
    } else {
        lemma_sel_inputs_pk(sel, pk, i + 1);
        let e = spec_sel_entry_inputs(sel[i].0, sel[i].1, pk);
        let rest = spec_sel_inputs(sel, pk, i + 1);
        assert forall|q: int|
            0 <= q < spec_sel_inputs(sel, pk, i).len() implies (#[trigger] spec_sel_inputs(
            sel,
            pk,
            i,
        )[q]).pub_key == pk && spec_sel_inputs(sel, pk, i)[q].signature
            == Seq::<u8>::empty() by {
            if q < e.len() {
                assert(spec_sel_inputs(sel, pk, i)[q] == e[q]);
            } else {
                assert(spec_sel_inputs(sel, pk, i)[q] == rest[q - e.len()]);
            }
        }
    }
}

/// A transaction with its input signatures cleared: the shape whose
/// digest the id carries, fixed at construction time before signing.
pub open spec fn spec_sign_cleared(t: TransactionV) -> TransactionV {
    TransactionV {
        id: t.id,
        vin: t.vin.map_values(
            |i: TXInputV| TXInputV {
                txid: i.txid,
                vout: i.vout,
                signature: Seq::empty(),
                pub_key: i.pub_key,
            },
        ),
        vout: t.vout,
    }
}

impl Transaction {
    /// Builds, signs and returns a transfer: gathers spendable outputs
    /// of the wallet's key until the amount is covered, pays the amount
    /// to the recipient, returns any change to the sender, and signs
    /// every input. The result verifies against the chain the index was
    /// built over.
    pub fn new_utxo_transaction(
        wallet: &Wallet,
        to: &str,
        amount: i32,
        utxo_set: &UTXOSet,
    ) -> (r: Result<Transaction, UtxoError>)
        requires
            spec_nonneg(utxo_set.spec_index()),
            amount > 0,
        ensures
            ({
                let sel = spec_spendable(utxo_set.spec_index(), spec_hash_pub_key(wallet.spec_pk()), amount as int);
                match r {
                    Ok(tx) => {
                        &&& spec_addr_decodable(to@)
                        &&& sel.0 >= amount
                        &&& spec_priors_ok(tx@, utxo_set.spec_bc().chain())
                        &&& spec_tx_verifies(tx@, utxo_set.spec_bc().chain())
                        &&& tx@.id == spec_tx_hash(spec_sign_cleared(tx@))
                        &&& tx@.vout.len() == (if sel.0 > amount { 2int } else { 1int })
                        &&& tx@.vout[0].value == amount
                        &&& tx@.vout[0].pub_key_hash == spec_pkh_of_addr(to@)
                        &&& (sel.0 > amount ==> tx@.vout[1].value == sel.0 - amount
                            && tx@.vout[1].pub_key_hash == spec_hash_pub_key(wallet.spec_pk()))
                        &&& tx@.vin.len() == spec_sel_inputs(sel.1, wallet.spec_pk(), 0).len()
                        &&& forall|i: int|
                            0 <= i < tx@.vin.len() ==> {
                                let want = spec_sel_inputs(sel.1, wallet.spec_pk(), 0)[i];
                                let got = #[trigger] tx@.vin[i];
                                got.txid == want.txid && got.vout == want.vout && got.pub_key
                                    == want.pub_key
                            }
                    },
                    Err(UtxoError::InvalidAddress) => !spec_addr_decodable(to@),
                    Err(UtxoError::InsufficientFunds) => sel.0 < amount,
                    Err(UtxoError::InvalidTransaction) => spec_addr_decodable(to@) && sel.0
                        >= amount,
                }
            }),
    {
        match base58_decode(to) {
            Some(payload) => {
                if payload.len() <= crate::wallet::ADDRESS_CHECK_SUM_LEN {
                    return Err(UtxoError::InvalidAddress);
                }
            },
            None => {
                return Err(UtxoError::InvalidAddress);
            },
        }
        let public_key_hash = hash_pub_key(wallet.get_public_key());
        let (accumulated, valid_outputs) = utxo_set.find_spendable_outputs(
            public_key_hash.as_slice(),
            amount,
        );
        if accumulated < amount as i64 {
            return Err(UtxoError::InsufficientFunds);
        }
        let ghost selv = valid_outputs.deep_view();
        let ghost pk = wallet.spec_pk();
        let mut inputs: Vec<TXInput> = Vec::new();
        proof {
            assert(inputs.deep_view() =~= Seq::<TXInputV>::empty());
        }
        let ns = valid_outputs.len();
        let mut i: usize = 0;
        while i < ns
            invariant
                ns == valid_outputs@.len(),
                i <= ns,
                selv == valid_outputs.deep_view(),
                pk == wallet.spec_pk(),
                inputs.deep_view() + spec_sel_inputs(selv, pk, i as int) =~= spec_sel_inputs(
                    selv,
                    pk,
                    0,
                ),
            decreases ns - i,
        {
            let entry_key = &valid_outputs[i].0;
            let outs = &valid_outputs[i].1;
            let ghost base = inputs.deep_view();
            let m = outs.len();
            let mut j: usize = 0;
            while j < m
                invariant
                    m == outs@.len(),
                    i < ns == valid_outputs@.len(),
                    selv == valid_outputs.deep_view(),
                    pk == wallet.spec_pk(),
                    entry_key@ == selv[i as int].0,
                    outs@ == selv[i as int].1,
                    j <= m,
                    inputs.deep_view() =~= base + spec_sel_entry_inputs(
                        selv[i as int].0,
                        selv[i as int].1,
                        pk,
                    ).take(j as int),
                decreases m - j,
            {
                let mut txid: Vec<u8> = Vec::new();
                txid.extend_from_slice(entry_key.as_slice());
                let mut pub_key: Vec<u8> = Vec::new();
                pub_key.extend_from_slice(wallet.get_public_key());
                proof {
                    assert(txid@ =~= selv[i as int].0);
                    assert(pub_key@ =~= pk);
                }
                let entry = TXInput { txid, vout: outs[j], signature: Vec::new(), pub_key };
                let ghost entryv = entry@;
                let ghost prev = inputs.deep_view();
                inputs.push(entry);
                proof {
                    assert(inputs.deep_view() =~= prev.push(entryv));
                    assert(spec_sel_entry_inputs(selv[i as int].0, selv[i as int].1, pk).take(
                        j + 1,
                    ) =~= spec_sel_entry_inputs(selv[i as int].0, selv[i as int].1, pk).take(
                        j as int,
                    ).push(entryv));
                }
                j = j + 1;
            }
            proof {
                assert(spec_sel_entry_inputs(selv[i as int].0, selv[i as int].1, pk).take(m as int)
                    =~= spec_sel_entry_inputs(selv[i as int].0, selv[i as int].1, pk));
                assert(inputs.deep_view() + spec_sel_inputs(selv, pk, i + 1) =~= spec_sel_inputs(
                    selv,
                    pk,
                    0,
                ));
            }
            i = i + 1;
        }
        proof {
            assert(spec_sel_inputs(selv, pk, ns as int) =~= Seq::<TXInputV>::empty());
            assert(inputs.deep_view() =~= spec_sel_inputs(selv, pk, 0));
        }
        let mut outputs: Vec<TXOutput> = Vec::new();
        outputs.push(TXOutput::new(amount, to));
        if accumulated > amount as i64 {
            let from = wallet.get_address();
            let change = (accumulated - amount as i64) as i32;
            outputs.push(TXOutput::new(change, from.as_str()));
            proof {
                assert(spec_pkh_of_addr(from@) == spec_hash_pub_key(wallet.spec_pk()));
            }
        }
        let mut tx = Transaction { id: Vec::new(), vin: inputs, vout: outputs };
        let id = tx.hash();
        tx.id = id;
        let ghost t1 = tx@;
        let bc = utxo_set.get_blockchain();
        if !tx.priors_ok(bc) {
            return Err(UtxoError::InvalidTransaction);
        }
        wallet.key_facts();
        let signed = tx.sign(bc, wallet.get_pksc8());
        if !signed {
            return Err(UtxoError::InvalidTransaction);
        }
        proof {
            assert forall|q: int|
                0 <= q < tx@.vin.len() implies (#[trigger] tx@.vin[q]).pub_key == ecdsa_pub_key_of(
                wallet.spec_pkcs8(),
            ) by {
                lemma_sel_inputs_pk(selv, pk, 0);
                assert(spec_sel_inputs(selv, pk, 0)[q].pub_key == pk);
            }
            lemma_signed_tx_verifies(tx@, bc.chain(), wallet.spec_pkcs8());
            assert(spec_priors_ok(tx@, bc.chain()));
            lemma_sel_inputs_pk(selv, pk, 0);
            assert(spec_sign_cleared(tx@).vin =~= t1.vin);
            assert(spec_sign_cleared(tx@) == TransactionV { id: t1.id, vin: t1.vin, vout: t1.vout });
            assert(tx@.id == spec_tx_hash(spec_sign_cleared(tx@)));
        }
        Ok(tx)
    }
}

/// The signing message reads only input names, keys and outputs, never
/// signatures, so installing signatures does not move it.
pub proof fn lemma_sign_message_signature_blind(
    a: TransactionV,
    b: TransactionV,
    i: int,
    chain: Seq<BlockV>,
)
    requires
        a.vout == b.vout,
        a.vin.len() == b.vin.len(),
        forall|j: int|
            0 <= j < a.vin.len() ==> {
                let av = #[trigger] a.vin[j];
                let bv = b.vin[j];
                av.txid == bv.txid && av.vout == bv.vout
            },
        0 <= i < a.vin.len(),
    ensures
        spec_sign_message(b, i, spec_prior_pkh(b, chain, i)) == spec_sign_message(
            a,
            i,
            spec_prior_pkh(a, chain, i),
        ),
        spec_prior_pkh(b, chain, i) == spec_prior_pkh(a, chain, i),
{
    assert(a.vin.map_values(|x: TXInputV| spec_trimmed_input(x)) =~= b.vin.map_values(
        |x: TXInputV| spec_trimmed_input(x),
    ));
    let pkh = spec_prior_pkh(a, chain, i);
    assert(a.vin.map_values(|x: TXInputV| spec_trimmed_input(x)).update(
        i,
        TXInputV {
            txid: a.vin[i].txid,
            vout: a.vin[i].vout,
            signature: Seq::empty(),
            pub_key: pkh,
        },
    ) =~= b.vin.map_values(|x: TXInputV| spec_trimmed_input(x)).update(
        i,
        TXInputV {
            txid: b.vin[i].txid,
            vout: b.vin[i].vout,
            signature: Seq::empty(),
            pub_key: pkh,
        },
    ));
}

impl Clone for Transaction {
    fn clone(&self) -> (r: Self)
        ensures
            r@ == self@,
    {
        Transaction {
            id: self.get_id_bytes(),
            vin: clone_inputs(&self.vin),
            vout: clone_outputs(&self.vout),
        }
    }
}

} // verus!
