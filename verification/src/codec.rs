//! Primitives of the canonical binary encoding: little-endian integers and
//! length-prefixed byte strings, with the readers that invert them.
//!
//! Blocks and transactions are laid out with these; a transaction's id is
//! the SHA-256 digest of its canonical bytes.

use vstd::prelude::*;
use vstd::bytes::{
    lemma_auto_spec_u64_to_from_le_bytes, spec_u64_from_le_bytes, spec_u64_to_le_bytes,
    u64_from_le_bytes, u64_to_le_bytes,
};
use vstd::slice::{slice_subrange, slice_to_vec};
use vstd::string::StringSliceAdditionalSpecFns;

verus! {

/// A byte string in canonical form: an 8-byte little-endian length, then
/// the bytes themselves.
pub open spec fn spec_ser_bytes(b: Seq<u8>) -> Seq<u8> {
    spec_u64_to_le_bytes(b.len() as u64) + b
}

/// A byte vector's element-wise view and its plain view are the same
/// sequence.
pub broadcast proof fn lemma_deep_view_u8(v: Vec<u8>)
    ensures
        #[trigger] v.deep_view() == v@,
{
    assert(v.deep_view() =~= v@);
}

/// A vector of positions: element-wise view and plain view agree.
pub broadcast proof fn lemma_deep_view_usize(v: Vec<usize>)
    ensures
        #[trigger] v.deep_view() == v@,
{
    assert(v.deep_view() =~= v@);
}

/// Whether two byte slices hold the same bytes.
pub fn bytes_eq(a: &[u8], b: &[u8]) -> (r: bool)
    ensures
        r == (a@ == b@),
{
    if a.len() != b.len() {
        return false;
    }
    let n = a.len();
    let mut i: usize = 0;
    while i < n
        invariant
            n == a@.len() == b@.len(),
            i <= n,
            forall|j: int| 0 <= j < i ==> a@[j] == b@[j],
        decreases n - i,
    {
        if a[i] != b[i] {
            return false;
        }
        i = i + 1;
    }
    proof {
        assert(a@ =~= b@);
    }
    true
}

/// The bytes of an ASCII string, one per character.
pub open spec fn spec_ascii_bytes(s: Seq<char>) -> Seq<u8> {
    Seq::new(s.len(), |i: int| s[i] as u8)
}

/// The bytes of an ASCII string.
pub fn ascii_bytes(s: &str) -> (r: Vec<u8>)
    requires
        vstd::utf8::is_ascii_chars(s@),
    ensures
        r@ == spec_ascii_bytes(s@),
{
    let r = s.as_bytes_vec();
    proof {
        vstd::utf8::is_ascii_chars_encode_utf8(s@);
        assert(r@ =~= spec_ascii_bytes(s@));
    }
    r
}

/// The big-endian form of a signed 64-bit integer: the little-endian
/// bytes of its unsigned reading, reversed.
pub open spec fn spec_i64_to_be_bytes(x: i64) -> Seq<u8> {
    spec_u64_to_le_bytes(x as u64).reverse()
}

/// Appends the 8 big-endian bytes of the integer.
pub fn write_i64_be(out: &mut Vec<u8>, x: i64)
    ensures
        final(out)@ == old(out)@ + spec_i64_to_be_bytes(x),
{
    let le = u64_to_le_bytes(#[verifier::truncate] (x as u64));
    let mut k: usize = 0;
    while k < 8
        invariant
            le@ == spec_u64_to_le_bytes(x as u64),
            le@.len() == 8,
            k <= 8,
            out@.len() == old(out)@.len() + k,
            out@ == old(out)@ + spec_i64_to_be_bytes(x).take(k as int),
        decreases 8 - k,
    {
        out.push(le[7 - k]);
        proof {
            assert(spec_i64_to_be_bytes(x).take(k + 1) =~= spec_i64_to_be_bytes(x).take(
                k as int,
            ).push(le@[7 - k as int]));
            assert(out@ =~= old(out)@ + spec_i64_to_be_bytes(x).take(k + 1));
        }
        k = k + 1;
    }
    proof {
        assert(spec_i64_to_be_bytes(x).take(8) =~= spec_i64_to_be_bytes(x));
    }
}

/// Whether two strings hold the same characters.
pub fn str_eq(a: &str, b: &str) -> (r: bool)
    ensures
        r == (a@ == b@),
{
    let r = bytes_eq(a.as_bytes(), b.as_bytes());
    proof {
        if a.spec_bytes() == b.spec_bytes() {
            vstd::utf8::encode_utf8_decode_utf8(a@);
            vstd::utf8::encode_utf8_decode_utf8(b@);
        }
    }
    r
}

/// Appends the 8 little-endian bytes of the integer.
pub fn write_u64(out: &mut Vec<u8>, x: u64)
    ensures
        final(out)@ == old(out)@ + spec_u64_to_le_bytes(x),
{
    let mut b = u64_to_le_bytes(x);
    out.append(&mut b);
}

/// Appends a byte string in canonical form.
pub fn write_bytes(out: &mut Vec<u8>, b: &[u8])
    ensures
        final(out)@ == old(out)@ + spec_ser_bytes(b@),
        b@.len() <= usize::MAX,
{
    write_u64(out, b.len() as u64);
    out.extend_from_slice(b);
    proof {
        assert(final(out)@ =~= old(out)@ + spec_ser_bytes(b@));
    }
}

/// What reading 8 little-endian bytes at a position yields.
pub open spec fn spec_parse_u64(d: Seq<u8>, pos: int) -> Option<(u64, int)> {
    if 0 <= pos && pos + 8 <= d.len() {
        Some((spec_u64_from_le_bytes(d.subrange(pos, pos + 8)), pos + 8))
    } else {
        None
    }
}

/// What reading a canonical byte string at a position yields: the length
/// header, then that many bytes, both of which must fit.
pub open spec fn spec_parse_bytes(d: Seq<u8>, pos: int) -> Option<(Seq<u8>, int)> {
    match spec_parse_u64(d, pos) {
        Some(p) => if p.1 + p.0 <= d.len() {
            Some((d.subrange(p.1, p.1 + p.0), p.1 + p.0))
        } else {
            None
        },
        None => None,
    }
}

/// Where 8 canonical integer bytes lie, the reader yields that integer.
pub proof fn lemma_parse_ser_u64(d: Seq<u8>, pos: int, x: u64)
    requires
        0 <= pos,
        pos + 8 <= d.len(),
        d.subrange(pos, pos + 8) == spec_u64_to_le_bytes(x),
    ensures
        spec_parse_u64(d, pos) == Some((x, pos + 8)),
{
    lemma_auto_spec_u64_to_from_le_bytes();
}

/// Where a canonical byte string lies, the reader yields exactly it.
pub proof fn lemma_parse_ser_bytes(d: Seq<u8>, pos: int, b: Seq<u8>)
    requires
        0 <= pos,
        b.len() <= u64::MAX,
        pos + 8 + b.len() <= d.len(),
        d.subrange(pos, pos + 8 + b.len()) == spec_ser_bytes(b),
    ensures
        spec_parse_bytes(d, pos) == Some((b, pos + 8 + b.len())),
{
    lemma_auto_spec_u64_to_from_le_bytes();
    let whole = d.subrange(pos, pos + 8 + b.len());
    assert(d.subrange(pos, pos + 8) =~= whole.subrange(0, 8));
    assert(whole.subrange(0, 8) =~= spec_u64_to_le_bytes(b.len() as u64));
    lemma_parse_ser_u64(d, pos, b.len() as u64);
    assert(d.subrange(pos + 8, pos + 8 + b.len()) =~= whole.subrange(8, 8 + b.len() as int));
    assert(whole.subrange(8, 8 + b.len() as int) =~= b);
}

/// Reads 8 little-endian bytes as an integer.
pub fn read_u64(data: &[u8], pos: usize) -> (r: Option<(u64, usize)>)
    ensures
        match r {
            Some(p) => pos + 8 == p.1 && p.1 <= data@.len() && spec_u64_to_le_bytes(p.0)
                == data@.subrange(pos as int, p.1 as int) && spec_parse_u64(data@, pos as int)
                == Some((p.0, p.1 as int)),
            None => data@.len() < pos + 8 && spec_parse_u64(data@, pos as int) is None,
        },
{
    if data.len() < 8 || pos > data.len() - 8 {
        return None;
    }
    let s = slice_subrange(data, pos, pos + 8);
    let x = u64_from_le_bytes(s);
    proof {
        lemma_auto_spec_u64_to_from_le_bytes();
    }
    Some((x, pos + 8))
}

/// Reads a byte string in canonical form.
pub fn read_bytes(data: &[u8], pos: usize) -> (r: Option<(Vec<u8>, usize)>)
    ensures
        match r {
            Some(p) => pos <= p.1 <= data@.len() && spec_ser_bytes(p.0@) == data@.subrange(
                pos as int,
                p.1 as int,
            ) && spec_parse_bytes(data@, pos as int) == Some((p.0@, p.1 as int)),
            None => spec_parse_bytes(data@, pos as int) is None,
        },
{
    let (x, p1) = match read_u64(data, pos) {
        Some(p) => p,
        None => {
            return None;
        },
    };
    if x > (data.len() - p1) as u64 {
        return None;
    }
    let n = x as usize;
    let s = slice_subrange(data, p1, p1 + n);
    let v = slice_to_vec(s);
    proof {
        assert(v@.len() as u64 == x);
        assert(data@.subrange(pos as int, (p1 + n) as int) =~= data@.subrange(
            pos as int,
            p1 as int,
        ) + data@.subrange(p1 as int, (p1 + n) as int));
        assert(spec_ser_bytes(v@) =~= data@.subrange(pos as int, (p1 + n) as int));
    }
    Some((v, p1 + n))
}

} // verus!
