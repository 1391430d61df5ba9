//! Lowercase hexadecimal encoding of byte strings, verified against a
//! direct mathematical description.
//!
//! Hex text keys the mempool and the unspent-output index, and block
//! hashes are carried as hex strings.

use vstd::prelude::*;
use vstd::string::StrSliceExecFns;

use crate::utils::string_push;

verus! {

/// The lowercase hex digit for a nibble value.
pub open spec fn hex_char_of(n: u8) -> char {
    if n == 0 {
        '0'
    } else if n == 1 {
        '1'
    } else if n == 2 {
        '2'
    } else if n == 3 {
        '3'
    } else if n == 4 {
        '4'
    } else if n == 5 {
        '5'
    } else if n == 6 {
        '6'
    } else if n == 7 {
        '7'
    } else if n == 8 {
        '8'
    } else if n == 9 {
        '9'
    } else if n == 10 {
        'a'
    } else if n == 11 {
        'b'
    } else if n == 12 {
        'c'
    } else if n == 13 {
        'd'
    } else if n == 14 {
        'e'
    } else {
        'f'
    }
}

/// The lowercase hex text of a byte string: two digits per byte, high
/// nibble first.
pub open spec fn spec_hex_encode(data: Seq<u8>) -> Seq<char>
    decreases data.len(),
{
    if data.len() == 0 {
        Seq::empty()
    } else {
        seq![
            hex_char_of((data[0] / 16) as u8),
            hex_char_of((data[0] % 16) as u8),
        ] + spec_hex_encode(data.drop_first())
    }
}

/// Whether a string is the hex text of some byte string: even length, all
/// lowercase hex digits.
pub open spec fn spec_is_hex(s: Seq<char>) -> bool {
    &&& s.len() % 2 == 0
    &&& forall|i: int| 0 <= i < s.len() ==> exists|n: u8| n < 16 && #[trigger] s[i] == hex_char_of(n)
}

pub proof fn lemma_hex_encode_len(data: Seq<u8>)
    ensures
        spec_hex_encode(data).len() == 2 * data.len(),
    decreases data.len(),
{
    if data.len() > 0 {
        lemma_hex_encode_len(data.drop_first());
    }
}

pub proof fn lemma_hex_encode_is_hex(data: Seq<u8>)
    ensures
        spec_is_hex(spec_hex_encode(data)),
    decreases data.len(),
{
    lemma_hex_encode_len(data);
    if data.len() > 0 {
        lemma_hex_encode_is_hex(data.drop_first());
        let s = spec_hex_encode(data);
        let rest = spec_hex_encode(data.drop_first());
        assert forall|i: int| 0 <= i < s.len() implies exists|n: u8|
            n < 16 && #[trigger] s[i] == hex_char_of(n) by {
            if i == 0 {
                let n0 = (data[0] / 16) as u8;
                assert(n0 < 16 && s[i] == hex_char_of(n0));
            } else if i == 1 {
                let n1 = (data[0] % 16) as u8;
                assert(n1 < 16 && s[i] == hex_char_of(n1));
            } else {
                assert(s[i] == rest[i - 2]);
                assert(exists|n: u8| n < 16 && #[trigger] rest[i - 2] == hex_char_of(n));
            }
        }
    }
}

/// The nibble value of a lowercase hex digit (zero on other characters).
pub open spec fn hex_val_of(c: char) -> u8 {
    if c == '1' {
        1
    } else if c == '2' {
        2
    } else if c == '3' {
        3
    } else if c == '4' {
        4
    } else if c == '5' {
        5
    } else if c == '6' {
        6
    } else if c == '7' {
        7
    } else if c == '8' {
        8
    } else if c == '9' {
        9
    } else if c == 'a' {
        10
    } else if c == 'b' {
        11
    } else if c == 'c' {
        12
    } else if c == 'd' {
        13
    } else if c == 'e' {
        14
    } else if c == 'f' {
        15
    } else {
        0
    }
}

/// The bytes behind a hex text, two digits at a time.
pub open spec fn spec_hex_decode(s: Seq<char>) -> Seq<u8>
    decreases s.len(),
{
    if s.len() < 2 {
        Seq::empty()
    } else {
        seq![(hex_val_of(s[0]) * 16 + hex_val_of(s[1])) as u8] + spec_hex_decode(s.skip(2))
    }
}

/// Decoding inverts encoding.
pub proof fn lemma_hex_decode_encode(data: Seq<u8>)
    ensures
        spec_hex_decode(spec_hex_encode(data)) == data,
    decreases data.len(),
{
    lemma_hex_encode_len(data);
    if data.len() == 0 {
        assert(spec_hex_decode(spec_hex_encode(data)) =~= data);
    } else {
        let s = spec_hex_encode(data);
        lemma_hex_encode_len(data.drop_first());
        assert(s.skip(2) =~= spec_hex_encode(data.drop_first()));
        lemma_hex_decode_encode(data.drop_first());
        assert(hex_val_of(s[0]) == data[0] / 16);
        assert(hex_val_of(s[1]) == data[0] % 16);
        assert((hex_val_of(s[0]) * 16 + hex_val_of(s[1])) as u8 == data[0]);
        assert(spec_hex_decode(s) =~= data);
    }
}

/// Hex text names half as many bytes as it has digits.
pub proof fn lemma_hex_decode_len(s: Seq<char>)
    requires
        s.len() % 2 == 0,
    ensures
        spec_hex_decode(s).len() * 2 == s.len(),
    decreases s.len(),
{
    if s.len() >= 2 {
        lemma_hex_decode_len(s.skip(2));
    }
}

/// Encoding inverts decoding on hex text.
pub proof fn lemma_hex_encode_decode(s: Seq<char>)
    requires
        spec_is_hex(s),
    ensures
        spec_hex_encode(spec_hex_decode(s)) == s,
    decreases s.len(),
{
    if s.len() == 0 {
        assert(spec_hex_encode(spec_hex_decode(s)) =~= s);
    } else {
        let n0 = choose|n: u8| n < 16 && s[0] == hex_char_of(n);
        let n1 = choose|n: u8| n < 16 && s[1] == hex_char_of(n);
        assert(s[0] == hex_char_of(n0));
        assert(s[1] == hex_char_of(n1));
        assert(hex_val_of(s[0]) == n0);
        assert(hex_val_of(s[1]) == n1);
        let b = (hex_val_of(s[0]) * 16 + hex_val_of(s[1])) as u8;
        assert(b / 16 == n0 && b % 16 == n1);
        let rest = s.skip(2);
        assert forall|i: int| 0 <= i < rest.len() implies exists|n: u8|
            n < 16 && #[trigger] rest[i] == hex_char_of(n) by {
            assert(rest[i] == s[i + 2]);
            assert(exists|n: u8| n < 16 && #[trigger] s[i + 2] == hex_char_of(n));
        }
        lemma_hex_encode_decode(rest);
        let dec = spec_hex_decode(s);
        assert(dec == seq![b] + spec_hex_decode(rest));
        assert(dec[0] == b);
        assert(dec.drop_first() =~= spec_hex_decode(rest));
        assert(spec_hex_encode(dec) =~= s);
    }
}

/// Hex text is ASCII.
pub proof fn lemma_hex_is_ascii(s: Seq<char>)
    requires
        spec_is_hex(s),
    ensures
        vstd::utf8::is_ascii_chars(s),
{
    assert forall|i: int| 0 <= i < s.len() implies '\0' <= #[trigger] s[i] <= '\u{7f}' by {
        let n = choose|n: u8| n < 16 && s[i] == hex_char_of(n);
        assert(s[i] == hex_char_of(n));
    }
}

/// Hex text is never the word that marks a missing parent block.
pub proof fn lemma_hex_ne_none(s: Seq<char>)
    requires
        spec_is_hex(s),
    ensures
        s != "None"@,
{
    reveal_strlit("None");
    if s == "None"@ {
        assert(s.len() == 4);
        let n = choose|n: u8| n < 16 && s[0] == hex_char_of(n);
        assert(s[0] == 'N');
        assert(false);
    }
}

fn hex_char(n: u8) -> (c: char)
    requires
        n < 16,
    ensures
        c == hex_char_of(n),
{
    if n == 0 {
        '0'
    } else if n == 1 {
        '1'
    } else if n == 2 {
        '2'
    } else if n == 3 {
        '3'
    } else if n == 4 {
        '4'
    } else if n == 5 {
        '5'
    } else if n == 6 {
        '6'
    } else if n == 7 {
        '7'
    } else if n == 8 {
        '8'
    } else if n == 9 {
        '9'
    } else if n == 10 {
        'a'
    } else if n == 11 {
        'b'
    } else if n == 12 {
        'c'
    } else if n == 13 {
        'd'
    } else if n == 14 {
        'e'
    } else {
        'f'
    }
}

/// The lowercase hex text of the given bytes.
pub fn hex_encode(data: &[u8]) -> (r: String)
    ensures
        r@ == spec_hex_encode(data@),
        r@.len() == 2 * data@.len(),
        spec_is_hex(r@),
{
    let mut r = String::new();
    let mut i: usize = 0;
    proof {
        assert(data@.skip(0) == data@);
    }
    while i < data.len()
        invariant
            i <= data@.len(),
            r@ + spec_hex_encode(data@.skip(i as int)) =~= spec_hex_encode(data@),
            r@.len() == 2 * i,
        decreases data@.len() - i,
    {
        let b = data[i];
        string_push(&mut r, hex_char(b / 16));
        string_push(&mut r, hex_char(b % 16));
        proof {
            assert(data@.skip(i as int).drop_first() =~= data@.skip(i + 1));
        }
        i = i + 1;
    }
    proof {
        assert(data@.skip(i as int) =~= Seq::<u8>::empty());
        assert(r@ =~= spec_hex_encode(data@));
        lemma_hex_encode_is_hex(data@);
    }
    r
}

fn hex_value(c: char) -> (r: Option<u8>)
    ensures
        match r {
            Some(n) => n < 16 && hex_char_of(n) == c,
            None => forall|n: u8| n < 16 ==> #[trigger] hex_char_of(n) != c,
        },
{
    if c == '0' {
        Some(0)
    } else if c == '1' {
        Some(1)
    } else if c == '2' {
        Some(2)
    } else if c == '3' {
        Some(3)
    } else if c == '4' {
        Some(4)
    } else if c == '5' {
        Some(5)
    } else if c == '6' {
        Some(6)
    } else if c == '7' {
        Some(7)
    } else if c == '8' {
        Some(8)
    } else if c == '9' {
        Some(9)
    } else if c == 'a' {
        Some(10)
    } else if c == 'b' {
        Some(11)
    } else if c == 'c' {
        Some(12)
    } else if c == 'd' {
        Some(13)
    } else if c == 'e' {
        Some(14)
    } else if c == 'f' {
        Some(15)
    } else {
        None
    }
}

/// Decodes lowercase hex text; fails exactly on strings that are not the
/// hex form of any byte string.
pub fn hex_decode(s: &str) -> (r: Option<Vec<u8>>)
    ensures
        match r {
            Some(v) => spec_hex_encode(v@) == s@,
            None => !spec_is_hex(s@),
        },
{
    let n = s.unicode_len();
    if n % 2 != 0 {
        return None;
    }
    let mut v: Vec<u8> = Vec::new();
    let mut i: usize = 0;
    while i < n
        invariant
            n == s@.len(),
            n % 2 == 0,
            i % 2 == 0,
            i <= n,
            spec_hex_encode(v@) =~= s@.subrange(0, i as int),
            v@.len() * 2 == i,
        decreases n - i,
    {
        let hi = match hex_value(s.get_char(i)) {
            Some(x) => x,
            None => {
                proof {
                    assert(!spec_is_hex(s@));
                }
                return None;
            },
        };
        let lo = match hex_value(s.get_char(i + 1)) {
            Some(x) => x,
            None => {
                proof {
                    assert(!spec_is_hex(s@));
                }
                return None;
            },
        };
        let ghost prev = v@;
        let b: u8 = hi * 16 + lo;
        v.push(b);
        proof {
            assert(v@ == prev.push(b));
            assert(b / 16 == hi && b % 16 == lo);
            lemma_hex_encode_app(prev, b);
            assert(s@.subrange(0, i + 2) =~= s@.subrange(0, i as int) + seq![s@[i as int], s@[i + 1]]);
            assert(spec_hex_encode(v@) =~= s@.subrange(0, i + 2));
        }
        i = i + 2;
    }
    proof {
        assert(s@.subrange(0, n as int) =~= s@);
    }
    Some(v)
}

/// Appending one byte appends its two digits.
pub proof fn lemma_hex_encode_app(data: Seq<u8>, b: u8)
    ensures
        spec_hex_encode(data.push(b)) == spec_hex_encode(data) + seq![
            hex_char_of((b / 16) as u8),
            hex_char_of((b % 16) as u8),
        ],
    decreases data.len(),
{
    if data.len() == 0 {
        assert(data.push(b).drop_first() =~= Seq::<u8>::empty());
        assert(data.push(b)[0] == b);
        assert(spec_hex_encode(Seq::<u8>::empty()) == Seq::<char>::empty());
        assert(spec_hex_encode(data.push(b)) =~= spec_hex_encode(data) + seq![
            hex_char_of((b / 16) as u8),
            hex_char_of((b % 16) as u8),
        ]);
    } else {
        let tail = seq![hex_char_of((b / 16) as u8), hex_char_of((b % 16) as u8)];
        assert(data.push(b).drop_first() =~= data.drop_first().push(b));
        assert(data.push(b)[0] == data[0]);
        assert(data.push(b).len() == data.len() + 1);
        lemma_hex_encode_app(data.drop_first(), b);
        assert(spec_hex_encode(data.push(b)) == seq![
            hex_char_of((data[0] / 16) as u8),
            hex_char_of((data[0] % 16) as u8),
        ] + (spec_hex_encode(data.drop_first()) + tail));
        assert(spec_hex_encode(data.push(b)) =~= spec_hex_encode(data) + tail);
    }
}

} // verus!
