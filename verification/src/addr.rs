//! Binary addresses and their fixed-width uppercase hexadecimal encoding.
//!
//! A block record's range endpoints are binary addresses of one of two
//! families: 4 bytes or 16 bytes. They are persisted as uppercase hexadecimal
//! strings (8 or 32 characters), which keeps addresses of the same family in
//! their natural lexicographic order.

use vstd::prelude::*;

verus! {

/// The uppercase hexadecimal digit for a nibble value below 16.
pub open spec fn hex_char_of(n: u8) -> char
    recommends
        n < 16,
{
    if n == 0 {
        '0'
    } else if n == 1 {
        '1'
    } else if n == 2 {
        '2'
    } else if n == 3 {
        '3'
    } else if n == 4 {
        '4'
    } else if n == 5 {
        '5'
    } else if n == 6 {
        '6'
    } else if n == 7 {
        '7'
    } else if n == 8 {
        '8'
    } else if n == 9 {
        '9'
    } else if n == 10 {
        'A'
    } else if n == 11 {
        'B'
    } else if n == 12 {
        'C'
    } else if n == 13 {
        'D'
    } else if n == 14 {
        'E'
    } else {
        'F'
    }
}

/// The nibble value of an uppercase hexadecimal digit, if it is one.
pub open spec fn hex_val_of(c: char) -> Option<u8> {
    if c == '0' {
        Some(0u8)
    } else if c == '1' {
        Some(1u8)
    } else if c == '2' {
        Some(2u8)
    } else if c == '3' {
        Some(3u8)
    } else if c == '4' {
        Some(4u8)
    } else if c == '5' {
        Some(5u8)
    } else if c == '6' {
        Some(6u8)
    } else if c == '7' {
        Some(7u8)
    } else if c == '8' {
        Some(8u8)
    } else if c == '9' {
        Some(9u8)
    } else if c == 'A' {
        Some(10u8)
    } else if c == 'B' {
        Some(11u8)
    } else if c == 'C' {
        Some(12u8)
    } else if c == 'D' {
        Some(13u8)
    } else if c == 'E' {
        Some(14u8)
    } else if c == 'F' {
        Some(15u8)
    } else {
        None
    }
}

/// The uppercase hexadecimal rendering of a byte sequence: two digits per
/// byte, high nibble first.
pub open spec fn hex_str_of(b: Seq<u8>) -> Seq<char>
    decreases b.len(),
{
    if b.len() == 0 {
        Seq::empty()
    } else {
        seq![hex_char_of(b[0] / 16), hex_char_of(b[0] % 16)] + hex_str_of(b.skip(1))
    }
}

/// The bytes denoted by a sequence of uppercase hexadecimal digits, or `None`
/// if the length is odd or a character is not an uppercase hexadecimal digit.
pub open spec fn hex_bytes_of(s: Seq<char>) -> Option<Seq<u8>>
    decreases s.len(),
{
    if s.len() == 0 {
        Some(Seq::empty())
    } else if s.len() == 1 {
        None
    } else {
        match (hex_val_of(s[0]), hex_val_of(s[1]), hex_bytes_of(s.skip(2))) {
            (Some(hi), Some(lo), Some(rest)) => Some(seq![(hi * 16 + lo) as u8] + rest),
            _ => None,
        }
    }
}

/// An encoding is twice as long as its input.
pub proof fn lemma_hex_str_len(b: Seq<u8>)
    ensures
        hex_str_of(b).len() == 2 * b.len(),
    decreases b.len(),
{
    if b.len() > 0 {
        lemma_hex_str_len(b.skip(1));
    }
}

/// The digits at positions `2i` and `2i + 1` of an encoding come from the
/// nibbles of byte `i`.
pub proof fn lemma_hex_str_index(b: Seq<u8>, i: int)
    requires
        0 <= i < b.len(),
    ensures
        hex_str_of(b)[2 * i] == hex_char_of(b[i] / 16),
        hex_str_of(b)[2 * i + 1] == hex_char_of(b[i] % 16),
    decreases i,
{
    lemma_hex_str_len(b.skip(1));
    if i > 0 {
        lemma_hex_str_index(b.skip(1), i - 1);
    }
}

/// Decoding a digit produced by encoding gives the nibble back.
proof fn lemma_hex_char_val(n: u8)
    requires
        n < 16,
    ensures
        hex_val_of(hex_char_of(n)) == Some(n),
{
}

/// Decoding recovers exactly the bytes that encoding started from.
pub proof fn lemma_hex_round_trip(b: Seq<u8>)
    ensures
        hex_bytes_of(hex_str_of(b)) == Some(b),
    decreases b.len(),
{
    if b.len() == 0 {
        assert(hex_str_of(b).len() == 0);
        assert(hex_bytes_of(hex_str_of(b))->Some_0 =~= b);
    } else {
        let s = hex_str_of(b);
        lemma_hex_str_len(b.skip(1));
        assert(s.len() >= 2);
        lemma_hex_char_val(b[0] / 16);
        lemma_hex_char_val(b[0] % 16);
        lemma_hex_round_trip(b.skip(1));
        assert(s.skip(2) =~= hex_str_of(b.skip(1)));
        assert((b[0] / 16) * 16 + (b[0] % 16) == b[0]) by {
            vstd::arithmetic::div_mod::lemma_fundamental_div_mod(b[0] as int, 16);
        }
        assert(hex_bytes_of(s)->Some_0 =~= b);
    }
}

/// Relies on `hex::encode_upper`: each input byte becomes two uppercase
/// hexadecimal digits, high nibble first, so the result's characters are
/// exactly `hex_str_of` of the input bytes.
#[verifier::external_body]
fn hex_upper(bytes: &[u8]) -> (r: String)
    ensures
        r@ == hex_str_of(bytes@),
{
    hex::encode_upper(bytes)
}

/// The nibble value of an uppercase hexadecimal digit, executably.
fn hex_val(c: char) -> (r: Option<u8>)
    ensures
        r == hex_val_of(c),
{
    if c == '0' {
        Some(0u8)
    } else if c == '1' {
        Some(1u8)
    } else if c == '2' {
        Some(2u8)
    } else if c == '3' {
        Some(3u8)
    } else if c == '4' {
        Some(4u8)
    } else if c == '5' {
        Some(5u8)
    } else if c == '6' {
        Some(6u8)
    } else if c == '7' {
        Some(7u8)
    } else if c == '8' {
        Some(8u8)
    } else if c == '9' {
        Some(9u8)
    } else if c == 'A' {
        Some(10u8)
    } else if c == 'B' {
        Some(11u8)
    } else if c == 'C' {
        Some(12u8)
    } else if c == 'D' {
        Some(13u8)
    } else if c == 'E' {
        Some(14u8)
    } else if c == 'F' {
        Some(15u8)
    } else {
        None
    }
}

/// A binary address: 4 bytes for one family, 16 for the other.
pub struct Addr {
    pub bytes: Vec<u8>,
}

impl Addr {
    /// An address belongs to one of the two families.
    pub open spec fn wf(&self) -> bool {
        self.bytes@.len() == 4 || self.bytes@.len() == 16
    }

    /// The characters of this address's hexadecimal encoding.
    pub open spec fn spec_encoded(&self) -> Seq<char> {
        hex_str_of(self.bytes@)
    }

    /// The degenerate all-zero address of the 4-byte family.
    pub open spec fn is_zero_v4(&self) -> bool {
        self.bytes@.len() == 4 && (forall|i: int| 0 <= i < 4 ==> self.bytes@[i] == 0)
    }

    /// Renders this address as fixed-width uppercase hexadecimal.
    pub fn encode(&self) -> (r: String)
        ensures
            r@ == self.spec_encoded(),
    {
        hex_upper(self.bytes.as_slice())
    }

    /// Tests whether this address is the all-zero 4-byte address.
    pub fn is_zero_v4_exec(&self) -> (r: bool)
        ensures
            r == self.is_zero_v4(),
    {
        if self.bytes.len() != 4 {
            return false;
        }
        let mut i: usize = 0;
        while i < 4
            invariant
                0 <= i <= 4,
                self.bytes@.len() == 4,
                forall|j: int| 0 <= j < i ==> self.bytes@[j] == 0,
            decreases 4 - i,
        {
            if *self.bytes.get(i).unwrap() != 0 {
                return false;
            }
            i = i + 1;
        }
        true
    }
}

/// Law: the drop filter on the encoded range start — equality with the
/// literal eight-zero string — fires exactly for the all-zero address of the
/// 4-byte family, and never for the 16-byte family.
pub proof fn lemma_zero_v4_encoding(a: Addr)
    requires
        a.wf(),
    ensures
        a.is_zero_v4() <==> a.spec_encoded() == "00000000"@,
{
    reveal_strlit("00000000");
    lemma_hex_str_len(a.bytes@);
    if a.is_zero_v4() {
        lemma_hex_str_index(a.bytes@, 0);
        lemma_hex_str_index(a.bytes@, 1);
        lemma_hex_str_index(a.bytes@, 2);
        lemma_hex_str_index(a.bytes@, 3);
        assert(a.spec_encoded() =~= "00000000"@);
    } else if a.spec_encoded() == "00000000"@ {
        assert(a.spec_encoded().len() == 8);
        assert(a.bytes@.len() == 4);
        assert forall|i: int| 0 <= i < 4 implies a.bytes@[i] == 0 by {
            lemma_hex_str_index(a.bytes@, i);
            assert(a.spec_encoded()[2 * i] == '0');
            assert(a.spec_encoded()[2 * i + 1] == '0');
            assert(a.bytes@[i] / 16 < 16);
            assert(a.bytes@[i] / 16 == 0);
            assert(a.bytes@[i] % 16 == 0);
            vstd::arithmetic::div_mod::lemma_fundamental_div_mod(a.bytes@[i] as int, 16);
        }
        assert(a.is_zero_v4());
    }
}

/// Decoding is `None` for any odd-length character sequence.
proof fn lemma_hex_bytes_odd(s: Seq<char>)
    requires
        s.len() % 2 == 1,
    ensures
        hex_bytes_of(s) is None,
    decreases s.len(),
{
    if s.len() > 1 {
        lemma_hex_bytes_odd(s.skip(2));
    }
}

/// Decoding splits at any even position: the whole decodes exactly when both
/// halves do, to the concatenation.
proof fn lemma_hex_bytes_split(s: Seq<char>, k: int)
    requires
        0 <= 2 * k <= s.len(),
    ensures
        hex_bytes_of(s) == match (hex_bytes_of(s.take(2 * k)), hex_bytes_of(s.skip(2 * k))) {
            (Some(x), Some(y)) => Some(x + y),
            _ => None::<Seq<u8>>,
        },
    decreases k,
{
    if k == 0 {
        assert(s.take(0) =~= Seq::<char>::empty());
        assert(s.skip(0) =~= s);
        if hex_bytes_of(s) is Some {
            assert(Seq::<u8>::empty() + hex_bytes_of(s)->Some_0 =~= hex_bytes_of(s)->Some_0);
        }
    } else {
        assert(s.len() >= 2);
        let t = s.take(2 * k);
        assert(t.len() == 2 * k >= 2);
        assert(t[0] == s[0] && t[1] == s[1]);
        lemma_hex_bytes_split(s.skip(2), k - 1);
        assert(s.skip(2).take(2 * (k - 1)) =~= t.skip(2));
        assert(s.skip(2).skip(2 * (k - 1)) =~= s.skip(2 * k));
        match (hex_val_of(s[0]), hex_val_of(s[1])) {
            (Some(hi), Some(lo)) => {
                let v = (hi * 16 + lo) as u8;
                match (hex_bytes_of(t.skip(2)), hex_bytes_of(s.skip(2 * k))) {
                    (Some(x), Some(y)) => {
                        assert(hex_bytes_of(t) == Some(seq![v] + x));
                        assert(hex_bytes_of(s.skip(2)) == Some(x + y));
                        assert(hex_bytes_of(s) == Some(seq![v] + (x + y)));
                        assert((seq![v] + x) + y =~= seq![v] + (x + y));
                    },
                    _ => {
                    },
                }
            },
            _ => {
            },
        }
    }
}

/// Parses a fixed-width uppercase hexadecimal string back into bytes.
///
/// Returns `None` exactly when the input's length is odd or some character is
/// not an uppercase hexadecimal digit.
pub fn decode_hex(s: &str) -> (r: Option<Vec<u8>>)
    ensures
        r is Some <==> hex_bytes_of(s@) is Some,
        r matches Some(v) ==> Some(v@) == hex_bytes_of(s@),
{
    let n = s.unicode_len();
    if n % 2 != 0 {
        proof {
            lemma_hex_bytes_odd(s@);
        }
        return None;
    }
    let mut out: Vec<u8> = Vec::new();
    let mut i: usize = 0;
    while i < n / 2
        invariant
            0 <= i,
            2 * i <= n,
            n == s@.len(),
            n % 2 == 0,
            hex_bytes_of(s@.take(2 * i)) == Some(out@),
        decreases n - 2 * i,
    {
        let c_hi = s.get_char(2 * i);
        let c_lo = s.get_char(2 * i + 1);
        let hi = hex_val(c_hi);
        let lo = hex_val(c_lo);
        proof {
            lemma_hex_bytes_split(s@, i as int);
        }
        if hi.is_none() || lo.is_none() {
            proof {
                assert(s@.skip(2 * i)[0] == s@[2 * i]);
                assert(s@.skip(2 * i)[1] == s@[2 * i + 1]);
                assert(hex_bytes_of(s@.skip(2 * i)) is None);
            }
            return None;
        }
        let v: u8 = hi.unwrap() * 16 + lo.unwrap();
        out.push(v);
        proof {
            let t = s@.take(2 * (i + 1));
            lemma_hex_bytes_split(t, i as int);
            assert(t.take(2 * i) =~= s@.take(2 * i));
            let pair = t.skip(2 * i);
            assert(pair.len() == 2);
            assert(pair[0] == s@[2 * i] && pair[1] == s@[2 * i + 1]);
            assert(pair.skip(2) =~= Seq::<char>::empty());
            assert(seq![v] + Seq::<u8>::empty() =~= seq![v]);
            assert(hex_val_of(pair[0]) is Some);
            assert(hex_val_of(pair[1]) is Some);
            assert(hex_bytes_of(pair.skip(2)) == Some(Seq::<u8>::empty()));
            assert(v == (hex_val_of(pair[0])->Some_0 * 16 + hex_val_of(pair[1])->Some_0) as u8);
            assert(hex_bytes_of(pair) == Some(seq![v]));
            assert(hex_bytes_of(t) is Some);
            assert(hex_bytes_of(t)->Some_0 =~= out@);
        }
        i = i + 1;
    }
    proof {
        assert(s@.take(2 * (i as int)) =~= s@);
    }
    Some(out)
}

} // verus!
