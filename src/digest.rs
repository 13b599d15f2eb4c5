use vstd::prelude::*;

use crate::text::chars_of;
use crate::text::push_char;
use crate::types::is_hash_text;
use crate::types::is_hex_digit;

verus! {

/// The value of a lowercase hexadecimal digit.
pub open spec fn hex_value(c: char) -> int {
    if '0' <= c && c <= '9' {
        c as int - '0' as int
    } else {
        c as int - 'a' as int + 10
    }
}

/// The lowercase hexadecimal digit for `v`, which is below sixteen.
pub open spec fn hex_char(v: int) -> char {
    if v < 8 {
        if v == 0 {
            '0'
        } else if v == 1 {
            '1'
        } else if v == 2 {
            '2'
        } else if v == 3 {
            '3'
        } else if v == 4 {
            '4'
        } else if v == 5 {
            '5'
        } else if v == 6 {
            '6'
        } else {
            '7'
        }
    } else {
        if v == 8 {
            '8'
        } else if v == 9 {
            '9'
        } else if v == 10 {
            'a'
        } else if v == 11 {
            'b'
        } else if v == 12 {
            'c'
        } else if v == 13 {
            'd'
        } else if v == 14 {
            'e'
        } else {
            'f'
        }
    }
}

/// Two lowercase hexadecimal digits per byte, the high one first.
pub open spec fn hex_text(b: Seq<u8>) -> Seq<char> {
    Seq::new(
        2 * b.len(),
        |i: int|
            if i % 2 == 0 {
                hex_char(b[i / 2] as int / 16)
            } else {
                hex_char(b[i / 2] as int % 16)
            },
    )
}

/// The bytes that pairs of hexadecimal digits stand for.
pub open spec fn hex_bytes(s: Seq<char>) -> Seq<u8> {
    Seq::new(s.len() / 2, |i: int| (hex_value(s[2 * i]) * 16 + hex_value(s[2 * i + 1])) as u8)
}

fn hex_char_of(v: u8) -> (c: char)
    requires
        v < 16,
    ensures
        c == hex_char(v as int),
{
    match v {
        0 => '0',
        1 => '1',
        2 => '2',
        3 => '3',
        4 => '4',
        5 => '5',
        6 => '6',
        7 => '7',
        8 => '8',
        9 => '9',
        10 => 'a',
        11 => 'b',
        12 => 'c',
        13 => 'd',
        14 => 'e',
        _ => 'f',
    }
}

fn hex_value_of(c: char) -> (v: u8)
    requires
        is_hex_digit(c),
    ensures
        v as int == hex_value(c),
        v < 16,
{
    if '0' <= c && c <= '9' {
        (c as u32 - '0' as u32) as u8
    } else {
        (c as u32 - 'a' as u32 + 10) as u8
    }
}

proof fn lemma_hex_char_value(c: char)
    requires
        is_hex_digit(c),
    ensures
        0 <= hex_value(c) < 16,
        hex_char(hex_value(c)) == c,
{
}

/// A SHA3-224 digest.
#[derive(Debug, Clone, Copy)]
pub struct Hash(pub [u8; 28]);

impl Hash {
    /// Reads a digest from its text form; `None` unless `s` is 56 lowercase
    /// hexadecimal digits.
    pub fn deserialize(s: &str) -> (r: Option<Hash>)
        ensures
            r is Some <==> is_hash_text(s@),
            r is Some ==> r.unwrap().0@ == hex_bytes(s@),
    {
        let c = chars_of(s);
        if c.len() != 56 {
            return None;
        }
        let mut bytes = [0u8; 28];
        let mut i: usize = 0;
        while i < 28
            invariant
                c@ == s@,
                c@.len() == 56,
                i <= 28,
                forall|j: int| 0 <= j < 2 * i ==> is_hex_digit(#[trigger] c@[j]),
                forall|j: int|
                    0 <= j < i ==> #[trigger] bytes@[j] == (hex_value(c@[2 * j]) * 16 + hex_value(
                        c@[2 * j + 1],
                    )) as u8,
            decreases 28 - i,
        {
            let high = c[2 * i];
            let low = c[2 * i + 1];
            if !(('0' <= high && high <= '9') || ('a' <= high && high <= 'f')) {
                return None;
            }
            if !(('0' <= low && low <= '9') || ('a' <= low && low <= 'f')) {
                return None;
            }
            let h = hex_value_of(high);
            let l = hex_value_of(low);
            bytes[i] = h * 16 + l;
            i = i + 1;
        }
        assert(bytes@ =~= hex_bytes(s@));
        Some(Hash(bytes))
    }

    /// The text form of the digest: 56 lowercase hexadecimal digits.
    pub fn serialize(&self) -> (r: String)
        ensures
            r@ == hex_text(self.0@),
    {
        let mut s = String::new();
        let mut i: usize = 0;
        while i < 28
            invariant
                i <= 28,
                s@ == hex_text(self.0@.subrange(0, i as int)),
            decreases 28 - i,
        {
            let b = self.0[i];
            push_char(&mut s, hex_char_of(b / 16));
            push_char(&mut s, hex_char_of(b % 16));
            assert(hex_text(self.0@.subrange(0, i + 1)) =~= hex_text(
                self.0@.subrange(0, i as int),
            ).push(hex_char(b as int / 16)).push(hex_char(b as int % 16)));
            i = i + 1;
        }
        assert(self.0@.subrange(0, 28) =~= self.0@);
        s
    }

    /// Whether two digests hold the same bytes.
    pub fn same(&self, other: &Hash) -> (r: bool)
        ensures
            r == (self.0@ == other.0@),
    {
        let mut i: usize = 0;
        while i < 28
            invariant
                i <= 28,
                forall|j: int| 0 <= j < i ==> self.0@[j] == other.0@[j],
            decreases 28 - i,
        {
            if self.0[i] != other.0[i] {
                return false;
            }
            i = i + 1;
        }
        assert(self.0@ =~= other.0@);
        true
    }
}

/// Reading a digest's text form and writing it again gives back the same
/// text.
pub proof fn lemma_hash_text_round_trip(s: Seq<char>)
    requires
        is_hash_text(s),
    ensures
        hex_text(hex_bytes(s)) == s,
{
    let b = hex_bytes(s);
    assert forall|i: int| 0 <= i < s.len() implies #[trigger] hex_text(b)[i] == s[i] by {
        let k = i / 2;
        lemma_hex_char_value(s[2 * k]);
        lemma_hex_char_value(s[2 * k + 1]);
        let hi = hex_value(s[2 * k]);
        let lo = hex_value(s[2 * k + 1]);
        assert((hi * 16 + lo) as u8 as int == hi * 16 + lo);
        assert((hi * 16 + lo) / 16 == hi && (hi * 16 + lo) % 16 == lo) by (nonlinear_arith)
            requires
                0 <= hi < 16,
                0 <= lo < 16,
        ;
    }
    assert(hex_text(b) =~= s);
}

/// Writing a digest as text and reading it again gives back the same bytes.
pub proof fn lemma_hash_bytes_round_trip(b: Seq<u8>)
    ensures
        b.len() == 28 ==> is_hash_text(hex_text(b)),
        hex_bytes(hex_text(b)) == b,
{
    let s = hex_text(b);
    assert forall|i: int| 0 <= i < b.len() implies #[trigger] hex_bytes(s)[i] == b[i] by {
        let v = b[i] as int;
        assert(v / 16 * 16 + v % 16 == v && 0 <= v / 16 < 16 && 0 <= v % 16 < 16) by (
        nonlinear_arith)
            requires
                0 <= v < 256,
        ;
        assert(s[2 * i] == hex_char(v / 16));
        assert(s[2 * i + 1] == hex_char(v % 16));
    }
    assert(hex_bytes(s) =~= b);
}

} // verus!
