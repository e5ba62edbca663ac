//! The identifier codec.
//!
//! A document identifier is an opaque 64-bit value whose canonical string
//! form is the URL-safe, unpadded base64 encoding of its 8 big-endian bytes:
//! exactly 11 characters drawn from `A-Z a-z 0-9 - _`, the last of which
//! carries only 4 payload bits (its low 2 bits are zero). Decoding accepts
//! exactly the strings that encoding produces and reports a typed error for
//! every other input.

use vstd::prelude::*;
use crate::strutil::{string_to_chars, chars_to_string};

verus! {

/// Why a string failed to decode as an identifier.
#[derive(Clone, Copy, Debug, PartialEq, Eq, Structural)]
pub enum DecodeError {
    /// The string is not exactly 11 characters long.
    InvalidLength,
    /// Some character is outside the URL-safe base64 alphabet.
    InvalidSymbol,
    /// The final character sets one of its 2 padding bits.
    InvalidLastSymbol,
}

/// The character of the URL-safe base64 alphabet at index `n`.
pub open spec fn b64_char(n: int) -> char {
    if 0 <= n < 26 {
        ((65 + n) as u8) as char
    } else if 26 <= n < 52 {
        ((97 + (n - 26)) as u8) as char
    } else if 52 <= n < 62 {
        ((48 + (n - 52)) as u8) as char
    } else if n == 62 {
        '-'
    } else {
        '_'
    }
}

/// The alphabet index of `c`, or -1 if `c` is not in the alphabet.
pub open spec fn b64_val(c: char) -> int {
    let n = c as int;
    if 65 <= n <= 90 {
        n - 65
    } else if 97 <= n <= 122 {
        n - 97 + 26
    } else if 48 <= n <= 57 {
        n - 48 + 52
    } else if n == 45 {
        62
    } else if n == 95 {
        63
    } else {
        -1
    }
}

/// The `i`-th 6-bit group of `v` (big-endian); the last group carries the
/// low 4 bits of `v` followed by 2 zero bits.
pub open spec fn b64_group(v: u64, i: int) -> u64 {
    if 0 <= i < 10 {
        (v >> ((58 - 6 * i) as u64)) & 63
    } else {
        (v & 15) << 2
    }
}

/// The canonical 11-character encoding of `v`.
pub open spec fn spec_encode(v: u64) -> Seq<char> {
    Seq::new(11, |i: int| b64_char(b64_group(v, i) as int))
}

/// Whether `s` is a well-formed encoding: 11 characters of the alphabet,
/// with the last character's 2 padding bits clear.
pub open spec fn spec_decode_ok(s: Seq<char>) -> bool {
    &&& s.len() == 11
    &&& forall|i: int| 0 <= i < 11 ==> b64_val(#[trigger] s[i]) >= 0
    &&& b64_val(s[10]) % 4 == 0
}

/// The 64-bit value whose groups are the alphabet indices of `s`'s
/// characters (meaningful only when `spec_decode_ok(s)` holds).
pub open spec fn spec_assemble(s: Seq<char>) -> u64 {
    ((b64_val(s[0]) as u64) << 58u64) | ((b64_val(s[1]) as u64) << 52u64) | ((b64_val(s[2]) as u64)
        << 46u64) | ((b64_val(s[3]) as u64) << 40u64) | ((b64_val(s[4]) as u64) << 34u64) | ((b64_val(
        s[5],
    ) as u64) << 28u64) | ((b64_val(s[6]) as u64) << 22u64) | ((b64_val(s[7]) as u64) << 16u64) | ((
    b64_val(s[8]) as u64) << 10u64) | ((b64_val(s[9]) as u64) << 4u64) | ((b64_val(s[10]) as u64)
        >> 2u64)
}

/// What decoding returns on `s`: the assembled value on a well-formed
/// encoding, nothing otherwise.
pub open spec fn spec_decode(s: Seq<char>) -> Option<u64> {
    if spec_decode_ok(s) {
        Some(spec_assemble(s))
    } else {
        None
    }
}

/// Alphabet index and alphabet character invert each other.
proof fn lemma_alphabet_inverse()
    ensures
        forall|n: int| 0 <= n < 64 ==> b64_val(#[trigger] b64_char(n)) == n,
        forall|c: char| b64_val(c) >= 0 ==> #[trigger] b64_char(b64_val(c)) == c,
{
    assert forall|n: int| 0 <= n < 64 implies b64_val(#[trigger] b64_char(n)) == n by {
        assert(b64_char(n) as int == if n < 26 {
            65 + n
        } else if n < 52 {
            97 + (n - 26)
        } else if n < 62 {
            48 + (n - 52)
        } else if n == 62 {
            45
        } else {
            95
        });
    }
    assert forall|c: char| b64_val(c) >= 0 implies #[trigger] b64_char(b64_val(c)) == c by {
        let n = b64_val(c);
        assert(b64_char(n) as int == c as int);
        assert(b64_char(n) == c);
    }
}

/// The mapping from a value to its 6-bit groups and back is the identity,
/// and only group sequences with clear padding bits arise.
proof fn lemma_groups(v: u64)
    ensures
        forall|i: int| 0 <= i < 11 ==> 0 <= #[trigger] b64_group(v, i) < 64,
        b64_group(v, 10) % 4 == 0,
        (b64_group(v, 0) << 58u64) | (b64_group(v, 1) << 52u64) | (b64_group(v, 2) << 46u64) | (
        b64_group(v, 3) << 40u64) | (b64_group(v, 4) << 34u64) | (b64_group(v, 5) << 28u64) | (
        b64_group(v, 6) << 22u64) | (b64_group(v, 7) << 16u64) | (b64_group(v, 8) << 10u64) | (
        b64_group(v, 9) << 4u64) | (b64_group(v, 10) >> 2u64) == v,
{
    assert forall|i: int| 0 <= i < 10 implies 0 <= #[trigger] b64_group(v, i) < 64 by {
        let sh = (58 - 6 * i) as u64;
        assert((v >> sh) & 63 < 64) by (bit_vector);
    }
    assert((v & 15) << 2u64 < 64) by (bit_vector);
    assert(((v & 15) << 2u64) % 4 == 0) by (bit_vector);
    assert((((v >> 58u64) & 63) << 58u64) | (((v >> 52u64) & 63) << 52u64) | (((v >> 46u64) & 63)
        << 46u64) | (((v >> 40u64) & 63) << 40u64) | (((v >> 34u64) & 63) << 34u64) | (((v
        >> 28u64) & 63) << 28u64) | (((v >> 22u64) & 63) << 22u64) | (((v >> 16u64) & 63)
        << 16u64) | (((v >> 10u64) & 63) << 10u64) | (((v >> 4u64) & 63) << 4u64) | (((v & 15)
        << 2u64) >> 2u64) == v) by (bit_vector);
}

/// Assembling groups and then taking groups of the result is the identity,
/// provided every group is 6 bits and the last has clear padding bits.
proof fn lemma_assemble_groups(
    g0: u64, g1: u64, g2: u64, g3: u64, g4: u64,
    g5: u64, g6: u64, g7: u64, g8: u64, g9: u64, g10: u64,
)
    requires
        g0 < 64, g1 < 64, g2 < 64, g3 < 64, g4 < 64, g5 < 64,
        g6 < 64, g7 < 64, g8 < 64, g9 < 64, g10 < 64,
        g10 % 4 == 0,
    ensures
        ({
            let v = (g0 << 58u64) | (g1 << 52u64) | (g2 << 46u64) | (g3 << 40u64) | (g4 << 34u64) | (
            g5 << 28u64) | (g6 << 22u64) | (g7 << 16u64) | (g8 << 10u64) | (g9 << 4u64) | (g10
                >> 2u64);
            &&& (v >> 58u64) & 63 == g0
            &&& (v >> 52u64) & 63 == g1
            &&& (v >> 46u64) & 63 == g2
            &&& (v >> 40u64) & 63 == g3
            &&& (v >> 34u64) & 63 == g4
            &&& (v >> 28u64) & 63 == g5
            &&& (v >> 22u64) & 63 == g6
            &&& (v >> 16u64) & 63 == g7
            &&& (v >> 10u64) & 63 == g8
            &&& (v >> 4u64) & 63 == g9
            &&& (v & 15) << 2u64 == g10
        }),
{
    let v = (g0 << 58u64) | (g1 << 52u64) | (g2 << 46u64) | (g3 << 40u64) | (g4 << 34u64) | (g5
        << 28u64) | (g6 << 22u64) | (g7 << 16u64) | (g8 << 10u64) | (g9 << 4u64) | (g10 >> 2u64);
    assert((v >> 58u64) & 63 == g0 && (v >> 52u64) & 63 == g1 && (v >> 46u64) & 63 == g2 && (v
        >> 40u64) & 63 == g3 && (v >> 34u64) & 63 == g4 && (v >> 28u64) & 63 == g5 && (v >> 22u64)
        & 63 == g6 && (v >> 16u64) & 63 == g7 && (v >> 10u64) & 63 == g8 && (v >> 4u64) & 63 == g9
        && (v & 15) << 2u64 == g10) by (bit_vector)
        requires
            g0 < 64 && g1 < 64 && g2 < 64 && g3 < 64 && g4 < 64 && g5 < 64 && g6 < 64 && g7 < 64
                && g8 < 64 && g9 < 64 && g10 < 64 && g10 % 4 == 0,
            v == (g0 << 58u64) | (g1 << 52u64) | (g2 << 46u64) | (g3 << 40u64) | (g4 << 34u64) | (
            g5 << 28u64) | (g6 << 22u64) | (g7 << 16u64) | (g8 << 10u64) | (g9 << 4u64) | (g10
                >> 2u64),
    ;
}

/// Law: identifier round-trip. Encoding any 64-bit value and decoding the
/// result yields the value back; conversely, any string that decodes at all
/// is the canonical encoding of the value it decodes to, so distinct valid
/// strings denote distinct values and no other string decodes.
pub proof fn lemma_identifier_round_trip(v: u64, s: Seq<char>)
    ensures
        spec_decode(spec_encode(v)) == Some(v),
        spec_decode(s) matches Some(w) ==> s == spec_encode(w),
{
    lemma_alphabet_inverse();
    lemma_groups(v);
    let e = spec_encode(v);
    assert forall|i: int| 0 <= i < 11 implies b64_val(#[trigger] e[i]) == b64_group(v, i) by {
        assert(e[i] == b64_char(b64_group(v, i) as int));
    }
    assert(spec_decode_ok(e));
    assert(spec_assemble(e) == v);
    if spec_decode_ok(s) {
        let w = spec_assemble(s);
        lemma_assemble_groups(
            b64_val(s[0]) as u64, b64_val(s[1]) as u64, b64_val(s[2]) as u64, b64_val(s[3]) as u64,
            b64_val(s[4]) as u64, b64_val(s[5]) as u64, b64_val(s[6]) as u64, b64_val(s[7]) as u64,
            b64_val(s[8]) as u64, b64_val(s[9]) as u64, b64_val(s[10]) as u64,
        );
        assert forall|i: int| 0 <= i < 11 implies b64_group(w, i) == b64_val(s[i]) by {}
        assert(spec_encode(w) =~= s);
    }
}

/// The alphabet character at index `n`.
fn b64_char_of(n: u8) -> (c: char)
    requires
        n < 64,
    ensures
        c == b64_char(n as int),
{
    if n < 26 {
        (65 + n) as char
    } else if n < 52 {
        (97 + (n - 26)) as char
    } else if n < 62 {
        (48 + (n - 52)) as char
    } else if n == 62 {
        '-'
    } else {
        '_'
    }
}

/// The alphabet index of `c`, or 255 if `c` is not in the alphabet.
fn b64_val_of(c: char) -> (r: u8)
    ensures
        b64_val(c) >= 0 ==> r == b64_val(c),
        b64_val(c) < 0 ==> r == 255,
{
    let n = c as u32;
    if 65 <= n && n <= 90 {
        (n - 65) as u8
    } else if 97 <= n && n <= 122 {
        (n - 97 + 26) as u8
    } else if 48 <= n && n <= 57 {
        (n - 48 + 52) as u8
    } else if n == 45 {
        62
    } else if n == 95 {
        63
    } else {
        255
    }
}

/// Encode `v` as its canonical 11-character string.
pub fn encode_u64(v: u64) -> (s: String)
    ensures
        s@ == spec_encode(v),
{
    proof {
        lemma_groups(v);
    }
    let mut cs: Vec<char> = Vec::new();
    let mut i: usize = 0;
    while i < 10
        invariant
            i <= 10,
            cs@.len() == i,
            forall|j: int| 0 <= j < i ==> cs@[j] == b64_char(b64_group(v, j) as int),
        decreases 10 - i,
    {
        let sh: u64 = 58 - 6 * (i as u64);
        let g: u64 = (v >> sh) & 63;
        proof {
            assert((v >> sh) & 63 < 64) by (bit_vector);
        }
        cs.push(b64_char_of(g as u8));
        i += 1;
    }
    let g10: u64 = (v & 15) << 2u64;
    proof {
        assert((v & 15) << 2u64 < 64) by (bit_vector);
    }
    cs.push(b64_char_of(g10 as u8));
    assert(cs@ =~= spec_encode(v));
    chars_to_string(&cs)
}

/// Decode the canonical string form back to its 64-bit value, reporting
/// exactly why an invalid string is rejected.
pub fn decode_u64(s: &str) -> (r: Result<u64, DecodeError>)
    ensures
        r matches Ok(v) ==> spec_decode(s@) == Some(v),
        r is Err ==> spec_decode(s@) is None,
        r == Err::<u64, DecodeError>(DecodeError::InvalidLength) <==> s@.len() != 11,
        r == Err::<u64, DecodeError>(DecodeError::InvalidSymbol) <==> (s@.len() == 11
            && exists|i: int| 0 <= i < 11 && b64_val(#[trigger] s@[i]) < 0),
        r == Err::<u64, DecodeError>(DecodeError::InvalidLastSymbol) <==> (s@.len() == 11 && (
        forall|i: int| 0 <= i < 11 ==> b64_val(#[trigger] s@[i]) >= 0) && b64_val(s@[10]) % 4 != 0),
{
    let cs = string_to_chars(s);
    if cs.len() != 11 {
        return Err(DecodeError::InvalidLength);
    }
    let mut vals: Vec<u64> = Vec::new();
    let mut i: usize = 0;
    while i < 11
        invariant
            i <= 11,
            cs@.len() == 11,
            cs@ == s@,
            vals@.len() == i,
            forall|j: int| 0 <= j < i ==> b64_val(s@[j]) >= 0,
            forall|j: int| 0 <= j < i ==> vals@[j] == b64_val(s@[j]),
            forall|j: int| 0 <= j < i ==> vals@[j] < 64,
        decreases 11 - i,
    {
        let x = b64_val_of(cs[i]);
        if x == 255 {
            return Err(DecodeError::InvalidSymbol);
        }
        vals.push(x as u64);
        i += 1;
    }
    if vals[10] % 4 != 0 {
        return Err(DecodeError::InvalidLastSymbol);
    }
    assert(spec_decode_ok(s@));
    let v: u64 = (vals[0] << 58u64) | (vals[1] << 52u64) | (vals[2] << 46u64) | (vals[3] << 40u64)
        | (vals[4] << 34u64) | (vals[5] << 28u64) | (vals[6] << 22u64) | (vals[7] << 16u64) | (
    vals[8] << 10u64) | (vals[9] << 4u64) | (vals[10] >> 2u64);
    assert(v == spec_assemble(s@));
    Ok(v)
}

} // verus!
