//! Hexadecimal text: encoding through the `hex` crate, stated exactly,
//! and a verified decoder for the hex fields of indexer responses.

use vstd::prelude::*;

verus! {

/// The lowercase hex digit of a value below sixteen.
pub open spec fn spec_hex_digit(n: u8) -> char {
    if n == 0 {
        '0'
    } else if n == 1 {
        '1'
    } else if n == 2 {
        '2'
    } else if n == 3 {
        '3'
    } else if n == 4 {
        '4'
    } else if n == 5 {
        '5'
    } else if n == 6 {
        '6'
    } else if n == 7 {
        '7'
    } else if n == 8 {
        '8'
    } else if n == 9 {
        '9'
    } else if n == 10 {
        'a'
    } else if n == 11 {
        'b'
    } else if n == 12 {
        'c'
    } else if n == 13 {
        'd'
    } else if n == 14 {
        'e'
    } else {
        'f'
    }
}

/// The lowercase hex text of a byte string: two digits per byte, high
/// nibble first.
pub open spec fn spec_hex(bytes: Seq<u8>) -> Seq<char> {
    Seq::new(
        bytes.len() * 2,
        |i: int|
            if i % 2 == 0 {
                spec_hex_digit(bytes[i / 2] >> 4)
            } else {
                spec_hex_digit(bytes[i / 2] & 0x0f)
            },
    )
}

/// Relies on hex::encode: each input byte becomes two lowercase hex
/// digits, high nibble first, in input order.
#[verifier::external_body]
pub(crate) fn encode_hex(bytes: &[u8]) -> (r: String)
    ensures
        r@ == spec_hex(bytes@),
{
    hex::encode(bytes)
}

/// The value of one ASCII hex digit, upper or lower case.
pub open spec fn spec_hex_val(c: u8) -> Option<u8> {
    if 48 <= c <= 57 {
        Some((c - 48) as u8)
    } else if 97 <= c <= 102 {
        Some((c - 87) as u8)
    } else if 65 <= c <= 70 {
        Some((c - 55) as u8)
    } else {
        None
    }
}

/// Whether a byte string is well-formed hex text: even length, every
/// byte an ASCII hex digit.
pub open spec fn spec_is_hex_text(s: Seq<u8>) -> bool {
    s.len() % 2 == 0 && forall|i: int| 0 <= i < s.len() ==> spec_hex_val(#[trigger] s[i]) is Some
}

/// The bytes that well-formed hex text denotes.
pub open spec fn spec_hex_decode(s: Seq<u8>) -> Seq<u8> {
    Seq::new(
        s.len() / 2,
        |i: int| (spec_hex_val(s[2 * i])->Some_0 * 16 + spec_hex_val(s[2 * i + 1])->Some_0) as u8,
    )
}

/// Reads one ASCII hex digit.
pub fn hex_val(c: u8) -> (r: Option<u8>)
    ensures
        r == spec_hex_val(c),
{
    if 48 <= c && c <= 57 {
        Some(c - 48)
    } else if 97 <= c && c <= 102 {
        Some(c - 87)
    } else if 65 <= c && c <= 70 {
        Some(c - 55)
    } else {
        None
    }
}

/// Decodes hex text into bytes; rejects odd lengths and non-hex bytes.
pub fn decode_hex(s: &[u8]) -> (r: Option<Vec<u8>>)
    ensures
        match r {
            Some(v) => spec_is_hex_text(s@) && v@ == spec_hex_decode(s@),
            None => !spec_is_hex_text(s@),
        },
{
    let n = s.len();
    if n % 2 != 0 {
        return None;
    }
    let mut out: Vec<u8> = Vec::new();
    let mut i: usize = 0;
    while i < n
        invariant
            0 <= i <= n,
            i % 2 == 0,
            n % 2 == 0,
            n == s@.len(),
            out@.len() == i / 2,
            forall|k: int| 0 <= k < i ==> spec_hex_val(#[trigger] s@[k]) is Some,
            forall|k: int|
                0 <= k < i / 2 ==> out@[k] == (spec_hex_val(s@[2 * k])->Some_0 * 16 + spec_hex_val(
                    s@[2 * k + 1],
                )->Some_0) as u8,
        decreases n - i,
    {
        let hi = match hex_val(s[i]) {
            Some(v) => v,
            None => {
                return None;
            },
        };
        let lo = match hex_val(s[i + 1]) {
            Some(v) => v,
            None => {
                return None;
            },
        };
        out.push(hi * 16 + lo);
        i = i + 2;
    }
    proof {
        assert(out@ =~= spec_hex_decode(s@));
    }
    Some(out)
}

/// Law: decoding the text that encoding produced gives the bytes back:
/// hex text is a faithful carrier.
pub proof fn law_hex_round_trip(bytes: Seq<u8>)
    ensures
        spec_is_hex_text(spec_hex(bytes).map(|i: int, c: char| c as u8)),
        spec_hex_decode(spec_hex(bytes).map(|i: int, c: char| c as u8)) =~= bytes,
{
    let text = spec_hex(bytes).map(|i: int, c: char| c as u8);
    assert forall|i: int| 0 <= i < text.len() implies spec_hex_val(#[trigger] text[i])
        is Some by {
        let x = bytes[i / 2];
        assert(x >> 4 < 16 && (x & 0x0f) < 16) by (bit_vector);
        if i % 2 == 0 {
            assert(text[i] == spec_hex_digit(x >> 4) as u8);
        } else {
            assert(text[i] == spec_hex_digit(x & 0x0f) as u8);
        }
    }
    assert forall|k: int| 0 <= k < bytes.len() implies spec_hex_decode(text)[k] == bytes[k] by {
        let b = bytes[k];
        let hi = b >> 4;
        let lo = b & 0x0f;
        assert(b >> 4 < 16 && (b & 0x0f) < 16) by (bit_vector);
        assert(text[2 * k] == spec_hex_digit(hi) as u8);
        assert(text[2 * k + 1] == spec_hex_digit(lo) as u8);
        assert(spec_hex_val(spec_hex_digit(hi) as u8) == Some(hi));
        assert(spec_hex_val(spec_hex_digit(lo) as u8) == Some(lo));
        assert((hi * 16 + lo) as u8 == b) by (bit_vector)
            requires
                hi == b >> 4,
                lo == b & 0x0f,
        ;
    }
}

} // verus!
