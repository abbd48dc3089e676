//! Hex codec for digests: lowercase encoding, two characters per byte,
//! and a decoder that rejects odd lengths and non-hex characters.

use vstd::prelude::*;

verus! {

/// Why a hex string could not be decoded.
#[derive(Clone, Copy, Debug, PartialEq, Eq, Structural)]
pub enum DecodeError {
    /// The string's length is odd, so its last character completes no
    /// two-character group.
    OddLength,
    /// Some character is not a base-16 digit.
    InvalidDigit,
}

/// Whether `c` is a base-16 digit, in either case.
pub open spec fn is_hex_digit(c: char) -> bool {
    (48 <= c as u32 && c as u32 <= 57) || (97 <= c as u32 && c as u32 <= 102) || (65 <= c as u32
        && c as u32 <= 70)
}

/// The value of a base-16 digit.
pub open spec fn hex_digit_val(c: char) -> u8
    recommends
        is_hex_digit(c),
{
    if 48 <= c as u32 && c as u32 <= 57 {
        (c as u32 - 48) as u8
    } else if 97 <= c as u32 && c as u32 <= 102 {
        (c as u32 - 87) as u8
    } else if 65 <= c as u32 && c as u32 <= 70 {
        (c as u32 - 55) as u8
    } else {
        0
    }
}

/// The lowercase hex digit of a value below 16.
pub open spec fn hex_digit_char(v: u8) -> char
    recommends
        v < 16,
{
    if v == 0 {
        '0'
    } else if v == 1 {
        '1'
    } else if v == 2 {
        '2'
    } else if v == 3 {
        '3'
    } else if v == 4 {
        '4'
    } else if v == 5 {
        '5'
    } else if v == 6 {
        '6'
    } else if v == 7 {
        '7'
    } else if v == 8 {
        '8'
    } else if v == 9 {
        '9'
    } else if v == 10 {
        'a'
    } else if v == 11 {
        'b'
    } else if v == 12 {
        'c'
    } else if v == 13 {
        'd'
    } else if v == 14 {
        'e'
    } else {
        'f'
    }
}

/// The lowercase hex encoding of a byte sequence: most-significant
/// nibble first, two characters per byte.
pub open spec fn hex_encoding(bytes: Seq<u8>) -> Seq<char> {
    Seq::new(
        bytes.len() * 2,
        |i: int|
            if i % 2 == 0 {
                hex_digit_char((bytes[i / 2] / 16) as u8)
            } else {
                hex_digit_char((bytes[i / 2] % 16) as u8)
            },
    )
}

/// Whether a character sequence is a well-formed hex string: even
/// length, every character a base-16 digit.
pub open spec fn is_hex_string(s: Seq<char>) -> bool {
    &&& s.len() % 2 == 0
    &&& forall|i: int| 0 <= i < s.len() ==> is_hex_digit(s[i])
}

/// The bytes a well-formed hex string denotes, one per character pair.
pub open spec fn hex_decoding(s: Seq<char>) -> Seq<u8>
    recommends
        is_hex_string(s),
{
    Seq::new(s.len() / 2, |i: int| (hex_digit_val(s[2 * i]) * 16 + hex_digit_val(s[2 * i + 1]))
        as u8)
}

/// Decodes a hex string to bytes. Fails on an odd length or on any
/// character outside base 16; never returns a partial result.
pub fn decode_hex(hex_str: &str) -> (r: Result<Vec<u8>, DecodeError>)
    ensures
        match r {
            Ok(bytes) => is_hex_string(hex_str@) && bytes@ == hex_decoding(hex_str@),
            Err(DecodeError::OddLength) => hex_str@.len() % 2 == 1,
            Err(DecodeError::InvalidDigit) => hex_str@.len() % 2 == 0 && !is_hex_string(hex_str@),
        },
{
    let n = hex_str.unicode_len();
    if n % 2 == 1 {
        return Err(DecodeError::OddLength);
    }
    let mut bytes: Vec<u8> = Vec::new();
    let mut i: usize = 0;
    while i < n
        invariant
            i <= n,
            i % 2 == 0,
            n % 2 == 0,
            n == hex_str@.len(),
            bytes@.len() == i / 2,
            forall|t: int| 0 <= t < i ==> is_hex_digit(hex_str@[t]),
            forall|t: int|
                0 <= t < i / 2 ==> bytes@[t] == (hex_digit_val(hex_str@[2 * t]) * 16
                    + hex_digit_val(hex_str@[2 * t + 1])) as u8,
        decreases n - i,
    {
        let hi = match hex_digit_value(hex_str.get_char(i)) {
            Some(v) => v,
            None => {
                return Err(DecodeError::InvalidDigit);
            },
        };
        let lo = match hex_digit_value(hex_str.get_char(i + 1)) {
            Some(v) => v,
            None => {
                return Err(DecodeError::InvalidDigit);
            },
        };
        bytes.push(hi * 16 + lo);
        i = i + 2;
    }
    proof {
        assert(bytes@ =~= hex_decoding(hex_str@));
    }
    Ok(bytes)
}

/// Encodes bytes as a lowercase hex string, two characters per byte.
pub fn encode_hex(bytes: &[u8]) -> (r: String)
    ensures
        r@ == hex_encoding(bytes@),
{
    let mut out = String::new();
    let mut i: usize = 0;
    while i < bytes.len()
        invariant
            i <= bytes@.len(),
            out@ =~= hex_encoding(bytes@.take(i as int)),
        decreases bytes@.len() - i,
    {
        let b = bytes[i];
        out.append(hex_digit_str(b / 16));
        out.append(hex_digit_str(b % 16));
        proof {
            assert(out@ =~= hex_encoding(bytes@.take(i + 1)));
        }
        i = i + 1;
    }
    proof {
        assert(bytes@.take(bytes@.len() as int) =~= bytes@);
    }
    out
}

/// Decoding undoes encoding: the encoding of any byte sequence is a
/// well-formed hex string, and decoding it gives the bytes back.
pub proof fn lemma_hex_round_trip(bytes: Seq<u8>)
    ensures
        hex_encoding(bytes).len() == 2 * bytes.len(),
        is_hex_string(hex_encoding(bytes)),
        hex_decoding(hex_encoding(bytes)) == bytes,
{
    let enc = hex_encoding(bytes);
    assert forall|i: int| 0 <= i < enc.len() implies is_hex_digit(enc[i]) by {
        lemma_nibble_digit(bytes[i / 2]);
    }
    assert forall|i: int| 0 <= i < bytes.len() implies hex_decoding(enc)[i] == bytes[i] by {
        lemma_nibble_digit(bytes[i]);
        assert(enc[2 * i] == hex_digit_char((bytes[i] / 16) as u8));
        assert(enc[2 * i + 1] == hex_digit_char((bytes[i] % 16) as u8));
    }
    assert(hex_decoding(enc) =~= bytes);
}

/// Both nibbles of a byte encode to digits that decode back to them.
proof fn lemma_nibble_digit(b: u8)
    ensures
        is_hex_digit(hex_digit_char((b / 16) as u8)),
        is_hex_digit(hex_digit_char((b % 16) as u8)),
        hex_digit_val(hex_digit_char((b / 16) as u8)) == b / 16,
        hex_digit_val(hex_digit_char((b % 16) as u8)) == b % 16,
        b / 16 * 16 + b % 16 == b,
{
}

/// The value of one character as a base-16 digit, or `None` outside
/// base 16.
fn hex_digit_value(c: char) -> (r: Option<u8>)
    ensures
        r is Some <==> is_hex_digit(c),
        r is Some ==> r->0 == hex_digit_val(c),
{
    let u = c as u32;
    if 48 <= u && u <= 57 {
        Some((u - 48) as u8)
    } else if 97 <= u && u <= 102 {
        Some((u - 87) as u8)
    } else if 65 <= u && u <= 70 {
        Some((u - 55) as u8)
    } else {
        None
    }
}

/// The one-character string of a lowercase hex digit.
fn hex_digit_str(v: u8) -> (r: &'static str)
    requires
        v < 16,
    ensures
        r@.len() == 1,
        r@[0] == hex_digit_char(v),
{
    proof {
        reveal_strlit("0");
        reveal_strlit("1");
        reveal_strlit("2");
        reveal_strlit("3");
        reveal_strlit("4");
        reveal_strlit("5");
        reveal_strlit("6");
        reveal_strlit("7");
        reveal_strlit("8");
        reveal_strlit("9");
        reveal_strlit("a");
        reveal_strlit("b");
        reveal_strlit("c");
        reveal_strlit("d");
        reveal_strlit("e");
        reveal_strlit("f");
    }
    if v == 0 {
        "0"
    } else if v == 1 {
        "1"
    } else if v == 2 {
        "2"
    } else if v == 3 {
        "3"
    } else if v == 4 {
        "4"
    } else if v == 5 {
        "5"
    } else if v == 6 {
        "6"
    } else if v == 7 {
        "7"
    } else if v == 8 {
        "8"
    } else if v == 9 {
        "9"
    } else if v == 10 {
        "a"
    } else if v == 11 {
        "b"
    } else if v == 12 {
        "c"
    } else if v == 13 {
        "d"
    } else if v == 14 {
        "e"
    } else {
        "f"
    }
}

} // verus!
