//! Hex text codec for key material and key bytes.
//!
//! Encoding and decoding run through the `hex` crate; the spec functions
//! here pin down exactly what those calls return, and the key-material
//! decoder adds the tool's own rules: an optional leading `0x` is stripped
//! and the material must come out to exactly 32 bytes.

use vstd::prelude::*;
use crate::keypair::BLS_SECRET_KEY_LEN;

verus! {

/// A character standing for one hexadecimal digit, in either letter case.
pub open spec fn is_hex_char(c: char) -> bool {
    (48 <= c as u32 && c as u32 <= 57) || (97 <= c as u32 && c as u32 <= 102) || (65 <= c as u32
        && c as u32 <= 70)
}

/// A character standing for one hexadecimal digit as the encoder emits it:
/// a decimal digit or a lower-case letter `a`..`f`.
pub open spec fn is_lower_hex_char(c: char) -> bool {
    (48 <= c as u32 && c as u32 <= 57) || (97 <= c as u32 && c as u32 <= 102)
}

/// The numeric value of a hexadecimal digit character.
pub open spec fn hex_digit_val(c: char) -> u8 {
    if 48 <= c as u32 && c as u32 <= 57 {
        (c as u32 - 48) as u8
    } else if 97 <= c as u32 && c as u32 <= 102 {
        (c as u32 - 87) as u8
    } else {
        (c as u32 - 55) as u8
    }
}

/// The lower-case hexadecimal digit character for a value below 16.
pub open spec fn lower_hex_char(v: u8) -> char {
    if v < 10 {
        ((48 + v) as u8) as char
    } else {
        ((87 + v) as u8) as char
    }
}

/// Every character of `s` is a hexadecimal digit.
pub open spec fn all_hex(s: Seq<char>) -> bool {
    forall|i: int| 0 <= i < s.len() ==> is_hex_char(#[trigger] s[i])
}

/// Every character of `s` is a lower-case hexadecimal digit.
pub open spec fn all_lower_hex(s: Seq<char>) -> bool {
    forall|i: int| 0 <= i < s.len() ==> is_lower_hex_char(#[trigger] s[i])
}

/// The lower-case hex encoding of a byte sequence: two digits per byte,
/// high nibble first.
pub open spec fn hex_chars_of(bytes: Seq<u8>) -> Seq<char> {
    Seq::new(
        bytes.len() * 2,
        |i: int|
            if i % 2 == 0 {
                lower_hex_char(bytes[i / 2] / 16)
            } else {
                lower_hex_char(bytes[i / 2] % 16)
            },
    )
}

/// The bytes an even-length sequence of hex digit characters stands for.
pub open spec fn spec_hex_decode(s: Seq<char>) -> Seq<u8> {
    Seq::new(
        s.len() / 2,
        |i: int| ((hex_digit_val(s[2 * i]) as int) * 16 + hex_digit_val(s[2 * i + 1]) as int) as u8,
    )
}

/// `s` with every leading `0x` removed.
pub open spec fn spec_strip_0x(s: Seq<char>) -> Seq<char>
    decreases s.len(),
{
    if s.len() >= 2 && s[0] == '0' && s[1] == 'x' {
        spec_strip_0x(s.subrange(2, s.len() as int))
    } else {
        s
    }
}

/// Why a textual key material value was rejected.
#[derive(Clone, Copy, Debug, PartialEq, Eq, Structural)]
pub enum DecodeError {
    /// The text is not a well-formed hex string.
    MalformedHex,
    /// The text is well-formed hex but does not decode to exactly 32 bytes.
    WrongLength,
}

#[verifier::external_type_specification]
#[verifier::external_body]
pub struct ExFromHexError(hex::FromHexError);

/// Relies on `hex::encode`: every byte becomes exactly two lower-case hex
/// digits, high nibble first.
#[verifier::external_body]
pub(crate) fn hex_encode(data: &[u8]) -> (r: String)
    ensures
        r@ == hex_chars_of(data@),
{
    hex::encode(data)
}

/// Relies on `hex::decode`: it succeeds exactly on an even number of hex
/// digit characters and returns one byte per digit pair, high nibble first.
#[verifier::external_body]
pub(crate) fn hex_decode(s: &str) -> (r: Result<Vec<u8>, hex::FromHexError>)
    ensures
        r is Ok <==> (s@.len() % 2 == 0 && all_hex(s@)),
        r matches Ok(v) ==> v@ == spec_hex_decode(s@),
{
    hex::decode(s)
}

/// Turns the textual key material into its 32 raw bytes: strips any leading
/// `0x`, then demands exactly 64 hex digit characters.
pub fn decode_key_material(s: &str) -> (r: Result<Vec<u8>, DecodeError>)
    ensures
        ({
            let t = spec_strip_0x(s@);
            &&& (r == Err::<Vec<u8>, DecodeError>(DecodeError::WrongLength) <==> t.len() != 2
                * BLS_SECRET_KEY_LEN)
            &&& (r == Err::<Vec<u8>, DecodeError>(DecodeError::MalformedHex) <==> (t.len() == 2
                * BLS_SECRET_KEY_LEN && !all_hex(t)))
            &&& (r is Ok <==> (t.len() == 2 * BLS_SECRET_KEY_LEN && all_hex(t)))
            &&& (r matches Ok(v) ==> v@ == spec_hex_decode(t) && v@.len()
                == BLS_SECRET_KEY_LEN)
        }),
{
    let n = s.unicode_len();
    let mut k: usize = 0;
    proof {
        assert(s@.subrange(0, n as int) =~= s@);
    }
    while n - k >= 2 && s.get_char(k) == '0' && s.get_char(k + 1) == 'x'
        invariant
            n == s@.len(),
            k <= n,
            spec_strip_0x(s@) == spec_strip_0x(s@.subrange(k as int, n as int)),
        decreases n - k,
    {
        proof {
            let t = s@.subrange(k as int, n as int);
            assert(t[0] == '0' && t[1] == 'x');
            assert(t.subrange(2, t.len() as int) =~= s@.subrange(k as int + 2, n as int));
        }
        k = k + 2;
    }
    proof {
        let t = s@.subrange(k as int, n as int);
        if t.len() >= 2 {
            assert(t[0] == s@[k as int] && t[1] == s@[k as int + 1]);
        }
        assert(spec_strip_0x(t) == t);
    }
    let stripped = s.substring_char(k, n);
    if stripped.unicode_len() != 2 * BLS_SECRET_KEY_LEN {
        return Err(DecodeError::WrongLength);
    }
    match hex_decode(stripped) {
        Ok(v) => Ok(v),
        Err(_) => Err(DecodeError::MalformedHex),
    }
}

/// A leading `0x` changes nothing: material given with the prefix is
/// stripped to the same text, and so decodes to the same bytes, as the
/// material without it.
pub proof fn lemma_prefix_insensitive(s: Seq<char>)
    ensures
        spec_strip_0x("0x"@ + s) == spec_strip_0x(s),
{
    reveal_strlit("0x");
    let p = "0x"@ + s;
    assert(p[0] == '0' && p[1] == 'x');
    assert(p.subrange(2, p.len() as int) =~= s);
}

/// Encoding then decoding is the identity: the encoder's output is valid
/// lower-case hex of twice the byte length, and it decodes back to the very
/// bytes that went in.
pub proof fn lemma_decode_of_encode(b: Seq<u8>)
    ensures
        hex_chars_of(b).len() == 2 * b.len(),
        all_lower_hex(hex_chars_of(b)),
        all_hex(hex_chars_of(b)),
        spec_hex_decode(hex_chars_of(b)) == b,
{
    let h = hex_chars_of(b);
    assert forall|i: int| 0 <= i < h.len() implies is_lower_hex_char(#[trigger] h[i]) by {
        lemma_digit_round_trip(if i % 2 == 0 {
            b[i / 2] / 16
        } else {
            b[i / 2] % 16
        });
    }
    assert forall|i: int| 0 <= i < h.len() implies is_hex_char(#[trigger] h[i]) by {}
    assert forall|i: int| 0 <= i < b.len() implies spec_hex_decode(h)[i] == b[i] by {
        lemma_digit_round_trip(b[i] / 16);
        lemma_digit_round_trip(b[i] % 16);
        assert(h[2 * i] == lower_hex_char(b[i] / 16));
        assert(h[2 * i + 1] == lower_hex_char(b[i] % 16));
        assert((b[i] / 16) as int * 16 + (b[i] % 16) as int == b[i] as int);
    }
    assert(spec_hex_decode(h) =~= b);
}

/// Decoding then encoding is the identity on lower-case hex text of even
/// length.
pub proof fn lemma_encode_of_decode(s: Seq<char>)
    requires
        s.len() % 2 == 0,
        all_lower_hex(s),
    ensures
        hex_chars_of(spec_hex_decode(s)) == s,
{
    let d = spec_hex_decode(s);
    assert forall|i: int| 0 <= i < s.len() implies hex_chars_of(d)[i] == s[i] by {
        let j = i / 2;
        let a = hex_digit_val(s[2 * j]);
        let bb = hex_digit_val(s[2 * j + 1]);
        lemma_char_round_trip(s[2 * j]);
        lemma_char_round_trip(s[2 * j + 1]);
        assert(a < 16 && bb < 16);
        assert(d[j] == ((a as int) * 16 + bb as int) as u8);
        assert(d[j] as int == (a as int) * 16 + bb as int);
        assert(d[j] / 16 == a && d[j] % 16 == bb) by (nonlinear_arith)
            requires
                d[j] as int == (a as int) * 16 + bb as int,
                a < 16,
                bb < 16,
        ;
        if i % 2 == 0 {
            assert(2 * j == i);
        } else {
            assert(2 * j + 1 == i);
        }
    }
    assert(hex_chars_of(d) =~= s);
}

/// A hex digit's value survives the round trip through its lower-case
/// character.
pub proof fn lemma_digit_round_trip(v: u8)
    requires
        v < 16,
    ensures
        is_lower_hex_char(lower_hex_char(v)),
        hex_digit_val(lower_hex_char(v)) == v,
{
}

/// A lower-case hex character survives the round trip through its value.
proof fn lemma_char_round_trip(c: char)
    requires
        is_lower_hex_char(c),
    ensures
        hex_digit_val(c) < 16,
        lower_hex_char(hex_digit_val(c)) == c,
{
}

} // verus!
