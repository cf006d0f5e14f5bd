//! Lowercase hexadecimal text of byte strings, and its parser.

use vstd::prelude::*;

verus! {

/// The ASCII digit for a value below sixteen, lowercase.
pub open spec fn hex_digit(v: u8) -> u8 {
    if v < 10 {
        (48 + v) as u8
    } else {
        (87 + v) as u8
    }
}

/// The hex text of `b`: two lowercase digits per byte, high nibble first.
pub open spec fn hex_of(b: Seq<u8>) -> Seq<u8>
    decreases b.len(),
{
    if b.len() == 0 {
        Seq::empty()
    } else {
        hex_of(b.drop_last()) + seq![hex_digit(b.last() / 16), hex_digit(b.last() % 16)]
    }
}

/// The value of one hex digit of either case.
pub open spec fn digit_value(c: u8) -> Option<u8> {
    if 48 <= c && c <= 57 {
        Some((c - 48) as u8)
    } else if 97 <= c && c <= 102 {
        Some((c - 87) as u8)
    } else if 65 <= c && c <= 70 {
        Some((c - 55) as u8)
    } else {
        None
    }
}

/// The bytes that hex text `s` stands for: `None` unless `s` has an even
/// length and holds hex digits only.
pub open spec fn hex_parse(s: Seq<u8>) -> Option<Seq<u8>>
    decreases s.len(),
{
    if s.len() == 0 {
        Some(Seq::empty())
    } else if s.len() == 1 {
        None
    } else {
        match (
            hex_parse(s.subrange(0, s.len() - 2)),
            digit_value(s[s.len() - 2]),
            digit_value(s[s.len() - 1]),
        ) {
            (Some(p), Some(hi), Some(lo)) => Some(p.push((hi * 16 + lo) as u8)),
            _ => None,
        }
    }
}

#[verifier::external_type_specification]
#[verifier::external_body]
pub struct ExFromHexError(hex::FromHexError);

/// Relies on `hex::encode`: two lowercase hex digits per byte, high nibble
/// first, all ASCII.
#[verifier::external_body]
pub(crate) fn hex_encode(b: &[u8]) -> (r: Vec<u8>)
    ensures
        r@ == hex_of(b@),
{
    hex::encode(b).into_bytes()
}

/// Relies on `hex::decode`: the bytes for pairs of hex digits of either case,
/// an error for an odd length or any other character.
#[verifier::external_body]
pub(crate) fn hex_decode(s: &[u8]) -> (r: Result<Vec<u8>, hex::FromHexError>)
    ensures
        match r {
            Ok(v) => hex_parse(s@) == Some(v@),
            Err(_) => hex_parse(s@) is None,
        },
{
    hex::decode(s)
}

/// Parsing the hex text of a byte string gives that byte string back.
pub proof fn lemma_hex_round_trip(b: Seq<u8>)
    ensures
        hex_parse(hex_of(b)) == Some(b),
        hex_of(b).len() == 2 * b.len(),
    decreases b.len(),
{
    if b.len() > 0 {
        let p = b.drop_last();
        let x = b.last();
        lemma_hex_round_trip(p);
        let s = hex_of(b);
        assert(s.subrange(0, s.len() - 2) =~= hex_of(p));
        let hi = x / 16;
        let lo = x % 16;
        assert(digit_value(hex_digit(hi)) == Some(hi));
        assert(digit_value(hex_digit(lo)) == Some(lo));
        assert((hi * 16 + lo) as u8 == x);
        assert(p.push(x) =~= b);
    }
}

} // verus!
