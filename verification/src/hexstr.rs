//! Lowercase hexadecimal encoding and decoding of byte strings, used to
//! expose 32-byte series signatures as 64-character storage keys.

use vstd::prelude::*;
use vstd::string::StringSliceAdditionalSpecFns;
use vstd::utf8::encode_utf8;

verus! {

/// A byte is an ASCII hexadecimal digit: `0`-`9`, `a`-`f` or `A`-`F`.
pub open spec fn is_hex_digit(b: u8) -> bool {
    (48 <= b && b <= 57) || (97 <= b && b <= 102) || (65 <= b && b <= 70)
}

/// Numeric value of an ASCII hexadecimal digit.
pub open spec fn hex_digit_value(b: u8) -> u8
    recommends
        is_hex_digit(b),
{
    if 48 <= b && b <= 57 {
        (b - 48) as u8
    } else if 97 <= b && b <= 102 {
        (b - 87) as u8
    } else {
        (b - 55) as u8
    }
}

/// Lowercase ASCII hexadecimal digit for a value below 16.
pub open spec fn hex_digit(v: u8) -> u8
    recommends
        v < 16,
{
    if v < 10 {
        (v + 48) as u8
    } else {
        (v + 87) as u8
    }
}

/// The lowercase hexadecimal encoding of `bytes`: two digits per byte, high
/// digit first, bytes in order.
pub open spec fn hex_bytes(bytes: Seq<u8>) -> Seq<u8>
    decreases bytes.len(),
{
    if bytes.len() == 0 {
        Seq::empty()
    } else {
        hex_bytes(bytes.drop_last()) + seq![
            hex_digit(bytes.last() / 16),
            hex_digit(bytes.last() % 16),
        ]
    }
}

/// A byte string that hexadecimal decoding accepts: even length, made of
/// hexadecimal digits of either case only.
pub open spec fn is_valid_hex(s: Seq<u8>) -> bool {
    s.len() % 2 == 0 && forall|i: int| 0 <= i < s.len() ==> is_hex_digit(#[trigger] s[i])
}

/// The byte string denoted by a hexadecimal byte string, two digits per byte.
pub open spec fn hex_decoded(s: Seq<u8>) -> Seq<u8>
    decreases s.len(),
{
    if s.len() < 2 {
        Seq::empty()
    } else {
        hex_decoded(s.drop_last().drop_last()).push(
            (hex_digit_value(s[s.len() - 2]) * 16 + hex_digit_value(s[s.len() - 1])) as u8,
        )
    }
}

/// Relies on `hex::encode`: returns the lowercase hexadecimal encoding of the
/// input, two digits per byte, in input order.
#[verifier::external_body]
pub(crate) fn hex_encode(bytes: &[u8]) -> (r: String)
    ensures
        r@.len() == 2 * bytes@.len(),
        encode_utf8(r@) == hex_bytes(bytes@),
{
    hex::encode(bytes)
}

/// Declares `hex::FromHexError`, the error type of `hex::decode`, so that
/// the decoding wrapper can return it; it is mapped to `None` right away.
#[verifier::external_type_specification]
#[verifier::external_body]
pub struct ExFromHexError(hex::FromHexError);

/// Relies on `hex::decode`: succeeds exactly on even-length input made of
/// hexadecimal digits of either case, and returns the denoted bytes.
#[verifier::external_body]
fn hex_decode_raw(s: &str) -> (r: Result<Vec<u8>, hex::FromHexError>)
    ensures
        r is Ok <==> is_valid_hex(s.spec_bytes()),
        r matches Ok(d) ==> d@ == hex_decoded(s.spec_bytes()),
{
    hex::decode(s)
}

/// Decode a hexadecimal string into its bytes; `None` exactly when the input
/// is not valid hexadecimal (odd length, or a character that is no digit).
pub fn decode_hex(s: &str) -> (r: Option<Vec<u8>>)
    ensures
        r is Some <==> is_valid_hex(s.spec_bytes()),
        r matches Some(d) ==> d@ == hex_decoded(s.spec_bytes()),
{
    match hex_decode_raw(s) {
        Ok(d) => Some(d),
        Err(_) => None,
    }
}

/// Law: hexadecimal encoding round-trips. The encoding of any byte string is
/// valid hexadecimal, twice as long as the input, and decodes to the input.
pub proof fn lemma_hex_round_trip(bytes: Seq<u8>)
    ensures
        is_valid_hex(hex_bytes(bytes)),
        hex_decoded(hex_bytes(bytes)) == bytes,
        hex_bytes(bytes).len() == 2 * bytes.len(),
    decreases bytes.len(),
{
    if bytes.len() == 0 {
        assert(hex_decoded(hex_bytes(bytes)) =~= bytes);
    } else {
        let dl = bytes.drop_last();
        let b = bytes.last();
        lemma_hex_round_trip(dl);
        vstd::arithmetic::div_mod::lemma_fundamental_div_mod(b as int, 16);
        let h = hex_bytes(bytes);
        assert(h.drop_last().drop_last() =~= hex_bytes(dl));
        assert(hex_decoded(h) =~= dl.push(b));
        assert(bytes =~= dl.push(b));
    }
}

} // verus!
