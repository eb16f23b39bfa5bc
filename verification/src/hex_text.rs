//! Hexadecimal text, as the `hex` crate reads and writes it.

use crate::text::ascii_bytes;
use vstd::prelude::*;
use vstd::utf8::is_ascii_chars;

verus! {

/// The error that `hex` reports when it cannot decode a text.
#[verifier::external_type_specification]
#[verifier::external_body]
pub struct ExFromHexError(hex::FromHexError);

/// The value of a hexadecimal digit given as an ASCII byte, in either case.
pub open spec fn hex_digit_value(c: u8) -> Option<u8> {
    if '0' as u8 <= c && c <= '9' as u8 {
        Some((c - '0' as u8) as u8)
    } else if 'a' as u8 <= c && c <= 'f' as u8 {
        Some((c - 'a' as u8 + 10) as u8)
    } else if 'A' as u8 <= c && c <= 'F' as u8 {
        Some((c - 'A' as u8 + 10) as u8)
    } else {
        None
    }
}

/// True for a text of an even number of hexadecimal digits.
pub open spec fn is_hex_text(text: Seq<u8>) -> bool {
    &&& text.len() % 2 == 0
    &&& forall|i: int| 0 <= i < text.len() ==> hex_digit_value(#[trigger] text[i]) is Some
}

/// The bytes that a hexadecimal text denotes: one for each pair of digits, the
/// first digit of a pair being the high half.
pub open spec fn hex_decoded(text: Seq<u8>) -> Seq<u8> {
    Seq::new(
        text.len() / 2,
        |i: int|
            (16 * hex_digit_value(text[2 * i]).unwrap() + hex_digit_value(
                text[2 * i + 1],
            ).unwrap()) as u8,
    )
}

/// The sixteen lower-case hexadecimal digits, in the order of their values.
pub open spec fn hex_digits() -> Seq<char> {
    seq!['0', '1', '2', '3', '4', '5', '6', '7', '8', '9', 'a', 'b', 'c', 'd', 'e', 'f']
}

/// The lower-case hexadecimal digit for a value below sixteen.
pub open spec fn hex_digit(value: u8) -> char
    recommends
        value < 16,
{
    hex_digits()[value as int]
}

/// The lower-case hexadecimal text of a byte string: two digits for each byte,
/// the high half first.
pub open spec fn hex_encoded(bytes: Seq<u8>) -> Seq<char> {
    Seq::new(
        2 * bytes.len(),
        |i: int|
            if i % 2 == 0 {
                hex_digit(bytes[i / 2] / 16)
            } else {
                hex_digit(bytes[i / 2] % 16)
            },
    )
}

/// The hexadecimal text of a byte string has two characters for each byte, all
/// of them digits or letters from `a` to `f`, and it denotes the byte string
/// that it was made from.
pub proof fn lemma_hex_round_trip(bytes: Seq<u8>)
    ensures
        hex_encoded(bytes).len() == 2 * bytes.len(),
        forall|i: int|
            0 <= i < 2 * bytes.len() ==> {
                let c = #[trigger] hex_encoded(bytes)[i];
                ('0' <= c && c <= '9') || ('a' <= c && c <= 'f')
            },
        is_ascii_chars(hex_encoded(bytes)),
        is_hex_text(ascii_bytes(hex_encoded(bytes))),
        hex_decoded(ascii_bytes(hex_encoded(bytes))) == bytes,
{
    let text = hex_encoded(bytes);
    let raw = ascii_bytes(text);
    assert forall|n: u8| n < 16 implies {
        let c = #[trigger] hex_digit(n);
        &&& (('0' <= c && c <= '9') || ('a' <= c && c <= 'f'))
        &&& hex_digit_value(c as u8) == Some(n)
    } by {}
    assert forall|i: int| 0 <= i < 2 * bytes.len() implies {
        let c = #[trigger] text[i];
        ('0' <= c && c <= '9') || ('a' <= c && c <= 'f')
    } by {
        let b = bytes[i / 2];
        assert(b / 16 < 16 && b % 16 < 16);
        assert(text[i] == hex_digit((b / 16) as u8) || text[i] == hex_digit((b % 16) as u8));
    }
    assert forall|i: int| 0 <= i < raw.len() implies hex_digit_value(#[trigger] raw[i]) is Some by {
        let b = bytes[i / 2];
        assert(b / 16 < 16 && b % 16 < 16);
        assert(text[i] == hex_digit((b / 16) as u8) || text[i] == hex_digit((b % 16) as u8));
    }
    assert forall|k: int| 0 <= k < bytes.len() implies #[trigger] hex_decoded(raw)[k] == bytes[k] by {
        let b = bytes[k];
        assert(b / 16 < 16 && b % 16 < 16);
        assert((2 * k) / 2 == k && (2 * k + 1) / 2 == k);
        assert((2 * k) % 2 == 0 && (2 * k + 1) % 2 == 1);
        assert(text[2 * k] == hex_digit((b / 16) as u8));
        assert(text[2 * k + 1] == hex_digit((b % 16) as u8));
        assert(hex_digit_value(raw[2 * k]) == Some((b / 16) as u8));
        assert(hex_digit_value(raw[2 * k + 1]) == Some((b % 16) as u8));
    }
    assert(hex_decoded(raw) =~= bytes);
}

/// Calls `hex::decode`. Trusted: the call succeeds exactly on an even number of
/// hexadecimal digits of either case, and then returns one byte for each pair
/// of digits, sixteen times the first digit plus the second.
#[verifier::external_body]
pub(crate) fn hex_decode(text: &[u8]) -> (r: Result<Vec<u8>, hex::FromHexError>)
    ensures
        r is Ok <==> is_hex_text(text@),
        r matches Ok(bytes) ==> bytes@ == hex_decoded(text@),
{
    hex::decode(text)
}

/// Calls `hex::encode`. Trusted: the text returned holds two lower-case
/// hexadecimal digits for each byte, in order, the high half first.
#[verifier::external_body]
pub(crate) fn hex_encode(bytes: &[u8]) -> (r: String)
    ensures
        r@ == hex_encoded(bytes@),
{
    hex::encode(bytes)
}

} // verus!
