//! Pool addresses: twenty bytes, written as forty hexadecimal digits with an
//! optional `0x` in front.

use crate::hex_text::{hex_decode, hex_decoded, hex_digit_value, is_hex_text};
use crate::text::ascii_bytes;
use vstd::prelude::*;
use vstd::slice::slice_subrange;
use vstd::string::*;
use vstd::utf8::is_ascii_chars;

verus! {

/// The number of bytes in a pool address.
pub const POOL_ADDRESS_LEN: usize = 20;

/// The text without its `0x` prefix, or the text itself when it has none.
pub open spec fn strip_0x(s: Seq<char>) -> Seq<char> {
    if s.len() >= 2 && s[0] == '0' && s[1] == 'x' {
        s.skip(2)
    } else {
        s
    }
}

/// True for the hexadecimal digits, in either case.
pub open spec fn is_hex_digit(c: char) -> bool {
    ('0' <= c && c <= '9') || ('a' <= c && c <= 'f') || ('A' <= c && c <= 'F')
}

/// True when every character of `s` is a hexadecimal digit.
pub open spec fn all_hex_digits(s: Seq<char>) -> bool {
    forall|i: int| 0 <= i < s.len() ==> is_hex_digit(#[trigger] s[i])
}

/// The address that a text denotes: after the optional `0x`, exactly forty
/// hexadecimal digits of either case, read as twenty bytes. Any other text
/// denotes no address.
pub open spec fn pool_address_bytes(s: Seq<char>) -> Option<Seq<u8>> {
    let digits = strip_0x(s);
    if digits.len() == 2 * POOL_ADDRESS_LEN && all_hex_digits(digits) {
        Some(hex_decoded(ascii_bytes(digits)))
    } else {
        None
    }
}

/// An address, where the text denotes one, has twenty bytes.
pub proof fn lemma_pool_address_len(s: Seq<char>)
    ensures
        pool_address_bytes(s) matches Some(bytes) ==> bytes.len() == POOL_ADDRESS_LEN,
{
}

/// A text with a character that is no hexadecimal digit, other than in its
/// `0x` prefix, denotes no address.
pub proof fn lemma_malformed_hex_is_no_address(s: Seq<char>, i: int)
    requires
        0 <= i < strip_0x(s).len(),
        !is_hex_digit(strip_0x(s)[i]),
    ensures
        pool_address_bytes(s).is_none(),
{
}

/// A text is made of hexadecimal digits exactly when it is ASCII and each of
/// its bytes has a value as a hexadecimal digit.
proof fn lemma_hex_digits_as_bytes(digits: Seq<char>)
    ensures
        all_hex_digits(digits) <==> {
            &&& is_ascii_chars(digits)
            &&& forall|i: int|
                0 <= i < digits.len() ==> hex_digit_value(#[trigger] ascii_bytes(digits)[i]) is Some
        },
{
    let bytes = ascii_bytes(digits);
    if all_hex_digits(digits) {
        assert forall|i: int| 0 <= i < digits.len() implies '\0' <= #[trigger] digits[i]
            <= '\u{7f}' by {
            assert(is_hex_digit(digits[i]));
        }
        assert forall|i: int| 0 <= i < digits.len() implies hex_digit_value(
            #[trigger] bytes[i],
        ) is Some by {
            assert(is_hex_digit(digits[i]));
        }
    }
    if is_ascii_chars(digits) && (forall|i: int|
        0 <= i < digits.len() ==> hex_digit_value(#[trigger] bytes[i]) is Some) {
        assert forall|i: int| 0 <= i < digits.len() implies is_hex_digit(#[trigger] digits[i]) by {
            assert('\0' <= digits[i] <= '\u{7f}');
            assert(hex_digit_value(bytes[i]) is Some);
        }
    }
}

/// Reads a pool address from its text.
pub fn parse_pool_address(text: &str) -> (r: Option<Vec<u8>>)
    ensures
        match pool_address_bytes(text@) {
            Some(bytes) => r matches Some(v) && v@ == bytes,
            None => r is None,
        },
{
    if !text.is_ascii() {
        proof {
            let i = choose|i: int| 0 <= i < text@.len() && !('\0' <= #[trigger] text@[i] <= '\u{7f}');
            let digits = strip_0x(text@);
            if digits.len() != text@.len() {
                assert(i >= 2);
                assert(digits[i - 2] == text@[i]);
                assert(!is_hex_digit(digits[i - 2]));
            } else {
                assert(!is_hex_digit(digits[i]));
            }
        }
        return None;
    }
    let bytes = text.as_bytes();
    proof {
        is_ascii_spec_bytes(text);
    }
    let n = bytes.len();
    let digits = if n >= 2 && bytes[0] == '0' as u8 && bytes[1] == 'x' as u8 {
        slice_subrange(bytes, 2, n)
    } else {
        bytes
    };
    assert(digits@ =~= ascii_bytes(strip_0x(text@)));
    proof {
        lemma_hex_digits_as_bytes(strip_0x(text@));
    }
    match hex_decode(digits) {
        Ok(v) => {
            if v.len() == POOL_ADDRESS_LEN {
                Some(v)
            } else {
                None
            }
        },
        Err(_) => None,
    }
}

} // verus!
