//! One hop of an arbitrage route, as it is handed to the encoder.

use crate::pool_address::{parse_pool_address, pool_address_bytes};
use crate::text::{is_text_equal, is_text_less, text_less};
use vstd::prelude::*;
use vstd::string::*;

verus! {

/// The flag of a hop whose pool is a concentrated-liquidity pool.
pub const V3_FLAG: u8 = 0x80;

/// The flag of a hop whose input token comes before its output token.
pub const DIRECTION_FLAG: u8 = 0x40;

/// The number of bytes in the record of a hop: the header byte, then the address.
pub const RECORD_LEN: usize = 21;

/// One swap of a route, with every field as text.
#[derive(Debug)]
pub struct ArbitrageRequest {
    pub pool_type: String,
    pub pool_address: String,
    pub amount_in: String,
    pub amount_out: String,
    pub token_in: String,
    pub token_out: String,
}

/// The header byte for the pool kind and the direction of a hop: the high bit for a
/// concentrated-liquidity pool, the next bit for the direction, nothing else.
pub open spec fn header_bits(v3: bool, direction: bool) -> u8 {
    if v3 && direction {
        0xC0
    } else if v3 {
        0x80
    } else if direction {
        0x40
    } else {
        0x00
    }
}

impl ArbitrageRequest {
    /// True when the pool is a concentrated-liquidity pool: its kind is exactly
    /// `uniswap_v3`. Every other kind counts as the same fallback.
    pub open spec fn is_v3(&self) -> bool {
        self.pool_type@ == "uniswap_v3"@
    }

    /// True when the input token comes before the output token. The two are
    /// compared as texts, byte by byte, not as numbers: `0xA` comes before
    /// `0xa`.
    pub open spec fn direction(&self) -> bool {
        text_less(self.token_in@, self.token_out@)
    }

    /// The header byte of this hop's record.
    pub open spec fn header(&self) -> u8 {
        header_bits(self.is_v3(), self.direction())
    }

    /// The pool address, where the text denotes one.
    pub open spec fn pool(&self) -> Option<Seq<u8>> {
        pool_address_bytes(self.pool_address@)
    }

    /// The record of this hop: the header byte, then the twenty bytes of the
    /// pool address. Meaningful where the address is one.
    pub open spec fn record(&self) -> Seq<u8> {
        seq![self.header()] + self.pool().unwrap()
    }

    /// Computes the header byte of this hop's record.
    pub fn header_byte(&self) -> (b: u8)
        ensures
            b == self.header(),
    {
        let v3 = is_text_equal(self.pool_type.as_str(), "uniswap_v3");
        let direction = is_text_less(self.token_in.as_str(), self.token_out.as_str());
        let high: u8 = if v3 {
            V3_FLAG
        } else {
            0
        };
        let low: u8 = if direction {
            DIRECTION_FLAG
        } else {
            0
        };
        assert(high | low == header_bits(v3, direction)) by (bit_vector)
            requires
                high == (if v3 { 0x80u8 } else { 0u8 }),
                low == (if direction { 0x40u8 } else { 0u8 }),
        ;
        high | low
    }

    /// Appends this hop's record to `out`, unless the pool address is none:
    /// then `out` stays as it was.
    pub fn push_record(&self, out: &mut Vec<u8>) -> (done: bool)
        ensures
            done == self.pool().is_some(),
            done ==> final(out)@ == old(out)@ + self.record(),
            !done ==> final(out)@ == old(out)@,
    {
        match parse_pool_address(self.pool_address.as_str()) {
            Some(pool) => {
                out.push(self.header_byte());
                out.extend_from_slice(pool.as_slice());
                assert(out@ =~= old(out)@ + self.record());
                true
            },
            None => false,
        }
    }
}

/// The header byte has its high bit set exactly for a concentrated-liquidity
/// pool, the next bit exactly when the input token comes first, and its six low
/// bits clear.
pub proof fn lemma_header_bits(v3: bool, direction: bool)
    ensures
        (header_bits(v3, direction) & 0x80 != 0) <==> v3,
        (header_bits(v3, direction) & 0x40 != 0) <==> direction,
        header_bits(v3, direction) & 0x3F == 0,
{
    assert(0xC0u8 & 0x80 != 0 && 0xC0u8 & 0x40 != 0 && 0xC0u8 & 0x3F == 0) by (bit_vector);
    assert(0x80u8 & 0x80 != 0 && 0x80u8 & 0x40 == 0 && 0x80u8 & 0x3F == 0) by (bit_vector);
    assert(0x40u8 & 0x80 == 0 && 0x40u8 & 0x40 != 0 && 0x40u8 & 0x3F == 0) by (bit_vector);
    assert(0x00u8 & 0x80 == 0 && 0x00u8 & 0x40 == 0 && 0x00u8 & 0x3F == 0) by (bit_vector);
}

/// The header byte of a hop follows the pool kind and the order of the tokens:
/// the high bit is set exactly when the pool kind is `uniswap_v3`, the next bit
/// exactly when `token_in` comes before `token_out`, and the six low bits are
/// clear.
pub proof fn lemma_header_of_request(request: ArbitrageRequest)
    ensures
        (request.header() & 0x80 != 0) <==> request.pool_type@ == "uniswap_v3"@,
        (request.header() & 0x40 != 0) <==> text_less(request.token_in@, request.token_out@),
        request.header() & 0x3F == 0,
{
    lemma_header_bits(request.is_v3(), request.direction());
}

/// The record of a hop with an address has twenty-one bytes: the header byte
/// first, then the address unchanged.
pub proof fn lemma_record_layout(request: ArbitrageRequest)
    requires
        request.pool().is_some(),
    ensures
        request.record().len() == RECORD_LEN,
        request.record()[0] == request.header(),
        request.record().subrange(1, RECORD_LEN as int) == request.pool().unwrap(),
{
    assert(request.record().subrange(1, RECORD_LEN as int) =~= request.pool().unwrap());
}

} // verus!
