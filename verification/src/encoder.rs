//! The route encoder: a header of two 128-bit amounts, then one record for
//! each hop, last hop first.

use crate::arbitrage_request::{ArbitrageRequest, RECORD_LEN};
use crate::big_endian::{
    be_bytes, be_value, lemma_be_bytes_len, lemma_be_value_of_be_bytes, lemma_u128_fits_16_bytes,
    push_be_bytes,
};
use crate::decimal::{amount_value, parse_amount};
use crate::hex_text::{hex_encode, hex_encoded};
use vstd::prelude::*;
use vstd::string::*;

verus! {

/// The number of bytes before the first record: the amount that goes in, then
/// the profit, sixteen bytes each.
pub const HEADER_LEN: usize = 32;

/// Why a route has no encoding.
#[derive(Debug, Clone, Copy, PartialEq, Eq, Structural)]
pub enum EncodeError {
    /// The first hop's `amount_in` is no 128-bit decimal number.
    InvalidAmountIn,
    /// The last hop's `amount_out` is no 128-bit decimal number.
    InvalidAmountOut,
    /// More goes into the route than comes out of it.
    UnprofitableRoute,
    /// The `pool_address` of some hop is no twenty-byte hexadecimal address.
    InvalidPoolAddress,
}

impl EncodeError {
    /// The message that describes this error.
    pub open spec fn message_text(self) -> Seq<char> {
        match self {
            EncodeError::InvalidAmountIn => "Invalid amount_in"@,
            EncodeError::InvalidAmountOut => "Invalid amount_out"@,
            EncodeError::UnprofitableRoute => "Arbitrage request does not generate a profit"@,
            EncodeError::InvalidPoolAddress => "Invalid pool address"@,
        }
    }

    /// Returns the message that describes this error.
    pub fn message(self) -> (r: String)
        ensures
            r@ == self.message_text(),
    {
        match self {
            EncodeError::InvalidAmountIn => "Invalid amount_in".to_owned(),
            EncodeError::InvalidAmountOut => "Invalid amount_out".to_owned(),
            EncodeError::UnprofitableRoute => {
                "Arbitrage request does not generate a profit".to_owned()
            },
            EncodeError::InvalidPoolAddress => "Invalid pool address".to_owned(),
        }
    }
}

/// True when every hop of the route has a pool address.
pub open spec fn all_pools_valid(route: Seq<ArbitrageRequest>) -> bool {
    forall|i: int| 0 <= i < route.len() ==> (#[trigger] route[i]).pool().is_some()
}

/// The records of the hops, the last hop's record first.
pub open spec fn records_reversed(route: Seq<ArbitrageRequest>) -> Seq<u8>
    decreases route.len(),
{
    if route.len() == 0 {
        Seq::empty()
    } else {
        route.last().record() + records_reversed(route.drop_last())
    }
}

/// What encoding a route gives. The first hop's `amount_in` is read first, then
/// the last hop's `amount_out`, then the two are compared, then the pool
/// addresses are read; the first of these to fail decides the error. A route
/// that passes is encoded as the amount that goes in and the profit, sixteen
/// big-endian bytes each, followed by the records of the hops, last hop first.
pub open spec fn encoded_route(route: Seq<ArbitrageRequest>) -> Result<Seq<u8>, EncodeError>
    recommends
        route.len() > 0,
{
    match amount_value(route.first().amount_in@) {
        None => Err(EncodeError::InvalidAmountIn),
        Some(amount_in) => match amount_value(route.last().amount_out@) {
            None => Err(EncodeError::InvalidAmountOut),
            Some(amount_out) => if amount_in > amount_out {
                Err(EncodeError::UnprofitableRoute)
            } else if !all_pools_valid(route) {
                Err(EncodeError::InvalidPoolAddress)
            } else {
                Ok(
                    be_bytes(amount_in as nat, 16) + be_bytes((amount_out - amount_in) as nat, 16)
                        + records_reversed(route),
                )
            },
        },
    }
}

/// What `encode_arbitrage_request` returns for a route: the encoding as
/// lower-case hexadecimal text, or the message of the error.
pub open spec fn encoded_text(route: Seq<ArbitrageRequest>) -> Result<Seq<char>, Seq<char>> {
    match encoded_route(route) {
        Ok(bytes) => Ok(hex_encoded(bytes)),
        Err(e) => Err(e.message_text()),
    }
}

/// The view of an encoder's result: the bytes in place of the vector.
pub open spec fn outcome_view(r: Result<Vec<u8>, EncodeError>) -> Result<Seq<u8>, EncodeError> {
    match r {
        Ok(bytes) => Ok(bytes@),
        Err(e) => Err(e),
    }
}

/// The view of a result made of two texts.
pub open spec fn text_outcome_view(r: Result<String, String>) -> Result<Seq<char>, Seq<char>> {
    match r {
        Ok(text) => Ok(text@),
        Err(message) => Err(message@),
    }
}

/// Encodes a route as bytes.
pub fn encode_route(requests: &Vec<ArbitrageRequest>) -> (r: Result<Vec<u8>, EncodeError>)
    requires
        requests.len() > 0,
    ensures
        outcome_view(r) == encoded_route(requests@),
{
    let n = requests.len();
    let amount_in = match parse_amount(requests[0].amount_in.as_str()) {
        Some(amount) => amount,
        None => {
            return Err(EncodeError::InvalidAmountIn);
        },
    };
    let amount_out = match parse_amount(requests[n - 1].amount_out.as_str()) {
        Some(amount) => amount,
        None => {
            return Err(EncodeError::InvalidAmountOut);
        },
    };
    if amount_in > amount_out {
        return Err(EncodeError::UnprofitableRoute);
    }
    let profit = amount_out - amount_in;
    let mut out: Vec<u8> = Vec::new();
    push_be_bytes(&mut out, amount_in, 16);
    push_be_bytes(&mut out, profit, 16);
    let ghost header = out@;
    let mut i: usize = n;
    assert(requests@.take(n as int) =~= requests@);
    while i > 0
        invariant
            i <= n,
            n == requests.len(),
            amount_value(requests@.first().amount_in@) == Some(amount_in),
            amount_value(requests@.last().amount_out@) == Some(amount_out),
            amount_in <= amount_out,
            forall|j: int| i <= j < n ==> (#[trigger] requests@[j]).pool().is_some(),
            header + records_reversed(requests@) == out@ + records_reversed(
                requests@.take(i as int),
            ),
        decreases i,
    {
        i = i - 1;
        let ghost before = out@;
        let ghost prefix = requests@.take(i + 1);
        assert(prefix.last() == requests@[i as int]);
        assert(prefix.drop_last() =~= requests@.take(i as int));
        if !requests[i].push_record(&mut out) {
            return Err(EncodeError::InvalidPoolAddress);
        }
        assert(out@ + records_reversed(requests@.take(i as int)) =~= before + records_reversed(
            prefix,
        ));
    }
    assert(requests@.take(0) =~= Seq::<ArbitrageRequest>::empty());
    assert(out@ =~= header + records_reversed(requests@));
    Ok(out)
}

/// Encodes a route as lower-case hexadecimal text without a prefix, or says in
/// words why the route has no encoding.
pub fn encode_arbitrage_request(requests: Vec<ArbitrageRequest>) -> (r: Result<String, String>)
    requires
        requests.len() > 0,
    ensures
        text_outcome_view(r) == encoded_text(requests@),
{
    match encode_route(&requests) {
        Ok(bytes) => Ok(hex_encode(bytes.as_slice())),
        Err(e) => Err(e.message()),
    }
}

/// The records of a route whose hops all have an address take twenty-one bytes
/// for each hop.
pub proof fn lemma_records_len(route: Seq<ArbitrageRequest>)
    requires
        all_pools_valid(route),
    ensures
        records_reversed(route).len() == RECORD_LEN * route.len(),
    decreases route.len(),
{
    if route.len() > 0 {
        assert(route.last() == route[route.len() - 1]);
        assert(route.last().pool().is_some());
        let rest = route.drop_last();
        assert forall|i: int| 0 <= i < rest.len() implies (#[trigger] rest[i]).pool().is_some() by {
            assert(rest[i] == route[i]);
        }
        lemma_records_len(rest);
    }
}

/// Among the records of a route whose hops all have an address, the record at
/// place `k` is that of the hop `k` places before the end.
pub proof fn lemma_record_at(route: Seq<ArbitrageRequest>, k: int)
    requires
        all_pools_valid(route),
        0 <= k < route.len(),
    ensures
        records_reversed(route).len() == RECORD_LEN * route.len(),
        records_reversed(route).subrange(RECORD_LEN * k, RECORD_LEN * (k + 1)) == route[route.len()
            - 1 - k].record(),
    decreases route.len(),
{
    lemma_records_len(route);
    let rest = route.drop_last();
    assert(route.last() == route[route.len() - 1]);
    assert(route.last().pool().is_some());
    assert forall|i: int| 0 <= i < rest.len() implies (#[trigger] rest[i]).pool().is_some() by {
        assert(rest[i] == route[i]);
    }
    lemma_records_len(rest);
    let first = route.last().record();
    let all = records_reversed(route);
    assert(all == first + records_reversed(rest));
    if k == 0 {
        assert(all.subrange(0, RECORD_LEN as int) =~= first);
    } else {
        lemma_record_at(rest, k - 1);
        assert(rest[rest.len() - 1 - (k - 1)] == route[route.len() - 1 - k]);
        assert(all.subrange(RECORD_LEN * k, RECORD_LEN * (k + 1)) =~= records_reversed(
            rest,
        ).subrange(RECORD_LEN * (k - 1), RECORD_LEN * k));
    }
}

/// A route of at least one hop whose two amounts can be read, with no less
/// coming out than going in, and whose hops all have an address, is encoded,
/// in thirty-two bytes and twenty-one more for each hop; the text has two
/// characters for each byte.
pub proof fn lemma_profitable_route_is_encoded(route: Seq<ArbitrageRequest>)
    requires
        route.len() >= 1,
        amount_value(route.first().amount_in@).is_some(),
        amount_value(route.last().amount_out@).is_some(),
        amount_value(route.last().amount_out@).unwrap() >= amount_value(
            route.first().amount_in@,
        ).unwrap(),
        all_pools_valid(route),
    ensures
        encoded_route(route).is_ok(),
        encoded_route(route).unwrap().len() == HEADER_LEN + RECORD_LEN * route.len(),
        encoded_text(route) matches Ok(text) && text.len() == 2 * (HEADER_LEN + RECORD_LEN
            * route.len()),
{
    let amount_in = amount_value(route.first().amount_in@).unwrap();
    let amount_out = amount_value(route.last().amount_out@).unwrap();
    lemma_be_bytes_len(amount_in as nat, 16);
    lemma_be_bytes_len((amount_out - amount_in) as nat, 16);
    lemma_records_len(route);
}

/// The encoding of a route begins with the amount that goes into the first hop,
/// as a big-endian number of sixteen bytes; the next sixteen bytes are, in the
/// same form, what comes out of the last hop less what went in.
pub proof fn lemma_header_holds_amount_and_profit(route: Seq<ArbitrageRequest>)
    requires
        route.len() >= 1,
        encoded_route(route).is_ok(),
    ensures
        amount_value(route.first().amount_in@).is_some(),
        amount_value(route.last().amount_out@).is_some(),
        ({
            let bytes = encoded_route(route).unwrap();
            let amount_in = amount_value(route.first().amount_in@).unwrap();
            let amount_out = amount_value(route.last().amount_out@).unwrap();
            &&& amount_in <= amount_out
            &&& bytes.len() >= HEADER_LEN
            &&& bytes.subrange(0, 16) == be_bytes(amount_in as nat, 16)
            &&& bytes.subrange(16, 32) == be_bytes((amount_out - amount_in) as nat, 16)
            &&& be_value(bytes.subrange(0, 16)) == amount_in
            &&& be_value(bytes.subrange(16, 32)) == amount_out - amount_in
        }),
{
    let bytes = encoded_route(route).unwrap();
    let amount_in = amount_value(route.first().amount_in@).unwrap();
    let amount_out = amount_value(route.last().amount_out@).unwrap();
    let profit = (amount_out - amount_in) as u128;
    lemma_be_bytes_len(amount_in as nat, 16);
    lemma_be_bytes_len(profit as nat, 16);
    assert(bytes.subrange(0, 16) =~= be_bytes(amount_in as nat, 16));
    assert(bytes.subrange(16, 32) =~= be_bytes(profit as nat, 16));
    lemma_u128_fits_16_bytes(amount_in);
    lemma_u128_fits_16_bytes(profit);
    lemma_be_value_of_be_bytes(amount_in as nat, 16);
    lemma_be_value_of_be_bytes(profit as nat, 16);
}

/// After the header the records stand in the reverse of the order of the
/// hops: the record at place `k` is that of the hop `k` places before the end.
pub proof fn lemma_records_are_reversed(route: Seq<ArbitrageRequest>, k: int)
    requires
        route.len() >= 1,
        encoded_route(route).is_ok(),
        0 <= k < route.len(),
    ensures
        encoded_route(route).unwrap().len() == HEADER_LEN + RECORD_LEN * route.len(),
        encoded_route(route).unwrap().subrange(
            HEADER_LEN + RECORD_LEN * k,
            HEADER_LEN + RECORD_LEN * (k + 1),
        ) == route[route.len() - 1 - k].record(),
{
    let bytes = encoded_route(route).unwrap();
    let amount_in = amount_value(route.first().amount_in@).unwrap();
    let amount_out = amount_value(route.last().amount_out@).unwrap();
    lemma_be_bytes_len(amount_in as nat, 16);
    lemma_be_bytes_len((amount_out - amount_in) as nat, 16);
    lemma_record_at(route, k);
    assert(bytes.subrange(HEADER_LEN + RECORD_LEN * k, HEADER_LEN + RECORD_LEN * (k + 1))
        =~= records_reversed(route).subrange(RECORD_LEN * k, RECORD_LEN * (k + 1)));
}

/// The encoding of a route of one hop is the header and then that hop's record.
pub proof fn lemma_single_hop_record_follows_header(route: Seq<ArbitrageRequest>)
    requires
        route.len() == 1,
        encoded_route(route).is_ok(),
    ensures
        encoded_route(route).unwrap().len() == HEADER_LEN + RECORD_LEN,
        encoded_route(route).unwrap().subrange(HEADER_LEN as int, HEADER_LEN + RECORD_LEN)
            == route[0].record(),
{
    lemma_records_are_reversed(route, 0);
}

/// A route into which more goes than comes out has no encoding: the error is
/// `UnprofitableRoute`.
pub proof fn lemma_unprofitable_route_is_refused(route: Seq<ArbitrageRequest>)
    requires
        route.len() >= 1,
        amount_value(route.first().amount_in@).is_some(),
        amount_value(route.last().amount_out@).is_some(),
        amount_value(route.first().amount_in@).unwrap() > amount_value(
            route.last().amount_out@,
        ).unwrap(),
    ensures
        encoded_route(route) == Err::<Seq<u8>, EncodeError>(EncodeError::UnprofitableRoute),
        encoded_text(route) == Err::<Seq<char>, Seq<char>>(
            "Arbitrage request does not generate a profit"@,
        ),
{
}

/// Each error comes exactly when the step it names is the first to fail: the
/// first hop's `amount_in`, then the last hop's `amount_out`, then the
/// comparison of the two, then the pool addresses.
pub proof fn lemma_each_error_has_its_cause(route: Seq<ArbitrageRequest>)
    requires
        route.len() >= 1,
    ensures
        encoded_route(route) == Err::<Seq<u8>, EncodeError>(EncodeError::InvalidAmountIn)
            <==> amount_value(route.first().amount_in@).is_none(),
        encoded_route(route) == Err::<Seq<u8>, EncodeError>(EncodeError::InvalidAmountOut) <==> {
            &&& amount_value(route.first().amount_in@).is_some()
            &&& amount_value(route.last().amount_out@).is_none()
        },
        encoded_route(route) == Err::<Seq<u8>, EncodeError>(EncodeError::UnprofitableRoute) <==> {
            &&& amount_value(route.first().amount_in@).is_some()
            &&& amount_value(route.last().amount_out@).is_some()
            &&& amount_value(route.first().amount_in@).unwrap() > amount_value(
                route.last().amount_out@,
            ).unwrap()
        },
        encoded_route(route) == Err::<Seq<u8>, EncodeError>(EncodeError::InvalidPoolAddress) <==> {
            &&& amount_value(route.first().amount_in@).is_some()
            &&& amount_value(route.last().amount_out@).is_some()
            &&& amount_value(route.first().amount_in@).unwrap() <= amount_value(
                route.last().amount_out@,
            ).unwrap()
            &&& exists|i: int| 0 <= i < route.len() && (#[trigger] route[i]).pool().is_none()
        },
{
}

/// The four messages differ, so the message tells which error it was.
pub proof fn lemma_messages_differ(a: EncodeError, b: EncodeError)
    ensures
        a.message_text() == b.message_text() ==> a == b,
{
    reveal_strlit("Invalid amount_in");
    reveal_strlit("Invalid amount_out");
    reveal_strlit("Arbitrage request does not generate a profit");
    reveal_strlit("Invalid pool address");
    let in_text = "Invalid amount_in"@;
    let out_text = "Invalid amount_out"@;
    let pool_text = "Invalid pool address"@;
    assert(in_text[15] == 'i' && out_text[15] == 'o');
    assert(in_text[8] == 'a' && pool_text[8] == 'p');
    assert(out_text[8] == 'a');
}

} // verus!
