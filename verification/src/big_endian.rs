//! Fixed-width big-endian encoding of unsigned integers.

use vstd::prelude::*;

verus! {

/// The `width` least significant base-256 digits of `x`, most significant first.
pub open spec fn be_bytes(x: nat, width: nat) -> Seq<u8>
    decreases width,
{
    if width == 0 {
        Seq::empty()
    } else {
        be_bytes(x / 256, (width - 1) as nat).push((x % 256) as u8)
    }
}

/// The number that a byte string denotes when read most significant byte first.
pub open spec fn be_value(bytes: Seq<u8>) -> nat
    decreases bytes.len(),
{
    if bytes.len() == 0 {
        0
    } else {
        256 * be_value(bytes.drop_last()) + bytes.last() as nat
    }
}

/// `256` to the power `width`.
pub open spec fn radix_pow(width: nat) -> nat
    decreases width,
{
    if width == 0 {
        1
    } else {
        256 * radix_pow((width - 1) as nat)
    }
}

/// A big-endian encoding has exactly the width asked for.
pub proof fn lemma_be_bytes_len(x: nat, width: nat)
    ensures
        be_bytes(x, width).len() == width,
    decreases width,
{
    if width > 0 {
        lemma_be_bytes_len(x / 256, (width - 1) as nat);
    }
}

/// Reading a big-endian encoding back gives the number modulo `256^width`:
/// nothing is lost when the number fits in `width` bytes.
pub proof fn lemma_be_value_of_be_bytes(x: nat, width: nat)
    ensures
        be_value(be_bytes(x, width)) == x % radix_pow(width),
        x < radix_pow(width) ==> be_value(be_bytes(x, width)) == x,
    decreases width,
{
    if width > 0 {
        let rest = be_bytes(x / 256, (width - 1) as nat);
        let all = be_bytes(x, width);
        lemma_be_value_of_be_bytes(x / 256, (width - 1) as nat);
        assert(all.drop_last() =~= rest);
        assert(all.last() == (x % 256) as u8);
        lemma_radix_pow_positive((width - 1) as nat);
        lemma_mod_split(x, radix_pow((width - 1) as nat));
    }
}

/// Every power of 256 is positive.
pub proof fn lemma_radix_pow_positive(width: nat)
    ensures
        radix_pow(width) > 0,
    decreases width,
{
    if width > 0 {
        lemma_radix_pow_positive((width - 1) as nat);
    }
}

/// Splitting off the lowest base-256 digit commutes with reduction modulo `256 * p`.
proof fn lemma_mod_split(x: nat, p: nat)
    requires
        p > 0,
    ensures
        256 * ((x / 256) % p) + x % 256 == x % (256 * p),
{
    let q = x / 256;
    let r = x % 256;
    assert(x == 256 * q + r);
    let qq = q / p;
    let qr = q % p;
    assert(q == p * qq + qr) by {
        vstd::arithmetic::div_mod::lemma_fundamental_div_mod(q as int, p as int);
    }
    assert(0 <= qr < p) by {
        vstd::arithmetic::div_mod::lemma_mod_bound(q as int, p as int);
    }
    let low = 256 * qr + r;
    assert(0 <= low < 256 * p) by (nonlinear_arith)
        requires
            0 <= qr < p,
            0 <= r < 256,
            low == 256 * qr + r,
    ;
    assert(x == (256 * p) * qq + low) by (nonlinear_arith)
        requires
            x == 256 * q + r,
            q == p * qq + qr,
            low == 256 * qr + r,
    ;
    vstd::arithmetic::div_mod::lemma_fundamental_div_mod_converse(
        x as int,
        (256 * p) as int,
        qq as int,
        low as int,
    );
}

/// Sixteen bytes hold every 128-bit unsigned integer.
pub proof fn lemma_u128_fits_16_bytes(x: u128)
    ensures
        (x as nat) < radix_pow(16),
{
    reveal_with_fuel(radix_pow, 9);
    assert(radix_pow(8) == 0x1_0000_0000_0000_0000nat);
    assert(radix_pow(16) == 0x1_0000_0000_0000_0000_0000_0000_0000_0000nat);
}

/// Appends the `width` low bytes of `x` to `out`, most significant first.
pub fn push_be_bytes(out: &mut Vec<u8>, x: u128, width: u8)
    ensures
        final(out)@ == old(out)@ + be_bytes(x as nat, width as nat),
    decreases width,
{
    if width > 0 {
        push_be_bytes(out, x / 256, width - 1);
        out.push((x % 256) as u8);
    }
    assert(out@ =~= old(out)@ + be_bytes(x as nat, width as nat));
}

} // verus!
