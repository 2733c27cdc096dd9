//! Arbitrary-precision integers, used by the bias-free base-conversion
//! encoder and by the exact chi-square comparisons of the fallback tests.
//!
//! The `num_bigint::BigUint` type is opaque to the verifier; `big_value`
//! names the natural number a `BigUint` holds, and each wrapper states
//! what one library operation does to that value.

use vstd::prelude::*;

use num_bigint::BigUint;

verus! {

use vstd::arithmetic::power2::pow2;
use crate::bits::bytes_be_value;

#[verifier::external_type_specification]
#[verifier::external_body]
pub struct ExBigUint(BigUint);

/// The natural number held by a `BigUint`.
pub uninterp spec fn big_value(b: BigUint) -> nat;

/// Natural-number exponentiation.
pub open spec fn pow_nat(b: nat, e: nat) -> nat
    decreases e,
{
    if e == 0 {
        1
    } else {
        b * pow_nat(b, (e - 1) as nat)
    }
}

/// The fewest bits needed to express `n`; zero for zero.
pub open spec fn spec_bit_len(n: nat) -> nat
    decreases n,
{
    if n == 0 {
        0
    } else {
        spec_bit_len(n / 2) + 1
    }
}

/// Relies on `<BigUint as From<u64>>::from`: the result holds exactly the
/// given value.
#[verifier::external_body]
pub fn big_from_u64(x: u64) -> (r: BigUint)
    ensures
        big_value(r) == x as nat,
{
    BigUint::from(x)
}

/// Relies on `<BigUint as From<u128>>::from`: the result holds exactly the
/// given value.
#[verifier::external_body]
pub fn big_from_u128(x: u128) -> (r: BigUint)
    ensures
        big_value(r) == x as nat,
{
    BigUint::from(x)
}

/// Relies on `<BigUint as Mul<u64>>::mul`: exact product.
#[verifier::external_body]
pub fn big_mul_u64(a: BigUint, m: u64) -> (r: BigUint)
    ensures
        big_value(r) == big_value(a) * m as nat,
{
    a * m
}

/// Relies on `<BigUint as Add<u64>>::add`: exact sum.
#[verifier::external_body]
pub fn big_add_u64(a: BigUint, d: u64) -> (r: BigUint)
    ensures
        big_value(r) == big_value(a) + d as nat,
{
    a + d
}

/// Relies on `<BigUint as Sub<u64>>::sub`: exact difference; the library
/// panics on underflow, so the precondition rules that out.
#[verifier::external_body]
pub fn big_sub_u64(a: BigUint, d: u64) -> (r: BigUint)
    requires
        big_value(a) >= d as nat,
    ensures
        big_value(r) == big_value(a) - d as nat,
{
    a - d
}

/// Relies on `<&BigUint as Mul<&BigUint>>::mul`: exact product.
#[verifier::external_body]
pub fn big_mul(a: &BigUint, b: &BigUint) -> (r: BigUint)
    ensures
        big_value(r) == big_value(*a) * big_value(*b),
{
    a * b
}

/// Relies on `<&BigUint as Add<&BigUint>>::add`: exact sum.
#[verifier::external_body]
pub fn big_add(a: &BigUint, b: &BigUint) -> (r: BigUint)
    ensures
        big_value(r) == big_value(*a) + big_value(*b),
{
    a + b
}

/// Relies on `BigUint::pow`: exact exponentiation.
#[verifier::external_body]
pub fn big_pow_u32(a: &BigUint, e: u32) -> (r: BigUint)
    ensures
        big_value(r) == pow_nat(big_value(*a), e as nat),
{
    a.pow(e)
}

/// Relies on `<BigUint as Ord>::lt` through `<`: order agrees with the
/// held values.
#[verifier::external_body]
pub fn big_lt(a: &BigUint, b: &BigUint) -> (r: bool)
    ensures
        r == (big_value(*a) < big_value(*b)),
{
    a < b
}

/// Relies on `BigUint::bits`: the fewest bits necessary to express the
/// value, and zero for zero.
#[verifier::external_body]
pub fn big_bits(a: &BigUint) -> (r: u64)
    ensures
        r as nat == spec_bit_len(big_value(*a)),
{
    a.bits()
}

/// Relies on `BigUint::to_bytes_be`: the big-endian byte representation,
/// which is `[0]` for zero and has no leading zero byte otherwise.
#[verifier::external_body]
pub fn big_to_bytes_be(a: &BigUint) -> (r: Vec<u8>)
    ensures
        bytes_be_value(r@) == big_value(*a),
        r@.len() >= 1,
        big_value(*a) == 0 ==> r@.len() == 1 && r@[0] == 0u8,
        big_value(*a) > 0 ==> r@[0] != 0u8,
{
    a.to_bytes_be()
}

/// `spec_bit_len` brackets a positive number between two powers of two.
pub proof fn lemma_bit_len_bounds(n: nat)
    requires
        n > 0,
    ensures
        spec_bit_len(n) >= 1,
        pow2((spec_bit_len(n) - 1) as nat) <= n < pow2(spec_bit_len(n)),
    decreases n,
{
    vstd::arithmetic::power2::lemma2_to64();
    if n == 1 {
        assert(spec_bit_len(1nat) == spec_bit_len(0nat) + 1);
        assert(spec_bit_len(0nat) == 0);
    }
    if n >= 2 {
        lemma_bit_len_bounds(n / 2);
        let l = spec_bit_len(n / 2);
        assert(spec_bit_len(n) == l + 1);
        vstd::arithmetic::power2::lemma_pow2_unfold(l + 1);
        if l >= 1 {
            vstd::arithmetic::power2::lemma_pow2_unfold(l);
        }
        assert(n >= 2 * (n / 2));
        assert(n <= 2 * (n / 2) + 1);
        assert(pow2(l) == 2 * pow2((l - 1) as nat));
        assert(2 * (n / 2) >= 2 * pow2((l - 1) as nat));
        assert(n < 2 * pow2(l));
    }
}

/// A number below `pow2(e)` needs at most `e` bits.
pub proof fn lemma_bit_len_le(n: nat, e: nat)
    requires
        n < pow2(e),
    ensures
        spec_bit_len(n) <= e,
{
    if n > 0 {
        lemma_bit_len_bounds(n);
        if spec_bit_len(n) > e {
            if e < spec_bit_len(n) - 1 {
                vstd::arithmetic::power2::lemma_pow2_strictly_increases(
                    e,
                    (spec_bit_len(n) - 1) as nat,
                );
            }
        }
    }
}

/// `pow_nat` is monotone in the base.
pub proof fn lemma_pow_nat_base_le(b1: nat, b2: nat, e: nat)
    requires
        b1 <= b2,
    ensures
        pow_nat(b1, e) <= pow_nat(b2, e),
    decreases e,
{
    if e > 0 {
        lemma_pow_nat_base_le(b1, b2, (e - 1) as nat);
        assert(b1 * pow_nat(b1, (e - 1) as nat) <= b2 * pow_nat(b2, (e - 1) as nat))
            by (nonlinear_arith)
            requires
                b1 <= b2,
                pow_nat(b1, (e - 1) as nat) <= pow_nat(b2, (e - 1) as nat),
        ;
    }
}

/// A positive base keeps `pow_nat` positive.
pub proof fn lemma_pow_nat_pos(b: nat, e: nat)
    requires
        b >= 1,
    ensures
        pow_nat(b, e) >= 1,
    decreases e,
{
    if e > 0 {
        lemma_pow_nat_pos(b, (e - 1) as nat);
        assert(b * pow_nat(b, (e - 1) as nat) >= 1) by (nonlinear_arith)
            requires
                b >= 1,
                pow_nat(b, (e - 1) as nat) >= 1,
        ;
    }
}

} // verus!
