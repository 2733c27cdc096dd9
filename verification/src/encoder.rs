//! Turning parsed numbers into a bitstream.
//!
//! Numbers whose observed minimum is zero use fixed-width binary, the
//! smallest of 8, 16 or 32 bits that holds the maximum.  With an explicit
//! range the sequence is instead treated as digits of one big integer in
//! base `range_max - range_min + 1`, whose binary representation is the
//! bias-free encoding; its length is exactly the entropy bound
//! `ceil(count * log2(base))`, stated here as the least `m` with
//! `pow2(m) >= base^count`.

use vstd::prelude::*;

use num_bigint::BigUint;

verus! {

use vstd::arithmetic::power2::pow2;
use crate::bits::is_bit_seq;
use crate::bits::bits_value;
use crate::bits::num_bits_be;
use crate::bits::bytes_to_bits;
use crate::bits::lemma_num_bits_be_len;
use crate::bits::lemma_bits_value_append;
use crate::bits::lemma_bits_value_zero;
use crate::bits::lemma_bits_value_low;
use crate::bits::lemma_bits_value_injective;
use crate::bignum::big_value;
use crate::bignum::big_from_u64;
use crate::bignum::big_mul_u64;
use crate::bignum::big_add_u64;
use crate::bignum::big_sub_u64;
use crate::bignum::big_pow_u32;
use crate::bignum::big_bits;
use crate::bignum::big_to_bytes_be;
use crate::bignum::pow_nat;
use crate::bignum::spec_bit_len;
use crate::bignum::lemma_bit_len_bounds;
use crate::bignum::lemma_bit_len_le;
use crate::bignum::lemma_pow_nat_base_le;
use crate::bignum::lemma_pow_nat_pos;
use crate::errors::EncodeError;
use crate::errors::spec_message;
use crate::parse::parse_numbers;
use crate::parse::has_alpha;
use crate::parse::digit_runs;
use crate::parse::any_run_overflows;
use crate::parse::spec_min;
use crate::parse::spec_max;
use crate::parse::vec_min;
use crate::parse::vec_max;
use crate::digits::digits_value;
use crate::types::InputFormat;
use crate::b64::base64_bits_spec;
use crate::b64::parse_base64_to_bits;

/// The smallest standard width (8, 16 or 32 bits) that holds `max`.
pub open spec fn auto_width(max: u32) -> nat {
    if max <= 0xFF {
        8
    } else if max <= 0xFFFF {
        16
    } else {
        32
    }
}

/// Each number emitted as `w` bits, most significant bit first.
pub open spec fn fixed_width_bits(nums: Seq<u32>, w: nat) -> Seq<u8>
    decreases nums.len(),
{
    if nums.len() == 0 {
        Seq::empty()
    } else {
        fixed_width_bits(nums.drop_last(), w) + num_bits_be(nums.last() as nat, w)
    }
}

pub proof fn lemma_fixed_width_bits_len(nums: Seq<u32>, w: nat)
    ensures
        fixed_width_bits(nums, w).len() == nums.len() * w,
        is_bit_seq(fixed_width_bits(nums, w)),
    decreases nums.len(),
{
    if nums.len() > 0 {
        lemma_fixed_width_bits_len(nums.drop_last(), w);
        lemma_num_bits_be_len(nums.last() as nat, w);
        assert((nums.len() - 1) * w + w == nums.len() * w) by (nonlinear_arith);
    }
}

/// Append the low `w` bits of `v`, most significant first.
fn push_num_bits(r: &mut Vec<u8>, v: u32, w: usize)
    requires
        w <= 32,
    ensures
        final(r)@ == old(r)@ + num_bits_be(v as nat, w as nat),
{
    let mut j: usize = w;
    proof {
        assert(num_bits_be(shr_val(v, w as nat), 0) =~= Seq::<u8>::empty());
        assert(old(r)@ + num_bits_be(shr_val(v, w as nat), 0) =~= old(r)@);
    }
    while j > 0
        invariant
            0 <= j <= w <= 32,
            r@ == old(r)@ + num_bits_be(shr_val(v, j as nat), (w - j) as nat),
        decreases j,
    {
        j = j - 1;
        let bit = ((v >> (j as u32)) & 1) as u8;
        r.push(bit);
        proof {
            lemma_shift_bit_step_u32(v, j as u32, (w - j) as nat);
            assert(r@ =~= old(r)@ + num_bits_be(shr_val(v, j as nat), (w - j) as nat));
        }
    }
    proof {
        vstd::arithmetic::power2::lemma2_to64();
        assert(shr_val(v, 0) == v as nat / 1);
        assert(v as nat / 1 == v as nat) by (nonlinear_arith);
    }
}

/// The value of `v` shifted right by `j` places.
spec fn shr_val(v: u32, j: nat) -> nat {
    (v as nat) / pow2(j)
}

proof fn lemma_shr_is_div_u32(v: u32, j: nat)
    ensures
        j < 32 ==> (v >> (j as u32)) as nat == shr_val(v, j),
        j >= 32 ==> shr_val(v, j) == 0,
{
    if j < 32 {
        vstd::bits::lemma_u32_shr_is_div(v, j as u32);
    } else {
        vstd::arithmetic::power2::lemma2_to64();
        if j > 32 {
            vstd::arithmetic::power2::lemma_pow2_strictly_increases(32, j);
        }
        vstd::arithmetic::div_mod::lemma_basic_div(v as int, pow2(j) as int);
    }
}

proof fn lemma_shift_bit_step_u32(v: u32, j: u32, wj: nat)
    requires
        j < 32,
        wj >= 1,
    ensures
        num_bits_be(shr_val(v, j as nat), wj) == num_bits_be(
            shr_val(v, (j + 1) as nat),
            (wj - 1) as nat,
        ).push(((v >> j) & 1) as u8),
{
    lemma_shr_is_div_u32(v, j as nat);
    lemma_shr_is_div_u32(v, (j + 1) as nat);
    let x = v >> j;
    if j == 31 {
        assert(x < 2) by (bit_vector)
            requires
                x == v >> 31u32,
        ;
        vstd::arithmetic::power2::lemma2_to64();
        vstd::arithmetic::power2::lemma_pow2_adds(31, 1);
        vstd::arithmetic::div_mod::lemma_div_denominator(v as int, pow2(31) as int, 2);
        assert(shr_val(v, 32) == shr_val(v, 31) / 2);
    } else {
        assert(x / 2 == v >> (j + 1)) by (bit_vector)
            requires
                x == v >> j,
                j < 31,
        ;
        vstd::arithmetic::power2::lemma_pow2_adds(j as nat, 1);
        vstd::arithmetic::power2::lemma2_to64();
        vstd::arithmetic::div_mod::lemma_div_denominator(v as int, pow2(j as nat) as int, 2);
        assert(shr_val(v, (j + 1) as nat) == shr_val(v, j as nat) / 2);
    }
    assert(x % 2 == x & 1) by (bit_vector);
    assert(num_bits_be(x as nat, wj) == num_bits_be((x as nat) / 2, (wj - 1) as nat).push(
        ((x as nat) % 2) as u8,
    ));
}

/// Encode every number with the same fixed width.
pub fn encode_fixed_width(nums: &Vec<u32>, w: usize) -> (r: Vec<u8>)
    requires
        w == 8 || w == 16 || w == 32,
    ensures
        r@ == fixed_width_bits(nums@, w as nat),
        is_bit_seq(r@),
        r@.len() == nums@.len() * w,
{
    let mut r: Vec<u8> = Vec::new();
    let mut i: usize = 0;
    proof {
        assert(nums@.take(0) =~= Seq::<u32>::empty());
    }
    while i < nums.len()
        invariant
            0 <= i <= nums@.len(),
            w == 8 || w == 16 || w == 32,
            r@ == fixed_width_bits(nums@.take(i as int), w as nat),
        decreases nums@.len() - i,
    {
        push_num_bits(&mut r, nums[i], w);
        proof {
            assert(nums@.take(i + 1).drop_last() =~= nums@.take(i as int));
            assert(nums@.take(i + 1).last() == nums@[i as int]);
        }
        i = i + 1;
    }
    proof {
        assert(nums@.take(nums@.len() as int) =~= nums@);
        lemma_fixed_width_bits_len(nums@, w as nat);
    }
    r
}

/// The numbers normalized to zero-based digits of the range.
pub open spec fn normalized(nums: Seq<u32>, min: u32) -> Seq<u32> {
    nums.map_values(|x: u32| (x - min) as u32)
}

/// The sequence read as digits of one big integer, left to right.
pub open spec fn seq_base_value(digits: Seq<u32>, base: nat) -> nat
    decreases digits.len(),
{
    if digits.len() == 0 {
        0
    } else {
        seq_base_value(digits.drop_last(), base) * base + digits.last() as nat
    }
}

/// With every digit below the base, the value stays below `base^count`.
pub proof fn lemma_seq_base_value_bound(digits: Seq<u32>, base: nat)
    requires
        forall|i: int| 0 <= i < digits.len() ==> (#[trigger] digits[i]) < base,
    ensures
        seq_base_value(digits, base) < pow_nat(base, digits.len()),
    decreases digits.len(),
{
    if digits.len() == 0 {
    } else {
        lemma_seq_base_value_bound(digits.drop_last(), base);
        let v = seq_base_value(digits.drop_last(), base);
        let p = pow_nat(base, (digits.len() - 1) as nat);
        let d = digits.last() as nat;
        assert(v * base + d < p * base) by (nonlinear_arith)
            requires
                v < p,
                d < base,
        ;
        assert(pow_nat(base, digits.len()) == base * p);
        assert(p * base == base * p) by (nonlinear_arith);
    }
}

/// The least `m` with `pow2(m) >= n`, for positive `n`.
pub open spec fn ceil_log2(n: nat) -> nat {
    if n <= 1 {
        0
    } else {
        spec_bit_len((n - 1) as nat)
    }
}

pub proof fn lemma_ceil_log2_bounds(n: nat)
    requires
        n >= 1,
    ensures
        pow2(ceil_log2(n)) >= n,
        n >= 2 ==> ceil_log2(n) >= 1 && pow2((ceil_log2(n) - 1) as nat) < n,
{
    vstd::arithmetic::power2::lemma2_to64();
    if n >= 2 {
        lemma_bit_len_bounds((n - 1) as nat);
    }
}

/// The exact number of bits of the bias-free encoding of `k` numbers
/// drawn from a range of `base` values.
pub open spec fn target_bit_len(k: nat, base: nat) -> nat {
    if base <= 1 {
        0
    } else {
        ceil_log2(pow_nat(base, k))
    }
}

/// A base of at most `pow2(32)` keeps the target length within `32 * k`.
pub proof fn lemma_target_bit_len_le(k: nat, base: nat)
    requires
        1 <= base <= pow2(32),
    ensures
        target_bit_len(k, base) <= 32 * k,
{
    if base > 1 {
        lemma_pow_nat_base_le(base, pow2(32), k);
        lemma_pow_nat_pow2(32, k);
        lemma_pow_nat_pos(base, k);
        let n = pow_nat(base, k);
        assert(n <= pow2(32 * k));
        if n >= 2 {
            lemma_bit_len_le((n - 1) as nat, 32 * k);
        }
    }
}

/// `pow_nat` of a power of two is the power of two of the product.
pub proof fn lemma_pow_nat_pow2(a: nat, k: nat)
    ensures
        pow_nat(pow2(a), k) == pow2(a * k),
    decreases k,
{
    if k == 0 {
        vstd::arithmetic::power2::lemma2_to64();
        assert(a * 0 == 0);
    } else {
        lemma_pow_nat_pow2(a, (k - 1) as nat);
        vstd::arithmetic::power2::lemma_pow2_adds(a, a * (k - 1) as nat);
        assert(a + a * (k - 1) == a * k) by (nonlinear_arith);
    }
}

/// What the bias-free base conversion produces: a bitstream of exactly
/// the target length whose value encodes the normalized digits.
pub open spec fn base_conversion_output(out: Seq<u8>, nums: Seq<u32>, min: u32, max: u32) -> bool {
    let base = (max - min + 1) as nat;
    &&& is_bit_seq(out)
    &&& out.len() == target_bit_len(nums.len(), base)
    &&& bits_value(out) == seq_base_value(normalized(nums, min), base)
}

/// Convert numbers in an explicit range to bits by base conversion.
///
/// The sequence becomes one big integer in base `range_max - range_min
/// + 1`; its binary form, trimmed or padded to the entropy bound, is the
/// result.  Only zero bits are ever trimmed: the value provably fits the
/// bound, so the defensive error below cannot fire.
pub fn convert_to_bits_base_conversion(numbers: &Vec<u32>, range_min: u32, range_max: u32) -> (r:
    Result<Vec<u8>, String>)
    requires
        range_min <= range_max,
        forall|i: int| 0 <= i < numbers@.len() ==> range_min <= #[trigger] numbers@[i] <= range_max,
        numbers@.len() <= u32::MAX,
        32 * numbers@.len() <= usize::MAX,
    ensures
        r is Ok,
        r matches Ok(out) ==> base_conversion_output(out@, numbers@, range_min, range_max),
{
    let k = numbers.len();
    let range_size: u64 = (range_max - range_min) as u64 + 1;
    let ghost base = range_size as nat;
    let ghost digits = normalized(numbers@, range_min);

    let mut big: BigUint = big_from_u64(0);
    let mut i: usize = 0;
    proof {
        assert(normalized(numbers@.take(0), range_min) =~= Seq::<u32>::empty());
    }
    while i < k
        invariant
            0 <= i <= k,
            k == numbers@.len(),
            range_min <= range_max,
            range_size == (range_max - range_min) as u64 + 1,
            base == range_size as nat,
            forall|j: int|
                0 <= j < numbers@.len() ==> range_min <= #[trigger] numbers@[j] <= range_max,
            big_value(big) == seq_base_value(normalized(numbers@.take(i as int), range_min), base),
        decreases k - i,
    {
        let digit = numbers[i] - range_min;
        big = big_mul_u64(big, range_size);
        big = big_add_u64(big, digit as u64);
        proof {
            let pre = normalized(numbers@.take(i as int), range_min);
            let nxt = normalized(numbers@.take(i + 1), range_min);
            assert(nxt.len() == i + 1);
            assert(nxt.drop_last() =~= pre);
            assert(nxt.last() == (numbers@[i as int] - range_min) as u32);
            assert(seq_base_value(nxt, base) == seq_base_value(pre, base) * base
                + nxt.last() as nat);
            assert(big_value(big) == seq_base_value(pre, base) * base + (digit as nat));
        }
        i = i + 1;
    }
    proof {
        assert(numbers@.take(k as int) =~= numbers@);
        assert(forall|j: int| 0 <= j < digits.len() ==> (#[trigger] digits[j]) < base);
        lemma_seq_base_value_bound(digits, base);
    }

    // The entropy bound: the least m with pow2(m) >= base^k.
    let expected_bits: usize;
    if range_size == 1 {
        expected_bits = 0;
        proof {
            lemma_seq_base_value_bound(digits, 1);
            lemma_pow_nat_pos(1, k as nat);
            assert(pow_nat(1, k as nat) == 1) by {
                lemma_pow_nat_one(k as nat);
            }
        }
    } else {
        let rb = big_from_u64(range_size);
        let p = big_pow_u32(&rb, k as u32);
        proof {
            lemma_pow_nat_pos(base, k as nat);
        }
        let pm1 = big_sub_u64(p, 1);
        let mbits = big_bits(&pm1);
        proof {
            assert(base <= pow2(32)) by {
                vstd::arithmetic::power2::lemma2_to64();
                vstd::arithmetic::power2::lemma2_to64_rest();
            }
            lemma_target_bit_len_le(k as nat, base);
            assert(target_bit_len(k as nat, base) == spec_bit_len((pow_nat(base, k as nat)
                - 1) as nat)) by {
                if pow_nat(base, k as nat) <= 1 {
                    assert(spec_bit_len(0) == 0);
                }
            }
            assert(mbits as nat <= 32 * (k as nat));
        }
        expected_bits = mbits as usize;
    }
    assert(expected_bits as nat == target_bit_len(k as nat, base));

    let bytes = big_to_bytes_be(&big);
    let bits = bytes_to_bits(&bytes);
    let ghost value = big_value(big);
    proof {
        assert(value < pow_nat(base, k as nat));
        assert(pow_nat(base, k as nat) <= pow2(target_bit_len(k as nat, base))) by {
            if base <= 1 {
                lemma_pow_nat_one(k as nat);
                vstd::arithmetic::power2::lemma2_to64();
            } else {
                lemma_pow_nat_pos(base, k as nat);
                lemma_ceil_log2_bounds(pow_nat(base, k as nat));
            }
        }
    }

    if bits.len() < expected_bits {
        // Left-pad with zero bits up to the entropy bound.
        let mut padded: Vec<u8> = Vec::new();
        let pad = expected_bits - bits.len();
        let mut j: usize = 0;
        while j < pad
            invariant
                0 <= j <= pad,
                padded@.len() == j,
                forall|t: int| 0 <= t < j ==> #[trigger] padded@[t] == 0u8,
            decreases pad - j,
        {
            padded.push(0u8);
            j = j + 1;
        }
        let ghost zeros = padded@;
        let ghost tail = bits@;
        let mut rest = bits;
        padded.append(&mut rest);
        proof {
            assert(padded@ == zeros + tail);
            lemma_bits_value_append(zeros, tail);
            lemma_bits_value_zero(zeros);
            assert(bits_value(zeros) == 0);
            assert(bits_value(padded@) == bits_value(tail));
            assert(is_bit_seq(padded@)) by {
                assert(forall|t: int|
                    0 <= t < padded@.len() ==> padded@[t] == (if t < pad {
                        zeros[t]
                    } else {
                        tail[t - pad]
                    }));
            }
        }
        Ok(padded)
    } else if bits.len() > expected_bits {
        // Only byte-alignment zeros stand beyond the entropy bound; a
        // nonzero bit there would mean the accounting itself is wrong.
        let to_trim = bits.len() - expected_bits;
        proof {
            lemma_bits_value_low(bits@, expected_bits as int);
        }
        let mut j: usize = 0;
        while j < to_trim
            invariant
                0 <= j <= to_trim,
                to_trim <= bits@.len(),
                is_bit_seq(bits@),
                forall|t: int| 0 <= t < bits@.len() - expected_bits ==> #[trigger] bits@[t] == 0u8,
                expected_bits == bits@.len() - to_trim,
            decreases to_trim - j,
        {
            if bits[j] != 0 {
                let leading_zeros = j;
                let e = EncodeError::TrimmedNonzero { to_trim, leading_zeros };
                return Err(e.message());
            }
            j = j + 1;
        }
        let mut out: Vec<u8> = Vec::new();
        let mut t: usize = to_trim;
        while t < bits.len()
            invariant
                to_trim <= t <= bits@.len(),
                out@ =~= bits@.subrange(to_trim as int, t as int),
            decreases bits@.len() - t,
        {
            out.push(bits[t]);
            proof {
                assert(out@ =~= bits@.subrange(to_trim as int, t + 1));
            }
            t = t + 1;
        }
        proof {
            assert(out@ =~= bits@.skip(to_trim as int));
            lemma_bits_value_low(bits@, expected_bits as int);
            assert(bits_value(out@) == bits_value(bits@));
            assert(is_bit_seq(out@));
        }
        Ok(out)
    } else {
        Ok(bits)
    }
}

/// `pow_nat` of base one is one.
pub proof fn lemma_pow_nat_one(k: nat)
    ensures
        pow_nat(1, k) == 1,
    decreases k,
{
    if k > 0 {
        lemma_pow_nat_one((k - 1) as nat);
    }
}

/// Base conversion is deterministic: any two bitstreams that encode the
/// same sequence over the same range are bit-for-bit equal.
pub proof fn lemma_base_conversion_deterministic(
    out1: Seq<u8>,
    out2: Seq<u8>,
    nums: Seq<u32>,
    min: u32,
    max: u32,
)
    requires
        min <= max,
        base_conversion_output(out1, nums, min, max),
        base_conversion_output(out2, nums, min, max),
    ensures
        out1 == out2,
{
    lemma_bits_value_injective(out1, out2);
}

/// The parsed numbers of the text, one per digit run.
pub open spec fn parsed_nums(s: Seq<char>) -> Seq<u32> {
    digit_runs(s).map_values(|r: Seq<char>| digits_value(r) as u32)
}

/// Whether the text parses cleanly into at least one 32-bit number.
pub open spec fn parses_clean(s: Seq<char>) -> bool {
    &&& !has_alpha(s)
    &&& digit_runs(s).len() > 0
    &&& !any_run_overflows(s)
}

/// The maximum a forced bit width can represent.
pub open spec fn width_max_value(w: u8) -> u32 {
    if w == 8 {
        0xFF
    } else if w == 16 {
        0xFFFF
    } else {
        0xFFFF_FFFF
    }
}

/// What preparing numeric text with an optional explicit range returns:
/// the exact bitstream on success, the exact message on each failure.
pub open spec fn prepare_range_spec(
    s: Seq<char>,
    range_min: Option<u32>,
    range_max: Option<u32>,
    r: Result<Vec<u8>, String>,
) -> bool {
    if has_alpha(s) {
        r matches Err(m) && m@ == spec_message(EncodeError::InvalidCharacter)
    } else if digit_runs(s).len() == 0 {
        r matches Err(m) && m@ == spec_message(EncodeError::EmptyInput)
    } else if any_run_overflows(s) {
        r matches Err(m) && m@ == spec_message(EncodeError::NumericOverflow)
    } else {
        let nums = parsed_nums(s);
        let amin = spec_min(nums);
        let amax = spec_max(nums);
        if range_min is Some && range_max is Some {
            let mn = range_min->0;
            let mx = range_max->0;
            if mn > mx {
                r matches Err(m) && m@ == spec_message(EncodeError::RangeInverted { min: mn, max: mx })
            } else if amin < mn || amax > mx {
                r matches Err(m) && m@ == spec_message(
                    EncodeError::RangeViolation {
                        actual_min: amin,
                        actual_max: amax,
                        min: mn,
                        max: mx,
                    },
                )
            } else {
                r matches Ok(out) && base_conversion_output(out@, nums, mn, mx)
            }
        } else {
            if amin == 0 {
                r matches Ok(out) && out@ == fixed_width_bits(nums, auto_width(amax))
                    && is_bit_seq(out@)
            } else {
                r matches Err(m) && m@ == spec_message(
                    EncodeError::RangeRequired { actual_min: amin, actual_max: amax },
                )
            }
        }
    }
}

/// What preparing numeric text with a forced bit width returns.  An
/// invalid width is rejected before anything else; a valid one tolerates
/// a nonzero minimum and only checks that every number fits.
pub open spec fn prepare_bitwidth_spec(
    s: Seq<char>,
    range_min: Option<u32>,
    range_max: Option<u32>,
    bit_width: Option<u8>,
    r: Result<Vec<u8>, String>,
) -> bool {
    match bit_width {
        Option::Some(bw) => {
            if bw != 8 && bw != 16 && bw != 32 {
                r matches Err(m) && m@ == spec_message(EncodeError::InvalidBitWidth { bit_width: bw })
            } else if has_alpha(s) {
                r matches Err(m) && m@ == spec_message(EncodeError::InvalidCharacter)
            } else if digit_runs(s).len() == 0 {
                r matches Err(m) && m@ == spec_message(EncodeError::EmptyInput)
            } else if any_run_overflows(s) {
                r matches Err(m) && m@ == spec_message(EncodeError::NumericOverflow)
            } else {
                let nums = parsed_nums(s);
                let amax = spec_max(nums);
                if amax > width_max_value(bw) {
                    r matches Err(m) && m@ == spec_message(
                        EncodeError::BitWidthExceeded {
                            actual_max: amax,
                            bit_width: bw,
                            max_value: width_max_value(bw),
                        },
                    )
                } else {
                    r matches Ok(out) && out@ == fixed_width_bits(nums, bw as nat) && is_bit_seq(
                        out@,
                    )
                }
            }
        },
        Option::None => prepare_range_spec(s, range_min, range_max, r),
    }
}

/// Parse numeric text and encode it, requiring an explicit range when
/// the numbers do not provably start at zero.
///
/// Numbers whose minimum is zero take the smallest standard fixed width;
/// an explicit range switches to bias-free base conversion; anything
/// else is an error telling the caller to supply the range.  The length
/// bounds are machine limits for the entropy arithmetic.
pub fn prepare_input_for_nist_with_range(
    input: &str,
    range_min: Option<u32>,
    range_max: Option<u32>,
) -> (r: Result<Vec<u8>, String>)
    requires
        input@.len() <= u32::MAX,
        32 * input@.len() <= usize::MAX,
    ensures
        prepare_range_spec(input@, range_min, range_max, r),
{
    let nums = match parse_numbers(input) {
        Ok(v) => v,
        Err(e) => {
            return Err(e.message());
        },
    };
    proof {
        assert(nums@ =~= parsed_nums(input@));
    }
    let actual_min = vec_min(&nums);
    let actual_max = vec_max(&nums);

    if let (Some(mn), Some(mx)) = (range_min, range_max) {
        if mn > mx {
            let e = EncodeError::RangeInverted { min: mn, max: mx };
            return Err(e.message());
        }
        if actual_min < mn || actual_max > mx {
            let e = EncodeError::RangeViolation {
                actual_min,
                actual_max,
                min: mn,
                max: mx,
            };
            return Err(e.message());
        }
        convert_to_bits_base_conversion(&nums, mn, mx)
    } else {
        if actual_min == 0 {
            let width: usize = if actual_max <= 0xFF {
                8
            } else if actual_max <= 0xFFFF {
                16
            } else {
                32
            };
            Ok(encode_fixed_width(&nums, width))
        } else {
            let e = EncodeError::RangeRequired { actual_min, actual_max };
            Err(e.message())
        }
    }
}

/// Parse numeric text and encode it, with an optional forced bit width.
///
/// A forced width of 8, 16 or 32 bits validates that every number fits
/// and encodes fixed-width, tolerating a nonzero minimum; without one
/// the range-based strategy above applies.  The length bounds are
/// machine limits for the entropy arithmetic.
pub fn prepare_input_for_nist_with_range_and_bitwidth(
    input: &str,
    range_min: Option<u32>,
    range_max: Option<u32>,
    bit_width: Option<u8>,
) -> (r: Result<Vec<u8>, String>)
    requires
        input@.len() <= u32::MAX,
        32 * input@.len() <= usize::MAX,
    ensures
        prepare_bitwidth_spec(input@, range_min, range_max, bit_width, r),
{
    if let Some(bw) = bit_width {
        if bw != 8 && bw != 16 && bw != 32 {
            let e = EncodeError::InvalidBitWidth { bit_width: bw };
            return Err(e.message());
        }
        let nums = match parse_numbers(input) {
            Ok(v) => v,
            Err(e) => {
                return Err(e.message());
            },
        };
        proof {
            assert(nums@ =~= parsed_nums(input@));
        }
        let actual_max = vec_max(&nums);
        let max_value: u32 = if bw == 8 {
            0xFF
        } else if bw == 16 {
            0xFFFF
        } else {
            0xFFFF_FFFF
        };
        if actual_max > max_value {
            let e = EncodeError::BitWidthExceeded { actual_max, bit_width: bw, max_value };
            return Err(e.message());
        }
        Ok(encode_fixed_width(&nums, bw as usize))
    } else {
        prepare_input_for_nist_with_range(input, range_min, range_max)
    }
}

/// Parse numeric text and encode it with the default strategy: standard
/// fixed widths for zero-based numbers, an error otherwise.  The length
/// bounds are machine limits for the entropy arithmetic.
pub fn prepare_input_for_nist(input: &str) -> (r: Result<Vec<u8>, String>)
    requires
        input@.len() <= u32::MAX,
        32 * input@.len() <= usize::MAX,
    ensures
        prepare_range_spec(input@, None, None, r),
{
    prepare_input_for_nist_with_range(input, None, None)
}

/// What preparing input in a given format returns.  Base64 payloads
/// ignore the range and bit-width parameters.
pub open spec fn prepare_format_spec(
    s: Seq<char>,
    format: InputFormat,
    range_min: Option<u32>,
    range_max: Option<u32>,
    bit_width: Option<u8>,
    r: Result<Vec<u8>, String>,
) -> bool {
    match format {
        InputFormat::Numbers => prepare_bitwidth_spec(s, range_min, range_max, bit_width, r),
        InputFormat::Base64 => base64_bits_spec(s, r),
    }
}

/// Prepare input for testing according to its declared format.  The
/// length bounds are machine limits for the entropy arithmetic.
pub fn prepare_input_with_format(
    input: &str,
    format: &InputFormat,
    range_min: Option<u32>,
    range_max: Option<u32>,
    bit_width: Option<u8>,
) -> (r: Result<Vec<u8>, String>)
    requires
        input@.len() <= u32::MAX,
        32 * input@.len() <= usize::MAX,
    ensures
        prepare_format_spec(input@, *format, range_min, range_max, bit_width, r),
{
    match format {
        InputFormat::Numbers => {
            prepare_input_for_nist_with_range_and_bitwidth(input, range_min, range_max, bit_width)
        },
        InputFormat::Base64 => parse_base64_to_bits(input),
    }
}

/// Fixed-width encoding of zero-based byte-range numbers is exactly
/// eight bits per number.
pub proof fn lemma_fixed_width_byte_length(nums: Seq<u32>)
    requires
        nums.len() > 0,
        spec_min(nums) == 0,
        spec_max(nums) <= 255,
    ensures
        fixed_width_bits(nums, auto_width(spec_max(nums))).len() == 8 * nums.len(),
{
    lemma_fixed_width_bits_len(nums, 8);
    assert(nums.len() * 8 == 8 * nums.len()) by (nonlinear_arith);
}

/// Base conversion is length-consistent: sequences of the same count
/// over the same range produce the same number of bits, whatever the
/// values.
pub proof fn lemma_base_conversion_length_consistent(
    out1: Seq<u8>,
    out2: Seq<u8>,
    nums1: Seq<u32>,
    nums2: Seq<u32>,
    min: u32,
    max: u32,
)
    requires
        min <= max,
        nums1.len() == nums2.len(),
        base_conversion_output(out1, nums1, min, max),
        base_conversion_output(out2, nums2, min, max),
    ensures
        out1.len() == out2.len(),
{
}

} // verus!
