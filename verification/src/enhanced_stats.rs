//! Simplified statistical tests for datasets too small for the tiered
//! suite.
//!
//! Each heuristic works directly on the raw bits and decides pass or
//! fail with exact integer arithmetic: every real-valued threshold is
//! restated as an equivalent integer comparison, so nothing is
//! approximated.

use vstd::prelude::*;

use num_bigint::BigUint;

verus! {

use vstd::string::StringExecFns;
use crate::digits::dec_str;
use crate::digits::digit_char;
use crate::digits::digit_to_char;
use crate::digits::push_char;
use crate::digits::append_u64;
use crate::bignum::big_value;
use crate::bignum::big_from_u64;
use crate::bignum::big_from_u128;
use crate::bignum::big_mul;
use crate::bignum::big_add;
use crate::bignum::big_pow_u32;
use crate::bignum::big_sub_u64;
use crate::bignum::big_bits;
use crate::bignum::big_lt;
use crate::bignum::pow_nat;
use crate::bignum::spec_bit_len;
use crate::bignum::lemma_bit_len_le;
use crate::encoder::lemma_pow_nat_pow2;
use crate::encoder::ceil_log2;

/// One simplified test's outcome.
#[derive(Debug)]
pub struct StatisticalTestResult {
    pub test_name: String,
    pub passed: bool,
    pub description: String,
}

/// The outcomes of the whole simplified battery.
#[derive(Debug)]
pub struct EnhancedTestResults {
    pub bit_count: usize,
    pub tests_run: usize,
    pub tests_passed: usize,
    /// The fraction of tests passed, in parts per million of one.
    pub pass_rate_ppm: u32,
    pub individual_tests: Vec<StatisticalTestResult>,
}

/// How many elements of the sequence are the bit one.
pub open spec fn ones_count(s: Seq<u8>) -> int
    decreases s.len(),
{
    if s.len() == 0 {
        0
    } else {
        ones_count(s.drop_last()) + (if s.last() == 1u8 {
            1int
        } else {
            0int
        })
    }
}

/// The length of the run of equal bits ending at position `i`.
pub open spec fn run_len_at(s: Seq<u8>, i: int) -> int
    decreases i,
{
    if i <= 0 {
        1
    } else if s[i] == s[i - 1] {
        run_len_at(s, i - 1) + 1
    } else {
        1
    }
}

/// The longest run of equal bits among positions up to `i`.
pub open spec fn max_run_upto(s: Seq<u8>, i: int) -> int
    decreases i,
{
    if i <= 0 {
        1
    } else if run_len_at(s, i) > max_run_upto(s, i - 1) {
        run_len_at(s, i)
    } else {
        max_run_upto(s, i - 1)
    }
}

/// The longest run of equal bits; zero on an empty sequence.
pub open spec fn spec_max_run(s: Seq<u8>) -> int {
    if s.len() == 0 {
        0
    } else {
        max_run_upto(s, s.len() - 1)
    }
}

/// How many adjacent positions hold different bits.
pub open spec fn spec_transitions(s: Seq<u8>) -> int
    decreases s.len(),
{
    if s.len() <= 1 {
        0
    } else {
        spec_transitions(s.drop_last()) + (if s.last() != s[s.len() - 2] {
            1int
        } else {
            0int
        })
    }
}

/// Whether two adjacent eight-bit blocks repeat anywhere, with the
/// first block starting strictly before the last sixteen positions.
pub open spec fn spec_has_repeating_blocks(s: Seq<u8>) -> bool {
    exists|i: int|
        0 <= i < s.len() - 16 && #[trigger] s.subrange(i, i + 8) =~= s.subrange(i + 8, i + 16)
}

/// The longest run of consecutive equal bits.
pub fn find_max_consecutive_same(bits: &Vec<u8>) -> (r: usize)
    ensures
        r as int == spec_max_run(bits@),
{
    if bits.len() == 0 {
        return 0;
    }
    let mut max_count: usize = 1;
    let mut current: usize = 1;
    let mut i: usize = 1;
    while i < bits.len()
        invariant
            1 <= i <= bits@.len(),
            current as int == run_len_at(bits@, i - 1),
            max_count as int == max_run_upto(bits@, i - 1),
            1 <= current <= i,
            1 <= max_count <= i,
        decreases bits@.len() - i,
    {
        if bits[i] == bits[i - 1] {
            current = current + 1;
            if current > max_count {
                max_count = current;
            }
            proof {
                assert(run_len_at(bits@, i as int) == run_len_at(bits@, i - 1) + 1);
            }
        } else {
            current = 1;
            proof {
                assert(run_len_at(bits@, i as int) == 1);
            }
        }
        proof {
            assert(max_run_upto(bits@, i as int) == (if run_len_at(bits@, i as int) > max_run_upto(
                bits@,
                i - 1,
            ) {
                run_len_at(bits@, i as int)
            } else {
                max_run_upto(bits@, i - 1)
            }));
        }
        i = i + 1;
    }
    max_count
}

/// How many adjacent positions hold different bits.
pub fn count_alternating_pattern(bits: &Vec<u8>) -> (r: usize)
    ensures
        r as int == spec_transitions(bits@),
        bits@.len() > 0 ==> r as int <= bits@.len() - 1,
{
    if bits.len() < 2 {
        return 0;
    }
    let mut count: usize = 0;
    let mut i: usize = 1;
    proof {
        assert(bits@.take(1).len() == 1);
    }
    while i < bits.len()
        invariant
            1 <= i <= bits@.len(),
            count as int == spec_transitions(bits@.take(i as int)),
            count < i,
        decreases bits@.len() - i,
    {
        proof {
            assert(bits@.take(i + 1).drop_last() =~= bits@.take(i as int));
            assert(bits@.take(i + 1).last() == bits@[i as int]);
            assert(bits@.take(i + 1)[i - 1] == bits@[i - 1]);
        }
        if bits[i] != bits[i - 1] {
            count = count + 1;
        }
        i = i + 1;
    }
    proof {
        assert(bits@.take(bits@.len() as int) =~= bits@);
    }
    count
}

/// Whether any adjacent pair of eight-bit blocks repeats.
pub fn has_repeating_blocks(bits: &Vec<u8>) -> (r: bool)
    ensures
        r == spec_has_repeating_blocks(bits@),
{
    if bits.len() < 16 {
        proof {
            assert(!spec_has_repeating_blocks(bits@));
        }
        return false;
    }
    let upper = bits.len() - 16;
    let mut i: usize = 0;
    while i < upper
        invariant
            0 <= i <= upper,
            upper == bits@.len() - 16,
            16 <= bits@.len() <= usize::MAX,
            forall|k: int|
                0 <= k < i ==> !(#[trigger] bits@.subrange(k, k + 8) =~= bits@.subrange(
                    k + 8,
                    k + 16,
                )),
        decreases upper - i,
    {
        let mut equal = true;
        let mut j: usize = 0;
        while j < 8
            invariant
                0 <= j <= 8,
                0 <= i < bits@.len() - 16,
                bits@.len() <= usize::MAX,
                equal <==> (forall|t: int|
                    0 <= t < j ==> #[trigger] bits@[i + t] == bits@[i + 8 + t]),
            decreases 8 - j,
        {
            if bits[i + j] != bits[i + 8 + j] {
                equal = false;
                proof {
                    assert(!(bits@[i + j as int] == bits@[i + 8 + j as int]));
                }
            }
            j = j + 1;
        }
        if equal {
            proof {
                assert(bits@.subrange(i as int, i + 8) =~= bits@.subrange(i + 8, i + 16)) by {
                    assert(forall|t: int|
                        0 <= t < 8 ==> #[trigger] bits@.subrange(i as int, i + 8)[t] == bits@[i + t]
                            && bits@.subrange(i + 8, i + 16)[t] == bits@[i + 8 + t]);
                }
            }
            return true;
        }
        proof {
            assert(!(bits@.subrange(i as int, i + 8) =~= bits@.subrange(i + 8, i + 16))) by {
                let w = choose|t: int| 0 <= t < 8 && #[trigger] bits@[i + t] != bits@[i + 8 + t];
                assert(bits@.subrange(i as int, i + 8)[w] == bits@[i + w]);
                assert(bits@.subrange(i + 8, i + 16)[w] == bits@[i + 8 + w]);
            }
        }
        i = i + 1;
    }
    proof {
        assert(!spec_has_repeating_blocks(bits@));
    }
    false
}

/// Count the one bits of the stream.
fn count_ones_exec(bits: &Vec<u8>) -> (r: usize)
    ensures
        r as int == ones_count(bits@),
        r <= bits@.len(),
{
    let mut count: usize = 0;
    let mut i: usize = 0;
    proof {
        assert(bits@.take(0) =~= Seq::<u8>::empty());
    }
    while i < bits.len()
        invariant
            0 <= i <= bits@.len(),
            count as int == ones_count(bits@.take(i as int)),
            count <= i,
        decreases bits@.len() - i,
    {
        proof {
            assert(bits@.take(i + 1).drop_last() =~= bits@.take(i as int));
            assert(bits@.take(i + 1).last() == bits@[i as int]);
        }
        if bits[i] == 1 {
            count = count + 1;
        }
        i = i + 1;
    }
    proof {
        assert(bits@.take(bits@.len() as int) =~= bits@);
    }
    count
}

/// Whether the frequency heuristic passes: the imbalance of ones and
/// zeros stays under two standard deviations, `|ones - zeros| <
/// 2 * sqrt(n)` stated as `(ones - zeros)^2 < 4 * n`.
pub open spec fn freq_passes(s: Seq<u8>) -> bool {
    let o = ones_count(s);
    let z = s.len() - o;
    &&& s.len() > 0
    &&& (o - z) * (o - z) < 4 * s.len()
}

/// The frequency description: the counts and the ratio of ones with
/// three decimal places.
pub open spec fn freq_desc(s: Seq<u8>) -> Seq<char> {
    if s.len() == 0 {
        "No data"@
    } else {
        let o = ones_count(s);
        let z = s.len() - o;
        "Ones: "@ + dec_str(o as nat) + ", Zeros: "@ + dec_str(z as nat) + ", Ratio: "@
            + render_permille3((1000 * o / s.len() as int) as nat) + " (expect ~0.500)"@
    }
}

/// A fraction given in thousandths, rendered with three decimals.
pub open spec fn render_permille3(v: nat) -> Seq<char> {
    if v >= 1000 {
        "1.000"@
    } else {
        "0."@ + seq![
            digit_char(v / 100),
            digit_char((v / 10) % 10),
            digit_char(v % 10),
        ]
    }
}

/// Render a thousandths fraction with three decimal places.
fn render_permille(v: u64) -> (r: String)
    ensures
        r@ == render_permille3(v as nat),
{
    if v >= 1000 {
        String::from_str("1.000")
    } else {
        let mut s = String::from_str("0.");
        push_char(&mut s, digit_to_char(v / 100));
        push_char(&mut s, digit_to_char((v / 10) % 10));
        push_char(&mut s, digit_to_char(v % 10));
        proof {
            assert(s@ =~= render_permille3(v as nat));
        }
        s
    }
}

/// Frequency (monobit) heuristic: are ones and zeros balanced?
pub fn frequency_test(bits: &Vec<u8>) -> (r: StatisticalTestResult)
    ensures
        r.test_name@ == "Frequency Test"@,
        r.passed == freq_passes(bits@),
        r.description@ == freq_desc(bits@),
{
    let test_name = String::from_str("Frequency Test");
    let n = bits.len();
    if n == 0 {
        return StatisticalTestResult {
            test_name,
            passed: false,
            description: String::from_str("No data"),
        };
    }
    let ones = count_ones_exec(bits);
    let zeros = n - ones;
    let diff: u128 = if ones >= zeros {
        (ones - zeros) as u128
    } else {
        (zeros - ones) as u128
    };
    proof {
        assert((diff as int) * (diff as int) < 0x1_0000_0000_0000_0000_0000_0000_0000_0000)
            by (nonlinear_arith)
            requires
                0 <= diff as int <= 0xFFFF_FFFF_FFFF_FFFF,
        ;
    }
    let passed = diff * diff < 4 * (n as u128);
    proof {
        let o = ones_count(bits@);
        let z = bits@.len() - o;
        assert((o - z) * (o - z) == (diff as int) * (diff as int)) by (nonlinear_arith)
            requires
                diff as int == (if o >= z {
                    o - z
                } else {
                    z - o
                }),
        ;
    }
    proof {
        assert((1000 * (ones as int)) / (n as int) <= 1000) by (nonlinear_arith)
            requires
                0 < n as int,
                0 <= ones as int <= n as int,
        ;
    }
    let ratio_pm: u64 = ((1000 * (ones as u128)) / (n as u128)) as u64;
    proof {
        assert(ratio_pm as int == 1000 * (ones as int) / (n as int));
    }
    let ratio = render_permille(ratio_pm);
    let mut description = String::from_str("Ones: ");
    proof {
        assert(description@ =~= "Ones: "@);
    }
    append_u64(&mut description, ones as u64);
    description.append(", Zeros: ");
    append_u64(&mut description, zeros as u64);
    description.append(", Ratio: ");
    description.append(ratio.as_str());
    description.append(" (expect ~0.500)");
    proof {
        assert(description@ == freq_desc(bits@));
    }
    StatisticalTestResult { test_name, passed, description }
}

/// Whether the runs heuristic passes.  Its normalized deviation divides
/// by the square root of `2np(1-p) * (2np(1-p) - n)`, and since
/// `2np(1-p) = 2*ones*zeros/n` never exceeds `n/2`, that product is
/// never positive: the statistic is taken as zero, so any stream of at
/// least two bits passes.
pub open spec fn runs_passes(s: Seq<u8>) -> bool {
    s.len() >= 2
}

/// The runs description: observed and expected run counts.
pub open spec fn runs_desc(s: Seq<u8>) -> Seq<char> {
    if s.len() < 2 {
        "Insufficient data"@
    } else {
        let o = ones_count(s);
        let z = s.len() - o;
        let e10 = 20 * o * z / s.len() as int + 10;
        "Observed runs: "@ + dec_str((spec_transitions(s) + 1) as nat) + ", Expected: "@ + dec_str(
            (e10 / 10) as nat,
        ) + "."@ + seq![digit_char((e10 % 10) as nat)] + ", Statistic: 0.000"@
    }
}

/// Runs heuristic: does the stream oscillate as often as expected?
pub fn runs_test(bits: &Vec<u8>) -> (r: StatisticalTestResult)
    ensures
        r.test_name@ == "Runs Test"@,
        r.passed == runs_passes(bits@),
        r.description@ == runs_desc(bits@),
{
    let test_name = String::from_str("Runs Test");
    let n = bits.len();
    if n < 2 {
        return StatisticalTestResult {
            test_name,
            passed: false,
            description: String::from_str("Insufficient data"),
        };
    }
    let ones = count_ones_exec(bits);
    let zeros = n - ones;
    let runs = count_alternating_pattern(bits) + 1;
    // The variance factor 2np(1-p) - n is never positive, because
    // 4 * ones * zeros <= (ones + zeros)^2; the normalized statistic is
    // therefore zero and the test passes.
    proof {
        let o = ones as int;
        let z = zeros as int;
        assert(4 * o * z <= (o + z) * (o + z)) by (nonlinear_arith);
    }
    proof {
        assert((ones as int) * (zeros as int) < 0x1_0000_0000_0000_0000_0000_0000_0000_0000)
            by (nonlinear_arith)
            requires
                0 <= ones as int <= 0xFFFF_FFFF_FFFF_FFFF,
                0 <= zeros as int <= 0xFFFF_FFFF_FFFF_FFFF,
        ;
    }
    let a: u128 = (ones as u128) * (zeros as u128);
    proof {
        assert(a as int <= (n as int) * (n as int)) by (nonlinear_arith)
            requires
                0 <= ones as int <= n as int,
                0 <= zeros as int <= n as int,
                a as int == (ones as int) * (zeros as int),
        ;
    }
    let q1: u128 = a / (n as u128);
    let r1: u128 = a % (n as u128);
    proof {
        assert(q1 as int <= n as int) by (nonlinear_arith)
            requires
                0 < n as int,
                0 <= a as int <= (n as int) * (n as int),
                q1 as int == a as int / (n as int),
        ;
    }
    let e10: u128 = 20 * q1 + (20 * r1) / (n as u128) + 10;
    proof {
        let o = ones as int;
        let z = zeros as int;
        let ni = n as int;
        vstd::arithmetic::div_mod::lemma_fundamental_div_mod(a as int, ni);
        vstd::arithmetic::div_mod::lemma_hoist_over_denominator(
            20 * (r1 as int),
            20 * (q1 as int),
            ni as nat,
        );
        assert(20 * (r1 as int) + 20 * (q1 as int) * ni == 20 * (a as int)) by (nonlinear_arith)
            requires
                a as int == ni * (q1 as int) + (r1 as int),
        ;
        assert((20 * (r1 as int)) / ni + 20 * (q1 as int) == (20 * (a as int)) / ni);
        assert(20 * (a as int) == 20 * o * z) by (nonlinear_arith)
            requires
                a as int == o * z,
        ;
        assert(e10 as int == 20 * o * z / ni + 10);
        // The expected-run figure stays within the stream length.
        assert(4 * o * z <= ni * ni) by (nonlinear_arith)
            requires
                o + z == ni,
        ;
        assert(20 * o * z <= 5 * ni * ni) by (nonlinear_arith)
            requires
                4 * o * z <= ni * ni,
        ;
        assert(20 * o * z / ni <= 5 * ni) by (nonlinear_arith)
            requires
                ni > 0,
                0 <= 20 * o * z <= 5 * ni * ni,
        ;
    }
    let mut description = String::from_str("Observed runs: ");
    proof {
        assert(description@ =~= "Observed runs: "@);
    }
    append_u64(&mut description, runs as u64);
    description.append(", Expected: ");
    append_u64(&mut description, (e10 / 10) as u64);
    description.append(".");
    push_char(&mut description, digit_to_char((e10 % 10) as u64));
    description.append(", Statistic: 0.000");
    proof {
        assert(runs as int == spec_transitions(bits@) + 1);
        assert(description@ == runs_desc(bits@));
    }
    StatisticalTestResult { test_name, passed: true, description }
}

/// The longest-run limit: the exact ceiling of `1.5 * log2(n)`, the
/// least `e` with `4^e >= n^3`.
pub open spec fn longest_run_limit(n: nat) -> nat {
    (ceil_log2(n * n * n) + 1) / 2
}

/// Whether the longest-run heuristic passes: the longest run of equal
/// bits stays within twice the expected longest run.
pub open spec fn longest_run_passes(s: Seq<u8>) -> bool {
    &&& s.len() > 0
    &&& spec_max_run(s) <= 2 * longest_run_limit(s.len())
}

/// The longest-run description.
pub open spec fn longest_run_desc(s: Seq<u8>) -> Seq<char> {
    if s.len() == 0 {
        "No data"@
    } else {
        "Longest run: "@ + dec_str(spec_max_run(s) as nat) + ", Expected: ~"@ + dec_str(
            longest_run_limit(s.len()),
        ) + ", "@ + (if longest_run_passes(s) {
            "within normal range"@
        } else {
            "suspiciously long"@
        })
    }
}

/// Longest-run heuristic: no run of equal bits may be far longer than
/// chance allows.
pub fn longest_run_test(bits: &Vec<u8>) -> (r: StatisticalTestResult)
    ensures
        r.test_name@ == "Longest Run Test"@,
        r.passed == longest_run_passes(bits@),
        r.description@ == longest_run_desc(bits@),
{
    let test_name = String::from_str("Longest Run Test");
    let n = bits.len();
    if n == 0 {
        return StatisticalTestResult {
            test_name,
            passed: false,
            description: String::from_str("No data"),
        };
    }
    let longest = find_max_consecutive_same(bits);
    let expected = longest_run_limit_exec(n);
    let passed = (longest as u64) <= 2 * expected;
    let mut description = String::from_str("Longest run: ");
    proof {
        assert(description@ =~= "Longest run: "@);
    }
    append_u64(&mut description, longest as u64);
    description.append(", Expected: ~");
    append_u64(&mut description, expected);
    description.append(", ");
    if passed {
        description.append("within normal range");
    } else {
        description.append("suspiciously long");
    }
    proof {
        assert(description@ == longest_run_desc(bits@));
    }
    StatisticalTestResult { test_name, passed, description }
}

/// Compute the exact longest-run limit via arbitrary-precision
/// arithmetic: the bit length of `n^3 - 1` halves into the least `e`
/// with `4^e >= n^3`.
fn longest_run_limit_exec(n: usize) -> (r: u64)
    requires
        n >= 1,
    ensures
        r as nat == longest_run_limit(n as nat),
        r <= 96,
{
    proof {
        lemma_cube_bit_len(n as nat);
    }
    if n == 1 {
        assert(longest_run_limit(1) == (ceil_log2(1) + 1) / 2 == 0);
        0
    } else {
        let nb = big_from_u64(n as u64);
        let n3 = big_pow_u32(&nb, 3);
        proof {
            let nn = n as nat;
            assert(pow_nat(nn, 3) == nn * pow_nat(nn, 2));
            assert(pow_nat(nn, 2) == nn * pow_nat(nn, 1));
            assert(pow_nat(nn, 1) == nn * pow_nat(nn, 0));
            assert(pow_nat(nn, 0) == 1);
            assert(nn * (nn * (nn * 1)) == nn * nn * nn) by (nonlinear_arith);
            assert(big_value(n3) >= 2 * 2 * 2) by (nonlinear_arith)
                requires
                    big_value(n3) == (n as nat) * (n as nat) * (n as nat),
                    n >= 2,
            ;
        }
        let m1 = big_sub_u64(n3, 1);
        let c = big_bits(&m1);
        proof {
            assert(ceil_log2((n as nat) * (n as nat) * (n as nat)) == c as nat);
        }
        (c + 1) / 2
    }
}

/// The value of the `j`-th four-bit block.
pub open spec fn block_val(s: Seq<u8>, j: int) -> int {
    8 * s[4 * j] + 4 * s[4 * j + 1] + 2 * s[4 * j + 2] + s[4 * j + 3]
}

/// How many of the first `upto` four-bit blocks hold the pattern `p`.
pub open spec fn pattern_count(s: Seq<u8>, upto: int, p: int) -> int
    decreases upto,
{
    if upto <= 0 {
        0
    } else {
        pattern_count(s, upto - 1, p) + (if block_val(s, upto - 1) == p {
            1int
        } else {
            0int
        })
    }
}

/// The chi-square numerator over the patterns that occur: the sum of
/// `(16 * count - blocks)^2` over patterns with a nonzero count.
pub open spec fn poker_sum(s: Seq<u8>, m: int, p: int) -> int
    decreases p,
{
    if p <= 0 {
        0
    } else {
        poker_sum(s, m, p - 1) + (if pattern_count(s, m, p - 1) > 0 {
            (16 * pattern_count(s, m, p - 1) - m) * (16 * pattern_count(s, m, p - 1) - m)
        } else {
            0int
        })
    }
}

/// How many of the first `p` patterns occur at all.
pub open spec fn patterns_present(s: Seq<u8>, m: int, p: int) -> int
    decreases p,
{
    if p <= 0 {
        0
    } else {
        patterns_present(s, m, p - 1) + (if pattern_count(s, m, p - 1) > 0 {
            1int
        } else {
            0int
        })
    }
}

/// Whether the poker heuristic passes: the chi-square of the four-bit
/// pattern distribution, `sum / (blocks / 16)`, stays under 25 —
/// stated as `16 * sum < 400 * blocks` scaled by `16 * blocks` — and at
/// least four blocks were analyzed.
pub open spec fn poker_passes(s: Seq<u8>) -> bool {
    let m = s.len() as int / 4;
    &&& s.len() >= 4
    &&& poker_sum(s, m, 16) < 400 * m
    &&& m >= 4
}

/// The poker description.
pub open spec fn poker_desc(s: Seq<u8>) -> Seq<char> {
    if s.len() < 4 {
        "Insufficient data (need at least 4 bits)"@
    } else {
        let m = s.len() as int / 4;
        "Patterns found: "@ + dec_str(patterns_present(s, m, 16) as nat) + "/16, "@ + dec_str(
            m as nat,
        ) + " blocks analyzed"@
    }
}

/// The four-bit block value is the bit value of its subrange.
proof fn lemma_block_val(s: Seq<u8>, j: int)
    requires
        crate::bits::is_bit_seq(s),
        0 <= j,
        4 * j + 4 <= s.len(),
    ensures
        0 <= block_val(s, j) < 16,
{
    assert(s[4 * j] <= 1 && s[4 * j + 1] <= 1 && s[4 * j + 2] <= 1 && s[4 * j + 3] <= 1);
}

/// Poker heuristic: are the sixteen four-bit patterns evenly
/// distributed?
pub fn poker_test(bits: &Vec<u8>) -> (r: StatisticalTestResult)
    requires
        crate::bits::is_bit_seq(bits@),
    ensures
        r.test_name@ == "Poker Test (Pattern Distribution)"@,
        r.passed == poker_passes(bits@),
        r.description@ == poker_desc(bits@),
{
    let test_name = String::from_str("Poker Test (Pattern Distribution)");
    let n = bits.len();
    if n < 4 {
        return StatisticalTestResult {
            test_name,
            passed: false,
            description: String::from_str("Insufficient data (need at least 4 bits)"),
        };
    }
    let m = n / 4;
    let mut counts: Vec<usize> = Vec::new();
    let mut t: usize = 0;
    while t < 16
        invariant
            0 <= t <= 16,
            counts@.len() == t,
            forall|p: int| 0 <= p < t ==> #[trigger] counts@[p] == 0,
        decreases 16 - t,
    {
        counts.push(0);
        t = t + 1;
    }
    let mut j: usize = 0;
    while j < m
        invariant
            0 <= j <= m,
            m == bits@.len() as int / 4,
            4 * m <= bits@.len() <= usize::MAX,
            crate::bits::is_bit_seq(bits@),
            counts@.len() == 16,
            forall|p: int| 0 <= p < 16 ==> #[trigger] counts@[p] as int == pattern_count(
                bits@,
                j as int,
                p,
            ),
            forall|p: int| 0 <= p < 16 ==> #[trigger] counts@[p] <= j,
        decreases m - j,
    {
        proof {
            assert(4 * (j + 1) <= 4 * m) by (nonlinear_arith)
                requires
                    j + 1 <= m,
            ;
            lemma_block_val(bits@, j as int);
        }
        let base = 4 * j;
        let pat: usize = (8 * bits[base] as usize) + (4 * bits[base + 1] as usize) + (2 * bits[base
            + 2] as usize) + (bits[base + 3] as usize);
        let ghost counts0 = counts@;
        counts[pat] = counts[pat] + 1;
        proof {
            assert(pat as int == block_val(bits@, j as int));
            assert(counts@ =~= counts0.update(pat as int, (counts0[pat as int] + 1) as usize));
            assert(forall|p: int|
                0 <= p < 16 ==> #[trigger] pattern_count(bits@, j + 1, p) == pattern_count(
                    bits@,
                    j as int,
                    p,
                ) + (if block_val(bits@, j as int) == p {
                    1int
                } else {
                    0int
                }));
        }
        j = j + 1;
    }

    // Exact chi-square comparison, accumulated in arbitrary precision.
    let mut sum: BigUint = big_from_u64(0);
    let mut present: usize = 0;
    let mut p: usize = 0;
    while p < 16
        invariant
            0 <= p <= 16,
            m == bits@.len() as int / 4,
            counts@.len() == 16,
            forall|q: int| 0 <= q < 16 ==> #[trigger] counts@[q] as int == pattern_count(
                bits@,
                m as int,
                q,
            ),
            forall|q: int| 0 <= q < 16 ==> #[trigger] counts@[q] <= m,
            big_value(sum) == poker_sum(bits@, m as int, p as int),
            present as int == patterns_present(bits@, m as int, p as int),
            present <= p,
        decreases 16 - p,
    {
        let c = counts[p];
        if c > 0 {
            let d: u128 = if 16 * (c as u128) >= m as u128 {
                16 * (c as u128) - m as u128
            } else {
                m as u128 - 16 * (c as u128)
            };
            let db = big_from_u128(d);
            let term = big_mul(&db, &db);
            proof {
                let ci = c as int;
                let mi = m as int;
                assert((16 * ci - mi) * (16 * ci - mi) == (d as int) * (d as int))
                    by (nonlinear_arith)
                    requires
                        d as int == (if 16 * ci >= mi {
                            16 * ci - mi
                        } else {
                            mi - 16 * ci
                        }),
                ;
            }
            sum = big_add(&sum, &term);
            present = present + 1;
        }
        p = p + 1;
    }
    let threshold = big_from_u128(400 * (m as u128));
    let chi_ok = big_lt(&sum, &threshold);
    let passed = chi_ok && m >= 4;

    let mut description = String::from_str("Patterns found: ");
    proof {
        assert(description@ =~= "Patterns found: "@);
    }
    append_u64(&mut description, present as u64);
    description.append("/16, ");
    append_u64(&mut description, m as u64);
    description.append(" blocks analyzed");
    proof {
        assert(description@ == poker_desc(bits@));
    }
    StatisticalTestResult { test_name, passed, description }
}

/// How many of the first `j` positions match the bit `lag` places
/// later.
pub open spec fn match_upto(s: Seq<u8>, lag: int, j: int) -> int
    decreases j,
{
    if j <= 0 {
        0
    } else {
        match_upto(s, lag, j - 1) + (if s[j - 1] == s[j - 1 + lag] {
            1int
        } else {
            0int
        })
    }
}

/// The thousandths deviation of the lag correlation from one half.
pub open spec fn lag_deviation_pm(s: Seq<u8>, lag: int) -> int {
    let d = s.len() - lag;
    let twice = 2 * match_upto(s, lag, d);
    let diff = if twice >= d {
        twice - d
    } else {
        d - twice
    };
    500 * diff / d
}

/// Whether the autocorrelation heuristic passes: at lags one and two
/// the fraction of matching pairs stays within 0.15 of one half,
/// stated as `10 * |2 * matches - pairs| < 3 * pairs`.
pub open spec fn auto_passes(s: Seq<u8>) -> bool {
    &&& s.len() >= 10
    &&& 10 * abs_diff(2 * match_upto(s, 1, s.len() - 1), s.len() - 1) < 3 * (s.len() - 1)
    &&& 10 * abs_diff(2 * match_upto(s, 2, s.len() - 2), s.len() - 2) < 3 * (s.len() - 2)
}

/// The distance between two integers.
pub open spec fn abs_diff(a: int, b: int) -> int {
    if a >= b {
        a - b
    } else {
        b - a
    }
}

/// The autocorrelation description: the larger thousandths deviation.
pub open spec fn auto_desc(s: Seq<u8>) -> Seq<char> {
    if s.len() < 10 {
        "Insufficient data (need at least 10 bits)"@
    } else {
        let v = if lag_deviation_pm(s, 1) >= lag_deviation_pm(s, 2) {
            lag_deviation_pm(s, 1)
        } else {
            lag_deviation_pm(s, 2)
        };
        "Max autocorrelation deviation: "@ + render_permille3(v as nat)
            + " (expect < 0.15 for randomness)"@
    }
}

/// Count the matches at one lag.
fn match_count_exec(bits: &Vec<u8>, lag: usize) -> (r: usize)
    requires
        1 <= lag <= bits@.len(),
    ensures
        r as int == match_upto(bits@, lag as int, bits@.len() - lag),
        r as int <= bits@.len() - lag,
{
    let d = bits.len() - lag;
    let mut count: usize = 0;
    let mut i: usize = 0;
    while i < d
        invariant
            0 <= i <= d,
            d == bits@.len() - lag,
            bits@.len() <= usize::MAX,
            1 <= lag,
            count as int == match_upto(bits@, lag as int, i as int),
            count <= i,
        decreases d - i,
    {
        if bits[i] == bits[i + lag] {
            count = count + 1;
        }
        i = i + 1;
    }
    count
}

/// Autocorrelation heuristic: bits should not predict the bits one or
/// two places later.
pub fn autocorrelation_test(bits: &Vec<u8>) -> (r: StatisticalTestResult)
    ensures
        r.test_name@ == "Autocorrelation Test"@,
        r.passed == auto_passes(bits@),
        r.description@ == auto_desc(bits@),
{
    let test_name = String::from_str("Autocorrelation Test");
    let n = bits.len();
    if n < 10 {
        return StatisticalTestResult {
            test_name,
            passed: false,
            description: String::from_str("Insufficient data (need at least 10 bits)"),
        };
    }
    let m1 = match_count_exec(bits, 1);
    let m2 = match_count_exec(bits, 2);
    let d1 = n - 1;
    let d2 = n - 2;
    let diff1: usize = if 2 * (m1 as u128) >= d1 as u128 {
        (2 * (m1 as u128) - d1 as u128) as usize
    } else {
        d1 - 2 * m1
    };
    let diff2: usize = if 2 * (m2 as u128) >= d2 as u128 {
        (2 * (m2 as u128) - d2 as u128) as usize
    } else {
        d2 - 2 * m2
    };
    let pass1 = 10 * (diff1 as u128) < 3 * (d1 as u128);
    let pass2 = 10 * (diff2 as u128) < 3 * (d2 as u128);
    let passed = pass1 && pass2;
    proof {
        assert(diff1 as int == abs_diff(2 * match_upto(bits@, 1, bits@.len() - 1), bits@.len() - 1));
        assert(diff2 as int == abs_diff(2 * match_upto(bits@, 2, bits@.len() - 2), bits@.len() - 2));
    }
    let v1: u128 = 500 * (diff1 as u128) / (d1 as u128);
    let v2: u128 = 500 * (diff2 as u128) / (d2 as u128);
    let v: u128 = if v1 >= v2 {
        v1
    } else {
        v2
    };
    proof {
        assert(v1 as int == lag_deviation_pm(bits@, 1));
        assert(v2 as int == lag_deviation_pm(bits@, 2));
        assert(500 * (diff1 as int) / (d1 as int) <= 500) by (nonlinear_arith)
            requires
                0 < d1 as int,
                0 <= diff1 as int <= d1 as int,
        ;
        assert(500 * (diff2 as int) / (d2 as int) <= 500) by (nonlinear_arith)
            requires
                0 < d2 as int,
                0 <= diff2 as int <= d2 as int,
        ;
    }
    let rendered = render_permille(v as u64);
    let mut description = String::from_str("Max autocorrelation deviation: ");
    proof {
        assert(description@ =~= "Max autocorrelation deviation: "@);
    }
    description.append(rendered.as_str());
    description.append(" (expect < 0.15 for randomness)");
    proof {
        assert(description@ == auto_desc(bits@));
    }
    StatisticalTestResult { test_name, passed, description }
}

/// The long-run issue: a run of more than `max(n / 4, 8)` equal bits.
pub open spec fn issue_long_run(s: Seq<u8>) -> bool {
    spec_max_run(s) > (if s.len() as int / 4 >= 8 {
        s.len() as int / 4
    } else {
        8
    })
}

/// The alternation issue: more than ninety percent of adjacent pairs
/// differ.
pub open spec fn issue_alternating(s: Seq<u8>) -> bool {
    10 * spec_transitions(s) > 9 * s.len()
}

/// Whether the pattern-distribution heuristic passes: none of the
/// three obvious structures is present.
pub open spec fn pattern_passes(s: Seq<u8>) -> bool {
    &&& s.len() >= 8
    &&& !issue_long_run(s)
    &&& !issue_alternating(s)
    &&& !spec_has_repeating_blocks(s)
}

/// The pattern-distribution description: each triggered issue, joined
/// with semicolons.
pub open spec fn pattern_desc(s: Seq<u8>) -> Seq<char> {
    if s.len() < 8 {
        "Insufficient data"@
    } else if pattern_passes(s) {
        "No obvious non-random patterns detected"@
    } else {
        let p1 = if issue_long_run(s) {
            dec_str(spec_max_run(s) as nat) + " consecutive identical bits"@
        } else {
            Seq::empty()
        };
        let p2 = if issue_alternating(s) {
            (if issue_long_run(s) {
                "; "@
            } else {
                Seq::empty()
            }) + dec_str((100 * spec_transitions(s) / s.len() as int) as nat)
                + "% alternating pattern"@
        } else {
            Seq::empty()
        };
        let p3 = if spec_has_repeating_blocks(s) {
            (if issue_long_run(s) || issue_alternating(s) {
                "; "@
            } else {
                Seq::empty()
            }) + "Repeating block pattern detected"@
        } else {
            Seq::empty()
        };
        "Issues found: "@ + p1 + p2 + p3
    }
}

/// Pattern-distribution heuristic: flag obviously structured streams.
pub fn pattern_distribution_test(bits: &Vec<u8>) -> (r: StatisticalTestResult)
    ensures
        r.test_name@ == "Pattern Distribution Test"@,
        r.passed == pattern_passes(bits@),
        r.description@ == pattern_desc(bits@),
{
    let test_name = String::from_str("Pattern Distribution Test");
    let n = bits.len();
    if n < 8 {
        return StatisticalTestResult {
            test_name,
            passed: false,
            description: String::from_str("Insufficient data"),
        };
    }
    let max_same = find_max_consecutive_same(bits);
    let quarter = n / 4;
    let limit: usize = if quarter >= 8 {
        quarter
    } else {
        8
    };
    let long_run = max_same > limit;

    let transitions = count_alternating_pattern(bits);
    proof {
        assert(10 * (transitions as int) < 0x8000_0000_0000_0000_0000_0000_0000_0000)
            by (nonlinear_arith)
            requires
                0 <= transitions as int <= 0xFFFF_FFFF_FFFF_FFFF,
        ;
    }
    let alternating = 10 * (transitions as u128) > 9 * (n as u128);

    let repeating = has_repeating_blocks(bits);

    let passed = !long_run && !alternating && !repeating;
    let description: String;
    if passed {
        description = String::from_str("No obvious non-random patterns detected");
    } else {
        let mut d = String::from_str("Issues found: ");
        proof {
            assert(d@ =~= "Issues found: "@);
        }
        if long_run {
            append_u64(&mut d, max_same as u64);
            d.append(" consecutive identical bits");
        }
        if alternating {
            if long_run {
                d.append("; ");
            }
            let pct: u128 = 100 * (transitions as u128) / (n as u128);
            proof {
                assert(100 * (transitions as int) / (n as int) <= 100) by (nonlinear_arith)
                    requires
                        0 < n as int,
                        0 <= transitions as int <= n as int,
                ;
            }
            append_u64(&mut d, pct as u64);
            d.append("% alternating pattern");
        }
        if repeating {
            if long_run || alternating {
                d.append("; ");
            }
            d.append("Repeating block pattern detected");
        }
        proof {
            assert(d@ =~= pattern_desc(bits@));
        }
        description = d;
    }
    StatisticalTestResult { test_name, passed, description }
}

/// The cube of a 64-bit number stays under `pow2(192)`, so its bit
/// length stays under 193.
proof fn lemma_cube_bit_len(n: nat)
    requires
        n >= 1,
        n < 0x1_0000_0000_0000_0000,
    ensures
        spec_bit_len((n * n * n - 1) as nat) <= 192,
{
    vstd::arithmetic::power2::lemma2_to64();
    vstd::arithmetic::power2::lemma2_to64_rest();
    let b = 0x1_0000_0000_0000_0000 as nat;
    assert(b == vstd::arithmetic::power2::pow2(64));
    assert(n * n * n < b * b * b) by (nonlinear_arith)
        requires
            1 <= n < b,
    ;
    lemma_pow_nat_pow2(64, 3);
    assert(pow_nat(vstd::arithmetic::power2::pow2(64), 3) == vstd::arithmetic::power2::pow2(192));
    assert(pow_nat(b, 3) == b * pow_nat(b, 2));
    assert(pow_nat(b, 2) == b * pow_nat(b, 1));
    assert(pow_nat(b, 1) == b * pow_nat(b, 0));
    assert(pow_nat(b, 0) == 1);
    assert(b * (b * (b * 1)) == b * b * b) by (nonlinear_arith);
    assert(pow_nat(b, 3) == b * b * b);
    assert(n * n * n < vstd::arithmetic::power2::pow2(192));
    assert(n * n * n >= 1) by (nonlinear_arith)
        requires
            n >= 1,
    ;
    assert(((n * n * n - 1) as nat) < vstd::arithmetic::power2::pow2(192));
    lemma_bit_len_le((n * n * n - 1) as nat, 192);
}


/// How many of the six heuristics pass on this stream.
pub open spec fn enh_passed_count(s: Seq<u8>) -> int {
    (if freq_passes(s) {
        1int
    } else {
        0int
    }) + (if runs_passes(s) {
        1int
    } else {
        0int
    }) + (if longest_run_passes(s) {
        1int
    } else {
        0int
    }) + (if poker_passes(s) {
        1int
    } else {
        0int
    }) + (if auto_passes(s) {
        1int
    } else {
        0int
    }) + (if pattern_passes(s) {
        1int
    } else {
        0int
    })
}

/// Run the whole simplified battery and collect its outcomes.
pub fn run_enhanced_tests_structured(bits: &Vec<u8>) -> (r: EnhancedTestResults)
    requires
        crate::bits::is_bit_seq(bits@),
    ensures
        r.bit_count == bits@.len(),
        r.tests_run == 6,
        r.individual_tests@.len() == 6,
        r.individual_tests@[0].passed == freq_passes(bits@),
        r.individual_tests@[0].test_name@ == "Frequency Test"@,
        r.individual_tests@[0].description@ == freq_desc(bits@),
        r.individual_tests@[1].passed == runs_passes(bits@),
        r.individual_tests@[1].test_name@ == "Runs Test"@,
        r.individual_tests@[1].description@ == runs_desc(bits@),
        r.individual_tests@[2].passed == longest_run_passes(bits@),
        r.individual_tests@[2].test_name@ == "Longest Run Test"@,
        r.individual_tests@[2].description@ == longest_run_desc(bits@),
        r.individual_tests@[3].passed == poker_passes(bits@),
        r.individual_tests@[3].test_name@ == "Poker Test (Pattern Distribution)"@,
        r.individual_tests@[3].description@ == poker_desc(bits@),
        r.individual_tests@[4].passed == auto_passes(bits@),
        r.individual_tests@[4].test_name@ == "Autocorrelation Test"@,
        r.individual_tests@[4].description@ == auto_desc(bits@),
        r.individual_tests@[5].passed == pattern_passes(bits@),
        r.individual_tests@[5].test_name@ == "Pattern Distribution Test"@,
        r.individual_tests@[5].description@ == pattern_desc(bits@),
        r.tests_passed as int == enh_passed_count(bits@),
        r.pass_rate_ppm as int == enh_passed_count(bits@) * 1_000_000 / 6,
{
    let t0 = frequency_test(bits);
    let t1 = runs_test(bits);
    let t2 = longest_run_test(bits);
    let t3 = poker_test(bits);
    let t4 = autocorrelation_test(bits);
    let t5 = pattern_distribution_test(bits);
    let mut passed: usize = 0;
    if t0.passed {
        passed = passed + 1;
    }
    if t1.passed {
        passed = passed + 1;
    }
    if t2.passed {
        passed = passed + 1;
    }
    if t3.passed {
        passed = passed + 1;
    }
    if t4.passed {
        passed = passed + 1;
    }
    if t5.passed {
        passed = passed + 1;
    }
    let pass_rate_ppm: u32 = ((passed as u64) * 1_000_000 / 6) as u32;
    let mut individual_tests: Vec<StatisticalTestResult> = Vec::new();
    individual_tests.push(t0);
    individual_tests.push(t1);
    individual_tests.push(t2);
    individual_tests.push(t3);
    individual_tests.push(t4);
    individual_tests.push(t5);
    EnhancedTestResults {
        bit_count: bits.len(),
        tests_run: 6,
        tests_passed: passed,
        pass_rate_ppm,
        individual_tests,
    }
}

/// One block of the summary: the test name, its verdict and its
/// description.
pub open spec fn enh_line(name: Seq<char>, passed: bool, desc: Seq<char>) -> Seq<char> {
    name + " "@ + (if passed {
        "PASS \u{2713}"@
    } else {
        "FAIL \u{2717}"@
    }) + "\n  "@ + desc + "\n\n"@
}

/// The whole summary of a simplified run.
pub open spec fn enhanced_report_spec(s: Seq<u8>) -> Seq<char> {
    let passed = enh_passed_count(s);
    let ppm = passed * 1_000_000 / 6;
    "Enhanced Statistical Analysis (Small Dataset)\n===============================================\nInput Size: "@
        + dec_str(s.len()) + " bits\nTests Run: 6\nTests Passed: "@ + dec_str(passed as nat)
        + "/6 ("@ + crate::report::render_percent1(ppm as u32)
        + "%)\n\nIndividual Test Results:\n-----------------------\n"@ + enh_line(
        "Frequency Test"@,
        freq_passes(s),
        freq_desc(s),
    ) + enh_line("Runs Test"@, runs_passes(s), runs_desc(s)) + enh_line(
        "Longest Run Test"@,
        longest_run_passes(s),
        longest_run_desc(s),
    ) + enh_line("Poker Test (Pattern Distribution)"@, poker_passes(s), poker_desc(s)) + enh_line(
        "Autocorrelation Test"@,
        auto_passes(s),
        auto_desc(s),
    ) + enh_line("Pattern Distribution Test"@, pattern_passes(s), pattern_desc(s))
        + "\nInterpretation:\n---------------\n"@ + (if ppm >= 800_000 {
        "\u{2713} GOOD: The sequence shows good randomness properties.\n"@
    } else if ppm >= 500_000 {
        "\u{26a0} MODERATE: The sequence shows some randomness but has weaknesses.\n"@
    } else {
        "\u{2717} POOR: The sequence shows poor randomness properties.\n"@
    })
        + "\nNote: These are simplified statistical tests suitable for small datasets.\nFor comprehensive analysis, provide 313+ numbers (10,000+ bits) to enable full NIST testing.\n"@
}

/// Append one summary block.
fn append_enh_line(s: &mut String, t: &StatisticalTestResult)
    ensures
        final(s)@ == old(s)@ + enh_line(t.test_name@, t.passed, t.description@),
{
    let mut line = String::new();
    line.append(t.test_name.as_str());
    proof {
        assert(line@ =~= t.test_name@);
    }
    line.append(" ");
    if t.passed {
        line.append("PASS \u{2713}");
    } else {
        line.append("FAIL \u{2717}");
    }
    line.append("\n  ");
    line.append(t.description.as_str());
    line.append("\n\n");
    s.append(line.as_str());
}

/// Run the simplified battery and render its summary as text.
pub fn run_enhanced_tests(bits: &Vec<u8>) -> (r: String)
    requires
        crate::bits::is_bit_seq(bits@),
    ensures
        r@ == enhanced_report_spec(bits@),
{
    let results = run_enhanced_tests_structured(bits);
    let mut s = String::new();
    s.append(
        "Enhanced Statistical Analysis (Small Dataset)\n===============================================\nInput Size: ",
    );
    proof {
        assert(s@
            =~= "Enhanced Statistical Analysis (Small Dataset)\n===============================================\nInput Size: "@);
    }
    append_u64(&mut s, results.bit_count as u64);
    s.append(" bits\nTests Run: 6\nTests Passed: ");
    append_u64(&mut s, results.tests_passed as u64);
    s.append("/6 (");
    crate::report::append_percent1(&mut s, results.pass_rate_ppm);
    s.append("%)\n\nIndividual Test Results:\n-----------------------\n");
    append_enh_line(&mut s, &results.individual_tests[0]);
    append_enh_line(&mut s, &results.individual_tests[1]);
    append_enh_line(&mut s, &results.individual_tests[2]);
    append_enh_line(&mut s, &results.individual_tests[3]);
    append_enh_line(&mut s, &results.individual_tests[4]);
    append_enh_line(&mut s, &results.individual_tests[5]);
    s.append("\nInterpretation:\n---------------\n");
    if results.pass_rate_ppm >= 800_000 {
        s.append("\u{2713} GOOD: The sequence shows good randomness properties.\n");
    } else if results.pass_rate_ppm >= 500_000 {
        s.append("\u{26a0} MODERATE: The sequence shows some randomness but has weaknesses.\n");
    } else {
        s.append("\u{2717} POOR: The sequence shows poor randomness properties.\n");
    }
    s.append(
        "\nNote: These are simplified statistical tests suitable for small datasets.\nFor comprehensive analysis, provide 313+ numbers (10,000+ bits) to enable full NIST testing.\n",
    );
    proof {
        assert(enh_passed_count(bits@) * 1_000_000 / 6 <= 1_000_000) by (nonlinear_arith)
            requires
                0 <= enh_passed_count(bits@) <= 6,
        ;
        assert(s@ == enhanced_report_spec(bits@));
    }
    s
}


/// Analyze a stream too short for any tier: run the simplified battery
/// and report it through the same caller-facing records as the tiered
/// path, with the shortfall explained in the message.
pub fn run_fallback_analysis(bits: &Vec<u8>) -> (r: crate::types::ValidationResponse)
    requires
        crate::bits::is_bit_seq(bits@),
    ensures
        r.valid == (enh_passed_count(bits@) * 1_000_000 / 6 >= 800_000),
        r.quality_score_ppm as int == enh_passed_count(bits@) * 1_000_000 / 6,
        r.message@ == crate::errors::spec_message(
            crate::errors::EncodeError::InsufficientData { bit_count: bits@.len() as usize },
        ),
        r.nist_data matches Some(d) && {
            &&& d.bit_count == bits@.len()
            &&& d.total_tests == 6
            &&& d.tests_passed as int == enh_passed_count(bits@)
            &&& d.success_rate_ppm == r.quality_score_ppm
            &&& d.individual_tests@.len() == 6
            &&& d.individual_tests@[0].passed == freq_passes(bits@)
            &&& d.individual_tests@[5].passed == pattern_passes(bits@)
            &&& d.fallback_message matches Some(m) && m@ == crate::errors::spec_message(
                crate::errors::EncodeError::InsufficientData { bit_count: bits@.len() as usize },
            )
        },
        r.nist_results matches Some(o) && o@ == enhanced_report_spec(bits@),
        r.debug_file is None,
{
    let results = run_enhanced_tests_structured(bits);
    let report = run_enhanced_tests(bits);
    let shortfall = crate::errors::EncodeError::InsufficientData { bit_count: bits.len() };
    let message = shortfall.message();

    let mut individual_tests: Vec<crate::types::NistTestResult> = Vec::new();
    let mut i: usize = 0;
    while i < 6
        invariant
            0 <= i <= 6,
            results.individual_tests@.len() == 6,
            individual_tests@.len() == i,
            forall|k: int|
                0 <= k < i ==> {
                    &&& (#[trigger] individual_tests@[k]).name
                        == results.individual_tests@[k].test_name
                    &&& individual_tests@[k].passed == results.individual_tests@[k].passed
                    &&& individual_tests@[k].p_value_ppm == 0
                },
        decreases 6 - i,
    {
        let t = &results.individual_tests[i];
        individual_tests.push(
            crate::types::NistTestResult {
                name: t.test_name.clone(),
                passed: t.passed,
                p_value_ppm: 0,
                description: t.description.clone(),
            },
        );
        i = i + 1;
    }

    let nist_data = crate::types::NistResults {
        bit_count: results.bit_count,
        tests_passed: results.tests_passed,
        total_tests: 6,
        success_rate_ppm: results.pass_rate_ppm,
        individual_tests,
        fallback_message: Some(message.clone()),
        raw_output: Some(report.clone()),
    };
    crate::types::ValidationResponse {
        valid: results.pass_rate_ppm >= 800_000,
        quality_score_ppm: results.pass_rate_ppm,
        message,
        nist_results: Some(report),
        nist_data: Some(nist_data),
        debug_file: None,
    }
}

} // verus!
