//! Reducing test outcomes to one quality score.
//!
//! The score weighs the pass rate at eighty percent and the p-value
//! distribution at twenty: for genuinely random data the passing tests'
//! p-values should average near one half, so the secondary term
//! penalizes the average's distance from it.  All arithmetic is over
//! parts-per-million integers and exact.

use vstd::prelude::*;

verus! {

use crate::types::NistTestResult;
use crate::types::outcome_valid;

/// How many of the outcomes passed.
pub open spec fn count_passed(s: Seq<NistTestResult>) -> int
    decreases s.len(),
{
    if s.len() == 0 {
        0
    } else {
        count_passed(s.drop_last()) + (if s.last().passed {
            1int
        } else {
            0int
        })
    }
}

/// The sum of every outcome's p-value, in parts per million.
pub open spec fn sum_ppm(s: Seq<NistTestResult>) -> int
    decreases s.len(),
{
    if s.len() == 0 {
        0
    } else {
        sum_ppm(s.drop_last()) + s.last().p_value_ppm
    }
}

/// The sum of the passing outcomes' p-values, in parts per million.
pub open spec fn sum_passed_ppm(s: Seq<NistTestResult>) -> int
    decreases s.len(),
{
    if s.len() == 0 {
        0
    } else {
        sum_passed_ppm(s.drop_last()) + (if s.last().passed {
            s.last().p_value_ppm as int
        } else {
            0int
        })
    }
}

/// The distance of the passing average from the ideal one half,
/// converted to a quality between zero and one: zero p-value quality
/// where nothing passes.
pub open spec fn spec_p_value_quality_ppm(s: Seq<NistTestResult>) -> int {
    if count_passed(s) == 0 {
        0
    } else {
        let avg = sum_passed_ppm(s) / count_passed(s);
        let deviation = if avg >= 500_000 {
            avg - 500_000
        } else {
            500_000 - avg
        };
        if 1_000_000 - 2 * deviation >= 0 {
            1_000_000 - 2 * deviation
        } else {
            0
        }
    }
}

/// The combined score: pass rate at eighty percent weight, p-value
/// quality at twenty.
pub open spec fn spec_success_rate_ppm(s: Seq<NistTestResult>) -> int {
    if s.len() == 0 {
        0
    } else {
        (8 * (count_passed(s) * 1_000_000 / s.len() as int) + 2 * spec_p_value_quality_ppm(s)) / 10
    }
}

/// A verdict of valid needs a score of at least eight tenths.
pub open spec fn spec_valid(score_ppm: int) -> bool {
    score_ppm >= 800_000
}

/// Every partial count of passes stays within the length.
proof fn lemma_count_passed_bounds(s: Seq<NistTestResult>)
    ensures
        0 <= count_passed(s) <= s.len(),
    decreases s.len(),
{
    if s.len() > 0 {
        lemma_count_passed_bounds(s.drop_last());
    }
}

/// With valid outcomes the passing sum stays within one per pass.
proof fn lemma_sum_passed_bounds(s: Seq<NistTestResult>)
    requires
        forall|i: int| 0 <= i < s.len() ==> outcome_valid(#[trigger] s[i]),
    ensures
        0 <= sum_passed_ppm(s) <= count_passed(s) * 1_000_000,
    decreases s.len(),
{
    if s.len() > 0 {
        assert(forall|i: int|
            0 <= i < s.len() - 1 ==> outcome_valid(#[trigger] s.drop_last()[i]));
        lemma_sum_passed_bounds(s.drop_last());
        lemma_count_passed_bounds(s.drop_last());
        assert(outcome_valid(s[s.len() - 1]));
        assert(s.last() == s[s.len() - 1]);
        let c0 = count_passed(s.drop_last());
        if s.last().passed {
            assert((c0 + 1) * 1_000_000 == c0 * 1_000_000 + 1_000_000) by (nonlinear_arith);
        }
    }
}

/// The total p-value sum is valid too.
proof fn lemma_sum_ppm_bounds(s: Seq<NistTestResult>)
    requires
        forall|i: int| 0 <= i < s.len() ==> outcome_valid(#[trigger] s[i]),
    ensures
        0 <= sum_ppm(s) <= s.len() * 1_000_000,
    decreases s.len(),
{
    if s.len() > 0 {
        assert(forall|i: int|
            0 <= i < s.len() - 1 ==> outcome_valid(#[trigger] s.drop_last()[i]));
        lemma_sum_ppm_bounds(s.drop_last());
        assert(outcome_valid(s[s.len() - 1]));
        assert(s.last() == s[s.len() - 1]);
        assert(s.len() * 1_000_000 == (s.len() - 1) * 1_000_000 + 1_000_000) by (nonlinear_arith);
    }
}

/// The quality score is always a fraction of one: between zero and one
/// million parts per million, with the verdict exactly at the eight
/// tenths threshold.
pub proof fn lemma_quality_score_bounds(s: Seq<NistTestResult>)
    requires
        forall|i: int| 0 <= i < s.len() ==> outcome_valid(#[trigger] s[i]),
    ensures
        0 <= spec_success_rate_ppm(s) <= 1_000_000,
        spec_valid(spec_success_rate_ppm(s)) <==> spec_success_rate_ppm(s) >= 800_000,
{
    if s.len() > 0 {
        lemma_count_passed_bounds(s);
        lemma_sum_passed_bounds(s);
        let c = count_passed(s);
        let n = s.len() as int;
        let pr = c * 1_000_000 / n;
        assert(0 <= pr <= 1_000_000) by (nonlinear_arith)
            requires
                0 <= c <= n,
                0 < n,
                pr == c * 1_000_000 / n,
        ;
        let q = spec_p_value_quality_ppm(s);
        if c > 0 {
            let avg = sum_passed_ppm(s) / c;
            assert(0 <= avg <= 1_000_000) by (nonlinear_arith)
                requires
                    0 < c,
                    0 <= sum_passed_ppm(s) <= c * 1_000_000,
                    avg == sum_passed_ppm(s) / c,
            ;
        }
        assert(0 <= q <= 1_000_000);
        assert(0 <= (8 * pr + 2 * q) / 10 <= 1_000_000) by (nonlinear_arith)
            requires
                0 <= pr <= 1_000_000,
                0 <= q <= 1_000_000,
        ;
    }
}

/// Reduce the outcomes to `(passed, total, average p-value, score)`,
/// each of the last two in parts per million.
pub fn calculate_quality_score(tests: &Vec<NistTestResult>) -> (r: (usize, usize, u32, u32))
    requires
        forall|i: int| 0 <= i < tests@.len() ==> outcome_valid(#[trigger] tests@[i]),
    ensures
        r.0 == count_passed(tests@),
        r.1 == tests@.len(),
        tests@.len() > 0 ==> r.2 as int == sum_ppm(tests@) / tests@.len() as int,
        tests@.len() == 0 ==> r.2 == 0,
        r.3 as int == spec_success_rate_ppm(tests@),
        r.3 <= 1_000_000,
{
    let total = tests.len();
    let mut passed: usize = 0;
    let mut sum_all: u128 = 0;
    let mut sum_pass: u128 = 0;
    let mut i: usize = 0;
    proof {
        assert(tests@.take(0) =~= Seq::<NistTestResult>::empty());
    }
    while i < total
        invariant
            0 <= i <= total,
            total == tests@.len(),
            forall|k: int| 0 <= k < tests@.len() ==> outcome_valid(#[trigger] tests@[k]),
            passed as int == count_passed(tests@.take(i as int)),
            sum_all as int == sum_ppm(tests@.take(i as int)),
            sum_pass as int == sum_passed_ppm(tests@.take(i as int)),
            passed <= i,
            sum_all <= i as u128 * 1_000_000,
            sum_pass <= i as u128 * 1_000_000,
        decreases total - i,
    {
        proof {
            assert(tests@.take(i + 1).drop_last() =~= tests@.take(i as int));
            assert(tests@.take(i + 1).last() == tests@[i as int]);
            assert((i + 1) as u128 * 1_000_000 == i as u128 * 1_000_000 + 1_000_000)
                by (nonlinear_arith);
        }
        let t = &tests[i];
        sum_all = sum_all + t.p_value_ppm as u128;
        if t.passed {
            passed = passed + 1;
            sum_pass = sum_pass + t.p_value_ppm as u128;
        }
        i = i + 1;
    }
    proof {
        assert(tests@.take(total as int) =~= tests@);
        lemma_count_passed_bounds(tests@);
        lemma_sum_passed_bounds(tests@);
        lemma_sum_ppm_bounds(tests@);
        lemma_quality_score_bounds(tests@);
    }

    if total == 0 {
        return (0, 0, 0, 0);
    }

    let avg_all: u32 = (sum_all / total as u128) as u32;
    proof {
        let n = tests@.len() as int;
        assert(sum_ppm(tests@) / n <= 1_000_000) by (nonlinear_arith)
            requires
                0 < n,
                0 <= sum_ppm(tests@) <= n * 1_000_000,
        ;
    }

    let pass_rate_ppm: u32 = ((passed as u128 * 1_000_000) / total as u128) as u32;
    proof {
        let n = tests@.len() as int;
        let c = count_passed(tests@);
        assert(c * 1_000_000 / n <= 1_000_000) by (nonlinear_arith)
            requires
                0 < n,
                0 <= c <= n,
        ;
    }

    let p_quality_ppm: u32 = if passed == 0 {
        0
    } else {
        let avg_pass: u64 = (sum_pass / passed as u128) as u64;
        proof {
            let c = count_passed(tests@);
            assert(sum_passed_ppm(tests@) / c <= 1_000_000) by (nonlinear_arith)
                requires
                    0 < c,
                    0 <= sum_passed_ppm(tests@) <= c * 1_000_000,
            ;
        }
        let deviation: u64 = if avg_pass >= 500_000 {
            avg_pass - 500_000
        } else {
            500_000 - avg_pass
        };
        if 2 * deviation <= 1_000_000 {
            (1_000_000 - 2 * deviation) as u32
        } else {
            0
        }
    };
    let score: u32 = ((8u64 * pass_rate_ppm as u64 + 2u64 * p_quality_ppm as u64) / 10) as u32;
    (passed, total, avg_all, score)
}

} // verus!
