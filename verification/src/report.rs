//! Rendering a test run as text, and assembling the structured results.

use vstd::prelude::*;

verus! {

use vstd::string::StringExecFns;
use crate::digits::dec_str;
use crate::digits::digit_char;
use crate::digits::digit_to_char;
use crate::digits::push_char;
use crate::digits::append_u64;
use crate::types::NistTestResult;
use crate::types::NistResults;
use crate::types::ValidationResponse;
use crate::outcomes::RawTestOutcome;
use crate::outcomes::expand_outcomes;
use crate::outcomes::sort_by_name;
use crate::outcomes::sorted_by_name;
use crate::outcomes::keys_of;
use crate::outcomes::outcome_well_formed;
use crate::outcomes::expanded_keys;
use crate::outcomes::lemma_permutation_well_formed;
use crate::score::calculate_quality_score;
use crate::score::count_passed;
use crate::score::spec_success_rate_ppm;
use crate::tiers::TierDescriptor;
use crate::tiers::spec_tier_name;
use crate::tiers::spec_tier_description;
use crate::tiers::tier_min_bits;
use crate::tiers::tier_recommended_bits;

/// The p-value rendered with six decimal places.
pub open spec fn render_pvalue6(ppm: u32) -> Seq<char> {
    if ppm >= 1_000_000 {
        "1.000000"@
    } else {
        "0."@ + seq![
            digit_char((ppm / 100_000) as nat),
            digit_char(((ppm / 10_000) % 10) as nat),
            digit_char(((ppm / 1_000) % 10) as nat),
            digit_char(((ppm / 100) % 10) as nat),
            digit_char(((ppm / 10) % 10) as nat),
            digit_char((ppm % 10) as nat),
        ]
    }
}

/// A parts-per-million fraction rendered as a percentage with one
/// decimal place.
pub open spec fn render_percent1(ppm: u32) -> Seq<char> {
    dec_str((ppm / 10_000) as nat) + "."@ + seq![digit_char(((ppm / 1_000) % 10) as nat)]
}

/// One line of the individual-results listing.
pub open spec fn test_line(t: NistTestResult) -> Seq<char> {
    "  "@ + (if t.passed {
        "\u{2713}"@
    } else {
        "\u{2717}"@
    }) + " "@ + t.name@ + ": p-value = "@ + render_pvalue6(t.p_value_ppm) + "\n"@
}

/// The individual-results listing, in order.
pub open spec fn test_lines(tests: Seq<NistTestResult>) -> Seq<char>
    decreases tests.len(),
{
    if tests.len() == 0 {
        Seq::empty()
    } else {
        test_lines(tests.drop_last()) + test_line(tests.last())
    }
}

/// The level after this one; the top level stays.
pub open spec fn spec_next_level(level: u8) -> u8 {
    if level == 1 {
        2
    } else if level == 2 {
        3
    } else if level == 3 {
        4
    } else {
        5
    }
}

/// The closing coverage guidance of the report.
pub open spec fn tier_guidance(level: u8, total: int, recommended: nat) -> Seq<char> {
    if level < 5 {
        let nl = spec_next_level(level);
        "Current: Tier "@ + dec_str(level as nat) + " ("@ + spec_tier_description(level) + ") - "@
            + dec_str(total as nat) + " tests run\nRecommended: "@ + dec_str(recommended) + " bits (~"@
            + dec_str(recommended / 32) + " numbers) for optimal reliability\nNext Tier: Level "@
            + dec_str(nl as nat) + " ("@ + spec_tier_name(nl) + ") requires "@ + dec_str(
            tier_min_bits(nl),
        ) + " bits (~"@ + dec_str(tier_min_bits(nl) / 32) + " numbers)\n"@
    } else {
        "Maximum tier reached (Tier "@ + dec_str(level as nat)
            + "). All NIST tests available with optimal reliability.\n"@
    }
}

/// The whole textual report of one test run.
pub open spec fn raw_output_spec(
    bit_count: nat,
    tests: Seq<NistTestResult>,
    passed: int,
    total: int,
    score_ppm: u32,
    level: u8,
    recommended: nat,
) -> Seq<char> {
    "NIST Statistical Test Suite - Results\n======================================\n\nDataset: "@
        + dec_str(bit_count) + " bits\nTest Tier: Level "@ + dec_str(level as nat) + " - "@
        + spec_tier_name(level) + " ("@ + spec_tier_description(level) + ")\n\nOverall: "@
        + dec_str(passed as nat) + "/"@ + dec_str(total as nat)
        + " tests passed (binary pass/fail)\nQuality Score: "@ + render_percent1(score_ppm)
        + "% (weighted by p-values)\n\nIndividual Test Results:\n------------------------\n"@
        + test_lines(tests)
        + "\n\nAll tests use significance level \u{3b1} = 0.01\nTests pass if p-value \u{2265} 0.01\n\nTest Coverage:\n-------------\n"@
        + tier_guidance(level, total, recommended)
}

/// Append the six-decimal rendering of a p-value.
fn append_pvalue6(s: &mut String, ppm: u32)
    requires
        ppm <= 1_000_000,
    ensures
        final(s)@ == old(s)@ + render_pvalue6(ppm),
{
    if ppm >= 1_000_000 {
        s.append("1.000000");
        proof {
            assert(s@ =~= old(s)@ + render_pvalue6(ppm));
        }
    } else {
        s.append("0.");
        push_char(s, digit_to_char((ppm / 100_000) as u64));
        push_char(s, digit_to_char(((ppm / 10_000) % 10) as u64));
        push_char(s, digit_to_char(((ppm / 1_000) % 10) as u64));
        push_char(s, digit_to_char(((ppm / 100) % 10) as u64));
        push_char(s, digit_to_char(((ppm / 10) % 10) as u64));
        push_char(s, digit_to_char((ppm % 10) as u64));
        proof {
            assert(ppm / 100_000 < 10);
            assert(s@ =~= old(s)@ + render_pvalue6(ppm));
        }
    }
}

/// Append a percentage with one decimal place.
pub fn append_percent1(s: &mut String, ppm: u32)
    requires
        ppm <= 1_000_000,
    ensures
        final(s)@ == old(s)@ + render_percent1(ppm),
{
    append_u64(s, (ppm / 10_000) as u64);
    s.append(".");
    push_char(s, digit_to_char(((ppm / 1_000) % 10) as u64));
    proof {
        assert(s@ =~= old(s)@ + render_percent1(ppm));
    }
}

/// Render the whole textual report of one test run.
#[verifier::rlimit(100)]
pub fn generate_raw_output(
    bit_count: usize,
    tests: &Vec<NistTestResult>,
    passed: usize,
    total: usize,
    score_ppm: u32,
    tier: &TierDescriptor,
) -> (r: String)
    requires
        score_ppm <= 1_000_000,
        forall|i: int| 0 <= i < tests@.len() ==> (#[trigger] tests@[i]).p_value_ppm <= 1_000_000,
        tier.recommended_bits as nat == tier_recommended_bits(tier.level),
    ensures
        r@ == raw_output_spec(
            bit_count as nat,
            tests@,
            passed as int,
            total as int,
            score_ppm,
            tier.level,
            tier_recommended_bits(tier.level),
        ),
{
    let mut s = String::new();
    s.append(
        "NIST Statistical Test Suite - Results\n======================================\n\nDataset: ",
    );
    proof {
        assert(s@
            =~= "NIST Statistical Test Suite - Results\n======================================\n\nDataset: "@);
    }
    append_u64(&mut s, bit_count as u64);
    s.append(" bits\nTest Tier: Level ");
    append_u64(&mut s, tier.level as u64);
    s.append(" - ");
    let name = tier.name();
    s.append(name.as_str());
    s.append(" (");
    let desc = tier.description();
    s.append(desc.as_str());
    s.append(")\n\nOverall: ");
    append_u64(&mut s, passed as u64);
    s.append("/");
    append_u64(&mut s, total as u64);
    s.append(" tests passed (binary pass/fail)\nQuality Score: ");
    append_percent1(&mut s, score_ppm);
    s.append("% (weighted by p-values)\n\nIndividual Test Results:\n------------------------\n");
    let ghost header = s@;

    let mut i: usize = 0;
    proof {
        assert(tests@.take(0) =~= Seq::<NistTestResult>::empty());
        assert(s@ =~= header + test_lines(tests@.take(0)));
    }
    while i < tests.len()
        invariant
            0 <= i <= tests@.len(),
            forall|k: int| 0 <= k < tests@.len() ==> (#[trigger] tests@[k]).p_value_ppm
                <= 1_000_000,
            s@ == header + test_lines(tests@.take(i as int)),
        decreases tests@.len() - i,
    {
        let t = &tests[i];
        s.append("  ");
        if t.passed {
            s.append("\u{2713}");
        } else {
            s.append("\u{2717}");
        }
        s.append(" ");
        s.append(t.name.as_str());
        s.append(": p-value = ");
        append_pvalue6(&mut s, t.p_value_ppm);
        s.append("\n");
        proof {
            assert(tests@.take(i + 1).drop_last() =~= tests@.take(i as int));
            assert(tests@.take(i + 1).last() == tests@[i as int]);
            assert(s@ =~= header + test_lines(tests@.take(i + 1)));
        }
        i = i + 1;
    }
    proof {
        assert(tests@.take(tests@.len() as int) =~= tests@);
    }

    s.append(
        "\n\nAll tests use significance level \u{3b1} = 0.01\nTests pass if p-value \u{2265} 0.01\n\nTest Coverage:\n-------------\n",
    );

    let mut gs = String::new();
    if tier.level < 5 {
        let next_level: u8 = if tier.level == 1 {
            2
        } else if tier.level == 2 {
            3
        } else if tier.level == 3 {
            4
        } else {
            5
        };
        let next = TierDescriptor {
            level: next_level,
            min_bits: if next_level == 2 {
                1_000
            } else if next_level == 3 {
                10_000
            } else if next_level == 4 {
                100_000
            } else {
                1_000_000
            },
            recommended_bits: 0,
        };
        gs.append("Current: Tier ");
        proof {
            assert(gs@ =~= "Current: Tier "@);
        }
        append_u64(&mut gs, tier.level as u64);
        gs.append(" (");
        let desc2 = tier.description();
        gs.append(desc2.as_str());
        gs.append(") - ");
        append_u64(&mut gs, total as u64);
        gs.append(" tests run\nRecommended: ");
        append_u64(&mut gs, tier.recommended_bits as u64);
        gs.append(" bits (~");
        append_u64(&mut gs, (tier.recommended_bits / 32) as u64);
        gs.append(" numbers) for optimal reliability\nNext Tier: Level ");
        append_u64(&mut gs, next.level as u64);
        gs.append(" (");
        let nname = next.name();
        gs.append(nname.as_str());
        gs.append(") requires ");
        append_u64(&mut gs, next.min_bits as u64);
        gs.append(" bits (~");
        append_u64(&mut gs, (next.min_bits / 32) as u64);
        gs.append(" numbers)\n");
        proof {
            assert(next.min_bits as nat == tier_min_bits(spec_next_level(tier.level)));
            assert(gs@ == tier_guidance(
                tier.level,
                total as int,
                tier_recommended_bits(tier.level),
            ));
        }
    } else {
        gs.append("Maximum tier reached (Tier ");
        proof {
            assert(gs@ =~= "Maximum tier reached (Tier "@);
        }
        append_u64(&mut gs, tier.level as u64);
        gs.append("). All NIST tests available with optimal reliability.\n");
        proof {
            assert(gs@ == tier_guidance(
                tier.level,
                total as int,
                tier_recommended_bits(tier.level),
            ));
        }
    }
    s.append(gs.as_str());
    proof {
        assert(s@ == raw_output_spec(
            bit_count as nat,
            tests@,
            passed as int,
            total as int,
            score_ppm,
            tier.level,
            tier_recommended_bits(tier.level),
        ));
    }
    s
}

/// Build the structured results of one tiered run: fan the raw results
/// out, sort them by name for deterministic display, score them, and
/// render the report.
pub fn collect_test_results(
    bit_count: usize,
    raw: &Vec<RawTestOutcome>,
    tier: &TierDescriptor,
) -> (r: NistResults)
    requires
        forall|i: int, j: int|
            0 <= i < raw@.len() && 0 <= j < raw@[i].results@.len() ==> (#[trigger] raw@[i].results@[j]).1
                <= 1_000_000,
        tier.recommended_bits as nat == tier_recommended_bits(tier.level),
    ensures
        r.bit_count == bit_count,
        sorted_by_name(r.individual_tests@),
        exists|e: Seq<NistTestResult>|
            #[trigger] keys_of(e) == expanded_keys(raw@) && r.individual_tests@.to_multiset()
                == e.to_multiset(),
        forall|i: int|
            0 <= i < r.individual_tests@.len() ==> outcome_well_formed(
                #[trigger] r.individual_tests@[i],
            ),
        r.tests_passed as int == count_passed(r.individual_tests@),
        r.total_tests == r.individual_tests@.len(),
        r.success_rate_ppm as int == spec_success_rate_ppm(r.individual_tests@),
        r.success_rate_ppm <= 1_000_000,
        r.fallback_message is None,
        r.raw_output matches Some(o) && o@ == raw_output_spec(
            bit_count as nat,
            r.individual_tests@,
            count_passed(r.individual_tests@),
            r.individual_tests@.len() as int,
            r.success_rate_ppm,
            tier.level,
            tier_recommended_bits(tier.level),
        ),
{
    let expanded = expand_outcomes(raw);
    let ghost e = expanded@;
    proof {
        assert(keys_of(e) == expanded_keys(raw@));
    }
    let individual_tests = sort_by_name(expanded);
    proof {
        lemma_permutation_well_formed(e, individual_tests@);
    }
    let (passed, total, _avg, score) = calculate_quality_score(&individual_tests);
    let raw_text = generate_raw_output(bit_count, &individual_tests, passed, total, score, tier);
    NistResults {
        bit_count,
        tests_passed: passed,
        total_tests: total,
        success_rate_ppm: score,
        individual_tests,
        fallback_message: None,
        raw_output: Some(raw_text),
    }
}


/// The caller-facing message of a successful run.
pub open spec fn success_message_spec(bit_count: nat, passed: int, total: int) -> Seq<char> {
    "Analyzed "@ + dec_str(bit_count) + " bits using "@ + dec_str(total as nat)
        + " NIST tests ("@ + dec_str(passed as nat) + "/"@ + dec_str(total as nat) + " passed)"@
}

/// The response for a completed tiered run.  It is valid exactly when
/// the quality score reaches eight tenths.
pub fn success_response(nist: NistResults) -> (r: ValidationResponse)
    requires
        nist.success_rate_ppm <= 1_000_000,
    ensures
        r.valid == crate::score::spec_valid(nist.success_rate_ppm as int),
        r.quality_score_ppm == nist.success_rate_ppm,
        r.message@ == success_message_spec(
            nist.bit_count as nat,
            nist.tests_passed as int,
            nist.total_tests as int,
        ),
        r.nist_data == Some(nist),
        nist.raw_output matches Some(o) ==> r.nist_results == Some(o),
        nist.raw_output is None ==> r.nist_results is None,
        r.debug_file is None,
{
    let valid = nist.success_rate_ppm >= 800_000;
    let mut message = String::new();
    message.append("Analyzed ");
    proof {
        assert(message@ =~= "Analyzed "@);
    }
    append_u64(&mut message, nist.bit_count as u64);
    message.append(" bits using ");
    append_u64(&mut message, nist.total_tests as u64);
    message.append(" NIST tests (");
    append_u64(&mut message, nist.tests_passed as u64);
    message.append("/");
    append_u64(&mut message, nist.total_tests as u64);
    message.append(" passed)");
    let nist_results = match &nist.raw_output {
        Some(o) => Some(o.clone()),
        None => None,
    };
    ValidationResponse {
        valid,
        quality_score_ppm: nist.success_rate_ppm,
        message,
        nist_results,
        nist_data: Some(nist),
        debug_file: None,
    }
}

/// The response for a failed run.  It is never valid, carries a zero
/// quality score, and keeps the failure's own message.
pub fn failure_response(message: String) -> (r: ValidationResponse)
    ensures
        !r.valid,
        r.quality_score_ppm == 0,
        r.message == message,
        r.nist_results is None,
        r.nist_data is None,
        r.debug_file is None,
{
    ValidationResponse {
        valid: false,
        quality_score_ppm: 0,
        message,
        nist_results: None,
        nist_data: None,
        debug_file: None,
    }
}

} // verus!
