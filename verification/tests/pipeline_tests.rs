use randomnumbervalidator::pack_bits_to_bytes;
use randomnumbervalidator::tiers::determine_tier;
use randomnumbervalidator::tiers::get_all_tests;
use randomnumbervalidator::tiers::parameter_plan;
use randomnumbervalidator::tiers::TestKind;
use randomnumbervalidator::tiers::TestPlan;
use randomnumbervalidator::types::NistTestResult;
use randomnumbervalidator::score::calculate_quality_score;
use randomnumbervalidator::outcomes::RawTestOutcome;
use randomnumbervalidator::report::collect_test_results;
use randomnumbervalidator::report::success_response;
use randomnumbervalidator::report::failure_response;

#[test]
fn test_pack_bits_to_bytes() {
    // Test: 8 bits should pack into 1 byte
    let bits = vec![1, 0, 1, 0, 1, 0, 1, 0];
    let packed = pack_bits_to_bytes(&bits);
    assert_eq!(packed.len(), 1);
    assert_eq!(packed[0], 0b10101010);
}

#[test]
fn test_pack_bits_to_bytes_partial() {
    // Test: 12 bits should pack into 2 bytes (last byte padded)
    let bits = vec![1, 1, 1, 1, 0, 0, 0, 0, 1, 0, 1, 0];
    let packed = pack_bits_to_bytes(&bits);
    assert_eq!(packed.len(), 2);
    assert_eq!(packed[0], 0b11110000);
    assert_eq!(packed[1], 0b10100000); // Padded with zeros
}

#[test]
fn test_pack_bits_all_zeros() {
    let bits = vec![0, 0, 0, 0, 0, 0, 0, 0];
    let packed = pack_bits_to_bytes(&bits);
    assert_eq!(packed.len(), 1);
    assert_eq!(packed[0], 0);
}

#[test]
fn test_pack_bits_all_ones() {
    let bits = vec![1, 1, 1, 1, 1, 1, 1, 1];
    let packed = pack_bits_to_bytes(&bits);
    assert_eq!(packed.len(), 1);
    assert_eq!(packed[0], 0xFF);
}

#[test]
fn test_determine_tier_boundaries() {
    assert_eq!(determine_tier(0).level, 0);
    assert_eq!(determine_tier(99).level, 0);
    assert_eq!(determine_tier(99).recommended_bits, 100);
    assert_eq!(determine_tier(100).level, 1);
    assert_eq!(determine_tier(999).level, 1);
    assert_eq!(determine_tier(1_000).level, 2);
    assert_eq!(determine_tier(10_000).level, 3);
    assert_eq!(determine_tier(100_000).level, 4);
    assert_eq!(determine_tier(1_000_000).level, 5);
    assert_eq!(determine_tier(50_000_000).level, 5);
}

#[test]
fn test_get_all_tests_table() {
    let tests = get_all_tests();
    assert_eq!(tests.len(), 17);
    assert_eq!(tests[0].name, "Frequency");
    assert_eq!(tests[0].tier, 1);
    assert!(tests[0].min_bits.is_none());
    assert_eq!(tests[3].name, "Universal");
    assert_eq!(tests[3].min_bits, Some(1000));
    assert_eq!(tests[16].name, "LinearComplexity");
    assert_eq!(tests[16].tier, 4);
    assert_eq!(tests[16].min_bits, Some(10000));
}

#[test]
fn test_should_run_gates() {
    let tests = get_all_tests();
    // Frequency runs from tier 1 on.
    assert!(tests[0].should_run(1, 150));
    // Universal needs 1000 bits even inside tier 1.
    assert!(!tests[3].should_run(1, 150));
    assert!(tests[3].should_run(2, 1000));
    // LinearComplexity needs tier 4.
    assert!(!tests[16].should_run(3, 50_000));
    assert!(tests[16].should_run(4, 100_000));
}

#[test]
fn test_parameter_plans() {
    // Block frequency uses 100-bit blocks from 1000 bits on, a tenth
    // of the stream below.
    assert_eq!(
        parameter_plan(&TestKind::BlockFrequency, 1_000),
        TestPlan::RunWith { parameter: 100 }
    );
    assert_eq!(
        parameter_plan(&TestKind::BlockFrequency, 500),
        TestPlan::RunWith { parameter: 50 }
    );
    assert_eq!(parameter_plan(&TestKind::BlockFrequency, 5), TestPlan::Skip);
    // Serial needs a block order of at least two.
    assert_eq!(parameter_plan(&TestKind::SerialFirst, 150), TestPlan::Skip);
    assert_eq!(
        parameter_plan(&TestKind::SerialFirst, 300),
        TestPlan::RunWith { parameter: 3 }
    );
    assert_eq!(
        parameter_plan(&TestKind::SerialFirst, 5_000),
        TestPlan::RunWith { parameter: 16 }
    );
    // Linear complexity needs blocks of at least 100.
    assert_eq!(parameter_plan(&TestKind::LinearComplexity, 5_000), TestPlan::Skip);
    assert_eq!(
        parameter_plan(&TestKind::LinearComplexity, 20_000),
        TestPlan::RunWith { parameter: 200 }
    );
    // Frequency has no parameter.
    assert_eq!(parameter_plan(&TestKind::Frequency, 100), TestPlan::Run);
}

fn outcome(name: &str, passed: bool, p_value_ppm: u32) -> NistTestResult {
    NistTestResult {
        name: name.to_string(),
        passed,
        p_value_ppm,
        description: String::new(),
    }
}

#[test]
fn test_quality_score_ideal() {
    // Two passing tests averaging exactly one half score a full mark.
    let tests = vec![outcome("A", true, 500_000), outcome("B", true, 500_000)];
    let (passed, total, avg, score) = calculate_quality_score(&tests);
    assert_eq!(passed, 2);
    assert_eq!(total, 2);
    assert_eq!(avg, 500_000);
    assert_eq!(score, 1_000_000);
}

#[test]
fn test_quality_score_half_passing() {
    // One of two passes with an ideal p-value: 0.8 * 0.5 + 0.2 * 1.0 = 0.6.
    let tests = vec![outcome("A", true, 500_000), outcome("B", false, 1_000)];
    let (passed, total, _avg, score) = calculate_quality_score(&tests);
    assert_eq!(passed, 1);
    assert_eq!(total, 2);
    assert_eq!(score, 600_000);
}

#[test]
fn test_quality_score_marginal_pvalues() {
    // Everything passes but the p-values hug the threshold: the
    // distribution term drags the score down.
    let tests = vec![outcome("A", true, 10_000), outcome("B", true, 10_000)];
    let (_passed, _total, _avg, score) = calculate_quality_score(&tests);
    // pass rate 1.0, quality 1 - 2*0.49 = 0.02: score 0.8 + 0.004.
    assert_eq!(score, 804_000);
}

#[test]
fn test_quality_score_none() {
    let tests: Vec<NistTestResult> = Vec::new();
    let (passed, total, avg, score) = calculate_quality_score(&tests);
    assert_eq!((passed, total, avg, score), (0, 0, 0, 0));
}

#[test]
fn test_collect_results_sorted_and_named() {
    let raw = vec![
        RawTestOutcome {
            name: "Serial".to_string(),
            results: vec![(true, 300_000), (false, 2_000)],
        },
        RawTestOutcome { name: "Frequency".to_string(), results: vec![(true, 700_000)] },
    ];
    let tier = determine_tier(150);
    let results = collect_test_results(150, &raw, &tier);
    assert_eq!(results.bit_count, 150);
    assert_eq!(results.total_tests, 3);
    assert_eq!(results.tests_passed, 2);
    let names: Vec<&str> =
        results.individual_tests.iter().map(|t| t.name.as_str()).collect();
    assert_eq!(names, vec!["Frequency", "Serial-1", "Serial-2"]);
    assert_eq!(results.individual_tests[0].description, "P-value: 0.7000");
    let raw_text = results.raw_output.clone().unwrap();
    assert!(raw_text.contains("Dataset: 150 bits"));
    assert!(raw_text.contains("Test Tier: Level 1 - Minimal"));
    assert!(raw_text.contains("Serial-1: p-value = 0.300000"));
}

#[test]
fn test_success_response_verdict() {
    let raw = vec![RawTestOutcome { name: "Frequency".to_string(), results: vec![(true, 500_000)] }];
    let tier = determine_tier(150);
    let results = collect_test_results(150, &raw, &tier);
    // One passing test with the ideal p-value scores a full mark.
    assert_eq!(results.success_rate_ppm, 1_000_000);
    let response = success_response(results);
    assert!(response.valid);
    assert_eq!(response.quality_score_ppm, 1_000_000);
    assert_eq!(response.message, "Analyzed 150 bits using 1 NIST tests (1/1 passed)");
    assert!(response.nist_results.is_some());
    assert!(response.nist_data.is_some());
}

#[test]
fn test_failure_response_shape() {
    let response = failure_response("No numbers provided".to_string());
    assert!(!response.valid);
    assert_eq!(response.quality_score_ppm, 0);
    assert_eq!(response.message, "No numbers provided");
    assert!(response.nist_data.is_none());
}

#[test]
fn test_fixed_width_bit_pattern() {
    // 0 and 42 in eight bits each: 00000000 00101010.
    let bits = randomnumbervalidator::prepare_input_for_nist("0,42").unwrap();
    assert_eq!(
        bits,
        vec![0, 0, 0, 0, 0, 0, 0, 0, 0, 0, 1, 0, 1, 0, 1, 0]
    );
}

#[test]
fn test_failure_responses_for_bad_inputs() {
    // Empty, letter-bearing, and overflowing inputs each produce a
    // described failure with a zero score.
    let cases = vec![
        ("", "No numbers provided"),
        ("abc", "letters"),
        ("4294967296", "Invalid number format"),
    ];
    for (input, expected) in cases {
        let err = randomnumbervalidator::prepare_input_for_nist(input).unwrap_err();
        assert!(err.contains(expected), "wrong message for {:?}: {}", input, err);
        let response = failure_response(err);
        assert!(!response.valid);
        assert_eq!(response.quality_score_ppm, 0);
        assert!(!response.message.is_empty());
    }
}
