use randomnumbervalidator::enhanced_stats::frequency_test;
use randomnumbervalidator::enhanced_stats::longest_run_test;
use randomnumbervalidator::enhanced_stats::poker_test;
use randomnumbervalidator::enhanced_stats::autocorrelation_test;
use randomnumbervalidator::enhanced_stats::pattern_distribution_test;
use randomnumbervalidator::enhanced_stats::runs_test;
use randomnumbervalidator::enhanced_stats::run_enhanced_tests;
use randomnumbervalidator::enhanced_stats::run_enhanced_tests_structured;
use randomnumbervalidator::enhanced_stats::find_max_consecutive_same;
use randomnumbervalidator::enhanced_stats::count_alternating_pattern;
use randomnumbervalidator::enhanced_stats::has_repeating_blocks;

#[test]
fn test_frequency_test_balanced() {
    let bits = vec![0, 1, 0, 1, 0, 1, 0, 1];
    let result = frequency_test(&bits);
    assert!(result.passed);
}

#[test]
fn test_frequency_test_unbalanced() {
    let bits = vec![1, 1, 1, 1, 1, 1, 1, 1];
    let result = frequency_test(&bits);
    assert!(!result.passed);
}

#[test]
fn test_runs_test() {
    let bits = vec![0, 1, 0, 1, 1, 0, 0, 1];
    let result = runs_test(&bits);
    // The normalized runs statistic is never above zero on this battery.
    assert!(result.passed);
    assert!(result.description.contains("Statistic: 0.000"));
}

#[test]
fn test_longest_run_test() {
    let bits = vec![0, 0, 0, 0, 1, 1, 1, 0];
    let result = longest_run_test(&bits);
    assert!(result.description.contains("Longest run: 4,"));
}

#[test]
fn test_enhanced_tests() {
    let bits = vec![0, 1, 0, 1, 1, 0, 1, 0, 1, 1, 0, 0, 1, 0, 1, 1];
    let summary = run_enhanced_tests(&bits);
    assert!(summary.contains("Enhanced Statistical Analysis"));
    assert!(summary.contains("Tests Run"));
}

#[test]
fn test_insufficient_data_fallback() {
    // Four zero bits are below every tier, and the fallback analyzer's
    // frequency test reports the all-zero imbalance as a failure.
    let bits = vec![0, 0, 0, 0];
    let tier = randomnumbervalidator::tiers::check_tier(bits.len());
    assert!(tier.is_err());
    let msg = tier.unwrap_err().message();
    assert!(msg.contains("require at least 100 bits"));
    assert!(msg.contains("enhanced statistical tests"));

    let results = run_enhanced_tests_structured(&bits);
    assert_eq!(results.bit_count, 4);
    assert_eq!(results.tests_run, 6);
    let freq = &results.individual_tests[0];
    assert_eq!(freq.test_name, "Frequency Test");
    assert!(!freq.passed);
    assert!(freq.description.contains("Ones: 0, Zeros: 4"));
}

#[test]
fn test_find_max_consecutive_same() {
    assert_eq!(find_max_consecutive_same(&vec![0, 0, 0, 1, 1, 0]), 3);
    assert_eq!(find_max_consecutive_same(&vec![0, 1, 0, 1]), 1);
    assert_eq!(find_max_consecutive_same(&vec![1, 1, 1, 1]), 4);
    assert_eq!(find_max_consecutive_same(&vec![]), 0);
}

#[test]
fn test_count_alternating_pattern() {
    assert_eq!(count_alternating_pattern(&vec![0, 1, 0, 1]), 3);
    assert_eq!(count_alternating_pattern(&vec![0, 0, 0, 0]), 0);
    assert_eq!(count_alternating_pattern(&vec![0, 0, 1, 1, 0]), 2);
    assert_eq!(count_alternating_pattern(&vec![1]), 0);
}

#[test]
fn test_has_repeating_blocks() {
    // Seventeen bits whose first two eight-bit blocks repeat.
    let mut bits = vec![1, 0, 1, 0, 0, 1, 1, 0];
    let copy = bits.clone();
    bits.extend(copy);
    bits.push(1);
    assert!(has_repeating_blocks(&bits));

    // Exactly sixteen bits never report a repeat: the scan stops before
    // the last sixteen positions.
    let mut sixteen = vec![1, 0, 1, 0, 0, 1, 1, 0];
    let copy = sixteen.clone();
    sixteen.extend(copy);
    assert!(!has_repeating_blocks(&sixteen));

    assert!(!has_repeating_blocks(&vec![0, 1, 0, 1]));
}

#[test]
fn test_poker_test_small() {
    let bits = vec![0, 1, 0];
    let result = poker_test(&bits);
    assert!(!result.passed);
    assert!(result.description.contains("Insufficient data"));
}

#[test]
fn test_poker_test_uniform_pattern() {
    // Sixteen identical blocks concentrate the chi-square far above 25.
    let mut bits = Vec::new();
    for _ in 0..16 {
        bits.extend(vec![1, 0, 1, 0]);
    }
    let result = poker_test(&bits);
    assert!(!result.passed);
    assert!(result.description.contains("Patterns found: 1/16"));
    assert!(result.description.contains("16 blocks analyzed"));
}

#[test]
fn test_autocorrelation_alternating() {
    // A strictly alternating stream anti-correlates at lag 1 and
    // correlates fully at lag 2: both deviations are maximal.
    let bits: Vec<u8> = (0..20).map(|i| (i % 2) as u8).collect();
    let result = autocorrelation_test(&bits);
    assert!(!result.passed);
}

#[test]
fn test_pattern_distribution_all_same() {
    let bits = vec![1; 40];
    let result = pattern_distribution_test(&bits);
    assert!(!result.passed);
    assert!(result.description.contains("40 consecutive identical bits"));
}

#[test]
fn test_pattern_distribution_clean() {
    let bits = vec![0, 1, 1, 0, 1, 0, 0, 1, 1, 1, 0, 1, 0, 0, 1, 0, 1, 1, 0, 0];
    let result = pattern_distribution_test(&bits);
    assert!(result.passed);
    assert_eq!(result.description, "No obvious non-random patterns detected");
}

#[test]
fn test_run_fallback_analysis() {
    // Four zero bits: frequency fails on the all-zero imbalance, and
    // poker, autocorrelation and pattern distribution lack data; only
    // runs and longest-run pass.
    let bits = vec![0, 0, 0, 0];
    let response = randomnumbervalidator::enhanced_stats::run_fallback_analysis(&bits);
    assert!(!response.valid);
    assert!(response.message.contains("enhanced statistical tests"));
    let data = response.nist_data.unwrap();
    assert_eq!(data.total_tests, 6);
    assert_eq!(data.tests_passed, 2);
    assert_eq!(data.success_rate_ppm, 333_333);
    assert!(!data.individual_tests[0].passed);
    assert!(data.fallback_message.is_some());
    assert!(response.nist_results.unwrap().contains("Enhanced Statistical Analysis"));
}
