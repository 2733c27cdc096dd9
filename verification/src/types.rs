//! The request and result records of the validation pipeline.
//!
//! Quality scores and p-values are fractions of one carried as
//! parts-per-million integers, so that the scoring arithmetic is exact.

use vstd::prelude::*;

verus! {

/// One whole, as parts per million: scores and p-values range over
/// `0..=PPM_ONE`.
pub const PPM_ONE: u32 = 1_000_000;

/// How the input text is to be read.
#[derive(Debug, PartialEq, Eq, Structural, Clone, Copy)]
pub enum InputFormat {
    Numbers,
    Base64,
}

impl Default for InputFormat {
    /// Numeric text is the default format.
    fn default() -> (r: Self)
        ensures
            r == InputFormat::Numbers,
    {
        InputFormat::Numbers
    }
}

/// A validation request: the payload and its optional parameters.
#[derive(Debug)]
pub struct ValidationRequest {
    /// Raw text: decimal numbers, or a base64 payload.
    pub numbers: String,
    /// How to read `numbers`.
    pub input_format: InputFormat,
    /// The intended minimum of the generator's range.
    pub range_min: Option<u32>,
    /// The intended maximum of the generator's range.
    pub range_max: Option<u32>,
    /// A forced fixed width: 8, 16 or 32 bits.
    pub bit_width: Option<u8>,
    /// Whether to write the bitstream to a debug file.
    pub debug_log: bool,
}

/// One statistical test's outcome.
#[derive(Debug)]
pub struct NistTestResult {
    pub name: String,
    pub passed: bool,
    /// The test's p-value in parts per million of one.
    pub p_value_ppm: u32,
    pub description: String,
}

/// The outcomes of a full tiered test run.
#[derive(Debug)]
pub struct NistResults {
    pub bit_count: usize,
    pub tests_passed: usize,
    pub total_tests: usize,
    /// The combined quality score in parts per million of one.
    pub success_rate_ppm: u32,
    pub individual_tests: Vec<NistTestResult>,
    pub fallback_message: Option<String>,
    pub raw_output: Option<String>,
}

/// The caller-facing verdict.
#[derive(Debug)]
pub struct ValidationResponse {
    pub valid: bool,
    /// The quality score in parts per million of one.
    pub quality_score_ppm: u32,
    pub message: String,
    pub nist_results: Option<String>,
    pub nist_data: Option<NistResults>,
    pub debug_file: Option<String>,
}

/// A test outcome carries a p-value no greater than one.
pub open spec fn outcome_valid(t: NistTestResult) -> bool {
    t.p_value_ppm <= PPM_ONE
}

} // verus!
