//! Assessment of whether a sequence of numbers or raw bytes looks random.
//!
//! The pipeline turns textual input (decimal numbers or base64 payloads)
//! into a flat bitstream, selects which statistical tests the amount of
//! data supports, and reduces the per-test outcomes into a single quality
//! score and verdict.  Quality scores and p-values are carried as
//! parts-per-million integers so that every step of the arithmetic is
//! exact and verified.

pub mod b64;
pub mod bignum;
pub mod bits;
pub mod digits;
pub mod encoder;
pub mod enhanced_stats;
pub mod errors;
pub mod outcomes;
pub mod parse;
pub mod report;
pub mod score;
pub mod tiers;
pub mod types;

pub use b64::parse_base64_to_bits;
pub use bits::pack_bits_to_bytes;
pub use encoder::convert_to_bits_base_conversion;
pub use encoder::prepare_input_for_nist;
pub use encoder::prepare_input_for_nist_with_range;
pub use encoder::prepare_input_for_nist_with_range_and_bitwidth;
pub use encoder::prepare_input_with_format;
pub use types::InputFormat;
pub use types::NistResults;
pub use types::NistTestResult;
pub use types::ValidationRequest;
pub use types::ValidationResponse;
