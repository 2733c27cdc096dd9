//! Typed failures of the input-to-bitstream pipeline.
//!
//! Every failure is a value, never a panic.  `message` renders the exact
//! text the callers hand to their users; `spec_message` is its contract.

use vstd::prelude::*;

verus! {

use vstd::string::StringExecFns;
use crate::digits::dec_str;
use crate::digits::append_u64;

/// Why input could not be turned into a bitstream.
#[derive(Debug)]
pub enum EncodeError {
    /// The text holds letters; only digits and delimiters are accepted.
    InvalidCharacter,
    /// No digit run was found in the text.
    EmptyInput,
    /// A digit run exceeds the largest unsigned 32-bit value.
    NumericOverflow,
    /// Numbers do not start at zero and no explicit range was supplied.
    RangeRequired { actual_min: u32, actual_max: u32 },
    /// An explicit range was supplied with its minimum above its maximum.
    RangeInverted { min: u32, max: u32 },
    /// A number falls outside the explicitly supplied range.
    RangeViolation { actual_min: u32, actual_max: u32, min: u32, max: u32 },
    /// A number exceeds the maximum of the explicitly forced bit width.
    BitWidthExceeded { actual_max: u32, bit_width: u8, max_value: u32 },
    /// The forced bit width is not one of 8, 16 or 32.
    InvalidBitWidth { bit_width: u8 },
    /// The base64 payload failed to decode; the detail comes from the
    /// decoder.
    InvalidEncoding { detail: String },
    /// The base64 payload decoded to no bytes at all.
    EmptyEncoding,
    /// Trimming the base-converted stream to its entropy bound would
    /// drop a nonzero bit; this would indicate defective accounting.
    TrimmedNonzero { to_trim: usize, leading_zeros: usize },
    /// The bitstream is too short for even the smallest test tier.
    InsufficientData { bit_count: usize },
}

/// The exact text for each failure.
pub open spec fn spec_message(e: EncodeError) -> Seq<char> {
    match e {
        EncodeError::InvalidCharacter => {
            "Input contains letters - only numbers and delimiters are allowed"@
        },
        EncodeError::EmptyInput => "No numbers provided"@,
        EncodeError::NumericOverflow => "Invalid number format"@,
        EncodeError::RangeRequired { actual_min, actual_max } => {
            "Numbers range from "@ + dec_str(actual_min as nat) + " to "@ + dec_str(
                actual_max as nat,
            )
                + ", which doesn't fit standard bit widths (0-255, 0-65535, or 0-4294967295). Please specify the intended range of your random number generator using range_min and range_max fields. For example, if you're generating numbers 1-100, set range_min=1 and range_max=100."@
        },
        EncodeError::RangeInverted { min, max } => {
            "Invalid range: min ("@ + dec_str(min as nat) + ") > max ("@ + dec_str(max as nat)
                + ")"@
        },
        EncodeError::RangeViolation { actual_min, actual_max, min, max } => {
            "Numbers ("@ + dec_str(actual_min as nat) + "-"@ + dec_str(actual_max as nat)
                + ") outside specified range ("@ + dec_str(min as nat) + "-"@ + dec_str(max as nat)
                + ")"@
        },
        EncodeError::BitWidthExceeded { actual_max, bit_width, max_value } => {
            "Number "@ + dec_str(actual_max as nat) + " exceeds "@ + dec_str(bit_width as nat)
                + "-bit maximum value of "@ + dec_str(max_value as nat)
                + ". Please select a larger bit-width or use custom range."@
        },
        EncodeError::InvalidBitWidth { bit_width } => {
            "Invalid bit_width: "@ + dec_str(bit_width as nat) + ". Must be 8, 16, or 32."@
        },
        EncodeError::InvalidEncoding { detail } => "Invalid base64 input: "@ + detail@,
        EncodeError::EmptyEncoding => "Base64 decoded to empty data"@,
        EncodeError::TrimmedNonzero { to_trim, leading_zeros } => {
            "Value too large: need to trim "@ + dec_str(to_trim as nat) + " bits but only "@
                + dec_str(leading_zeros as nat) + " leading zeros available"@
        },
        EncodeError::InsufficientData { bit_count } => {
            "NIST statistical tests require at least 100 bits (~3 numbers with 32-bit encoding) for basic tests. You provided "@
                + dec_str(bit_count as nat) + " bits (~"@ + dec_str((bit_count / 32) as nat)
                + " numbers). The system will use enhanced statistical tests instead, which are designed for smaller datasets."@
        },
    }
}

impl EncodeError {
    /// Render the failure as the exact user-facing text.
    pub fn message(&self) -> (r: String)
        ensures
            r@ == spec_message(*self),
    {
        match self {
            EncodeError::InvalidCharacter => {
                let mut s = String::new();
                s.append("Input contains letters - only numbers and delimiters are allowed");
                proof {
                    assert(s@ =~= spec_message(*self));
                }
                s
            },
            EncodeError::EmptyInput => {
                let mut s = String::new();
                s.append("No numbers provided");
                proof {
                    assert(s@ =~= spec_message(*self));
                }
                s
            },
            EncodeError::NumericOverflow => {
                let mut s = String::new();
                s.append("Invalid number format");
                proof {
                    assert(s@ =~= spec_message(*self));
                }
                s
            },
            EncodeError::RangeRequired { actual_min, actual_max } => {
                let mut s = String::new();
                s.append("Numbers range from ");
                append_u64(&mut s, *actual_min as u64);
                s.append(" to ");
                append_u64(&mut s, *actual_max as u64);
                s.append(
                    ", which doesn't fit standard bit widths (0-255, 0-65535, or 0-4294967295). Please specify the intended range of your random number generator using range_min and range_max fields. For example, if you're generating numbers 1-100, set range_min=1 and range_max=100.",
                );
                proof {
                    assert(s@ =~= spec_message(*self));
                }
                s
            },
            EncodeError::RangeInverted { min, max } => {
                let mut s = String::new();
                s.append("Invalid range: min (");
                append_u64(&mut s, *min as u64);
                s.append(") > max (");
                append_u64(&mut s, *max as u64);
                s.append(")");
                proof {
                    assert(s@ =~= spec_message(*self));
                }
                s
            },
            EncodeError::RangeViolation { actual_min, actual_max, min, max } => {
                let mut s = String::new();
                s.append("Numbers (");
                append_u64(&mut s, *actual_min as u64);
                s.append("-");
                append_u64(&mut s, *actual_max as u64);
                s.append(") outside specified range (");
                append_u64(&mut s, *min as u64);
                s.append("-");
                append_u64(&mut s, *max as u64);
                s.append(")");
                proof {
                    assert(s@ =~= spec_message(*self));
                }
                s
            },
            EncodeError::BitWidthExceeded { actual_max, bit_width, max_value } => {
                let mut s = String::new();
                s.append("Number ");
                append_u64(&mut s, *actual_max as u64);
                s.append(" exceeds ");
                append_u64(&mut s, *bit_width as u64);
                s.append("-bit maximum value of ");
                append_u64(&mut s, *max_value as u64);
                s.append(". Please select a larger bit-width or use custom range.");
                proof {
                    assert(s@ =~= spec_message(*self));
                }
                s
            },
            EncodeError::InvalidBitWidth { bit_width } => {
                let mut s = String::new();
                s.append("Invalid bit_width: ");
                append_u64(&mut s, *bit_width as u64);
                s.append(". Must be 8, 16, or 32.");
                proof {
                    assert(s@ =~= spec_message(*self));
                }
                s
            },
            EncodeError::InvalidEncoding { detail } => {
                let mut s = String::new();
                s.append("Invalid base64 input: ");
                s.append(detail.as_str());
                proof {
                    assert(s@ =~= spec_message(*self));
                }
                s
            },
            EncodeError::EmptyEncoding => {
                let mut s = String::new();
                s.append("Base64 decoded to empty data");
                proof {
                    assert(s@ =~= spec_message(*self));
                }
                s
            },
            EncodeError::TrimmedNonzero { to_trim, leading_zeros } => {
                let mut s = String::new();
                s.append("Value too large: need to trim ");
                append_u64(&mut s, *to_trim as u64);
                s.append(" bits but only ");
                append_u64(&mut s, *leading_zeros as u64);
                s.append(" leading zeros available");
                proof {
                    assert(s@ =~= spec_message(*self));
                }
                s
            },
            EncodeError::InsufficientData { bit_count } => {
                let mut s = String::new();
                s.append(
                    "NIST statistical tests require at least 100 bits (~3 numbers with 32-bit encoding) for basic tests. You provided ",
                );
                append_u64(&mut s, *bit_count as u64);
                s.append(" bits (~");
                append_u64(&mut s, (*bit_count / 32) as u64);
                s.append(
                    " numbers). The system will use enhanced statistical tests instead, which are designed for smaller datasets.",
                );
                proof {
                    assert(s@ =~= spec_message(*self));
                }
                s
            },
        }
    }
}

} // verus!
