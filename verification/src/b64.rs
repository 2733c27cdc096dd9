//! Base64 payloads: whitespace stripping, padding repair, and decoding
//! into a bitstream.
//!
//! The decode itself is the base64 crate's; `b64_decoded` names its
//! result, which depends on the input text alone.

use vstd::prelude::*;

use base64::Engine;

verus! {

use vstd::string::StrSliceExecFns;
use crate::bits::is_bit_seq;
use crate::bits::bits_value;
use crate::bits::bytes_be_value;
use crate::bits::bytes_to_bits;
use crate::digits::push_char;
use crate::errors::EncodeError;
use crate::errors::spec_message;

#[verifier::external_type_specification]
#[verifier::external_body]
pub struct ExDecodeError(base64::DecodeError);

/// What `char::is_whitespace` returns for a character.
pub uninterp spec fn is_space(c: char) -> bool;

/// Relies on `char::is_whitespace`: deterministic in the character;
/// blank, tab, newline and carriage return have the property, and no
/// other printable ASCII character does.
#[verifier::external_body]
fn char_is_whitespace(c: char) -> (r: bool)
    ensures
        r == is_space(c),
        c as u32 == 32 || c as u32 == 9 || c as u32 == 10 || c as u32 == 13 ==> r,
        33 <= c as u32 <= 126 ==> !r,
{
    c.is_whitespace()
}

/// What the base64 crate's standard-alphabet padded decode returns for
/// a text, as bytes, or nothing where the text is rejected.
pub uninterp spec fn b64_decoded(s: Seq<char>) -> Option<Seq<u8>>;

/// Relies on the base64 crate's `STANDARD` engine `decode`: the result
/// depends on the input text alone.
#[verifier::external_body]
fn b64_decode(s: &str) -> (r: Result<Vec<u8>, base64::DecodeError>)
    ensures
        r matches Ok(v) ==> b64_decoded(s@) == Some(v@),
        r is Err ==> b64_decoded(s@) is None,
{
    base64::engine::general_purpose::STANDARD.decode(s.as_bytes())
}

/// Relies on `DecodeError`'s `Display` implementation for the failure
/// detail shown to the caller.
#[verifier::external_body]
fn decode_error_string(e: &base64::DecodeError) -> String {
    format!("{}", e)
}

/// The text with every whitespace character removed.
pub open spec fn stripped(s: Seq<char>) -> Seq<char>
    decreases s.len(),
{
    if s.len() == 0 {
        Seq::empty()
    } else if is_space(s.last()) {
        stripped(s.drop_last())
    } else {
        stripped(s.drop_last()).push(s.last())
    }
}

/// The stripped text with `=` appended up to a multiple of four.
pub open spec fn padded_b64(s: Seq<char>) -> Seq<char> {
    let c = stripped(s);
    c + Seq::new(((4 - c.len() % 4) % 4) as nat, |i: int| '=')
}

/// What turning a base64 payload into bits returns: the decoded bytes'
/// bits on success, and the exact message otherwise.
pub open spec fn base64_bits_spec(s: Seq<char>, r: Result<Vec<u8>, String>) -> bool {
    match b64_decoded(padded_b64(s)) {
        Option::Some(bytes) => {
            if bytes.len() == 0 {
                r matches Err(m) && m@ == spec_message(EncodeError::EmptyEncoding)
            } else {
                r matches Ok(out) && {
                    &&& is_bit_seq(out@)
                    &&& out@.len() == 8 * bytes.len()
                    &&& bits_value(out@) == bytes_be_value(bytes)
                }
            }
        },
        Option::None => r matches Err(m) && (exists|d: Seq<char>|
            m@ == "Invalid base64 input: "@ + d),
    }
}

/// Decode a base64 payload into a bitstream, eight bits per byte.
///
/// Whitespace anywhere is dropped and missing `=` padding is restored
/// before decoding; a payload that decodes to nothing is rejected.
pub fn parse_base64_to_bits(input: &str) -> (r: Result<Vec<u8>, String>)
    ensures
        base64_bits_spec(input@, r),
{
    let n = input.unicode_len();
    let mut clean = String::new();
    let mut i: usize = 0;
    proof {
        assert(stripped(input@.take(0)) =~= Seq::<char>::empty());
    }
    while i < n
        invariant
            n == input@.len(),
            0 <= i <= n,
            clean@ == stripped(input@.take(i as int)),
        decreases n - i,
    {
        let c = input.get_char(i);
        proof {
            assert(input@.take(i + 1).drop_last() =~= input@.take(i as int));
            assert(input@.take(i + 1).last() == input@[i as int]);
        }
        if !char_is_whitespace(c) {
            push_char(&mut clean, c);
        }
        i = i + 1;
    }
    proof {
        assert(input@.take(n as int) =~= input@);
    }

    let len = clean.as_str().unicode_len();
    let padding_needed = (4 - (len % 4)) % 4;
    let ghost cleaned = clean@;
    let mut j: usize = 0;
    while j < padding_needed
        invariant
            0 <= j <= padding_needed,
            clean@ == cleaned + Seq::new(j as nat, |t: int| '='),
        decreases padding_needed - j,
    {
        push_char(&mut clean, '=');
        proof {
            assert(cleaned + Seq::new((j + 1) as nat, |t: int| '=') =~= (cleaned + Seq::new(
                j as nat,
                |t: int| '=',
            )).push('='));
        }
        j = j + 1;
    }
    proof {
        assert(clean@ =~= padded_b64(input@));
    }

    let bytes = match b64_decode(clean.as_str()) {
        Ok(b) => b,
        Err(e) => {
            let detail = decode_error_string(&e);
            let err = EncodeError::InvalidEncoding { detail };
            let m = err.message();
            proof {
                let d = err->InvalidEncoding_detail@;
                assert(m@ == "Invalid base64 input: "@ + d);
            }
            return Err(m);
        },
    };
    if bytes.len() == 0 {
        let err = EncodeError::EmptyEncoding;
        return Err(err.message());
    }
    Ok(bytes_to_bits(&bytes))
}

} // verus!
