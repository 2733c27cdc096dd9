//! Decimal text: the canonical decimal rendering of a number, and the
//! numeric value of a run of digit characters.

use vstd::prelude::*;

verus! {

/// The character for one decimal digit.
pub open spec fn digit_char(d: nat) -> char {
    ((48 + d % 10) as u8) as char
}

/// Canonical decimal rendering of a number, without leading zeros
/// (a single zero for zero).
pub open spec fn dec_str(n: nat) -> Seq<char>
    decreases n,
{
    if n < 10 {
        seq![digit_char(n)]
    } else {
        dec_str(n / 10).push(digit_char(n % 10))
    }
}

/// Whether a character is an ASCII decimal digit.
pub open spec fn is_digit_char(c: char) -> bool {
    48 <= c as u32 <= 57
}

/// Numeric value of a run of decimal digit characters.
pub open spec fn digits_value(s: Seq<char>) -> nat
    decreases s.len(),
{
    if s.len() == 0 {
        0
    } else {
        10 * digits_value(s.drop_last()) + (s.last() as u32 - 48) as nat
    }
}

/// A sequence with an element reversed order.
pub open spec fn rev_seq<A>(s: Seq<A>) -> Seq<A> {
    Seq::new(s.len(), |i: int| s[s.len() - 1 - i])
}

/// Relies on `String::push`: appends exactly one character.
#[verifier::external_body]
pub fn push_char(s: &mut String, c: char)
    ensures
        final(s)@ == old(s)@.push(c),
{
    s.push(c)
}

/// Append the decimal rendering of `n` to a string.
pub fn append_u64(s: &mut String, n: u64)
    ensures
        final(s)@ == old(s)@ + dec_str(n as nat),
{
    let mut digits: Vec<char> = Vec::new();
    let mut m: u64 = n;
    while m >= 10
        invariant
            dec_str(n as nat) == dec_str(m as nat) + rev_seq(digits@),
            forall|i: int| 0 <= i < digits@.len() ==> is_digit_char(#[trigger] digits@[i]),
        decreases m,
    {
        let d = m % 10;
        let ghost digits0 = digits@;
        let c = digit_to_char(d);
        digits.push(c);
        m = m / 10;
        proof {
            assert(rev_seq(digits@) =~= seq![digit_char(d as nat)] + rev_seq(digits0));
            assert(dec_str(n as nat) =~= dec_str(m as nat) + rev_seq(digits@));
        }
    }
    let ghost digits0 = digits@;
    let c = digit_to_char(m);
    digits.push(c);
    proof {
        assert(dec_str(m as nat) == seq![digit_char(m as nat)]);
        assert(rev_seq(digits@) =~= seq![digit_char(m as nat)] + rev_seq(digits0));
        assert(dec_str(n as nat) =~= rev_seq(digits@));
    }
    let mut j: usize = digits.len();
    while j > 0
        invariant
            j <= digits@.len(),
            s@ == old(s)@ + rev_seq(digits@).take(digits@.len() - j),
            dec_str(n as nat) == rev_seq(digits@),
        decreases j,
    {
        j = j - 1;
        let ghost s0 = s@;
        push_char(s, digits[j]);
        proof {
            let k = digits@.len() - 1 - j;
            assert(rev_seq(digits@)[k] == digits@[j as int]);
            assert(rev_seq(digits@).take(k + 1) =~= rev_seq(digits@).take(k).push(
                digits@[j as int],
            ));
            assert(s@ =~= old(s)@ + rev_seq(digits@).take(k + 1));
        }
    }
    proof {
        assert(rev_seq(digits@).take(digits@.len() as int) =~= rev_seq(digits@));
    }
}

/// The character for a digit below ten.
pub fn digit_to_char(d: u64) -> (c: char)
    requires
        d < 10,
    ensures
        c == digit_char(d as nat),
        is_digit_char(c),
{
    let b: u8 = 48 + (d as u8);
    proof {
        vstd::arithmetic::div_mod::lemma_small_mod(d as nat, 10);
    }
    b as char
}

/// The decimal rendering of a number as a fresh string.
pub fn u64_to_string(n: u64) -> (r: String)
    ensures
        r@ == dec_str(n as nat),
{
    let mut s = String::new();
    append_u64(&mut s, n);
    proof {
        assert(Seq::<char>::empty() + dec_str(n as nat) =~= dec_str(n as nat));
    }
    s
}

/// The decimal rendering of a 32-bit number.
pub fn u32_to_string(n: u32) -> (r: String)
    ensures
        r@ == dec_str(n as nat),
{
    u64_to_string(n as u64)
}

} // verus!
