//! Decoding numeric text: maximal digit runs, values, and rejection of
//! letters.
//!
//! Any character that is not an ASCII digit acts as a delimiter, but the
//! presence of an alphabetic character anywhere rejects the whole input.

use vstd::prelude::*;

verus! {

use vstd::string::StrSliceExecFns;
use crate::digits::is_digit_char;
use crate::digits::digits_value;
use crate::errors::EncodeError;

/// What `char::is_alphabetic` returns for a character.
pub uninterp spec fn is_alpha(c: char) -> bool;

/// Relies on `char::is_alphabetic`: deterministic in the character;
/// ASCII letters have the property, ASCII digits do not.
#[verifier::external_body]
fn char_is_alphabetic(c: char) -> (r: bool)
    ensures
        r == is_alpha(c),
        (97 <= c as u32 <= 122) || (65 <= c as u32 <= 90) ==> r,
        48 <= c as u32 <= 57 ==> !r,
{
    c.is_alphabetic()
}

/// Whether the text holds an alphabetic character anywhere.
pub open spec fn has_alpha(s: Seq<char>) -> bool {
    exists|i: int| 0 <= i < s.len() && is_alpha(s[i])
}

/// The maximal digit runs of the text after `s`, given the run `cur`
/// already read just before it.
pub open spec fn runs_rec(s: Seq<char>, cur: Seq<char>) -> Seq<Seq<char>>
    decreases s.len(),
{
    if s.len() == 0 {
        if cur.len() == 0 {
            Seq::empty()
        } else {
            seq![cur]
        }
    } else if is_digit_char(s[0]) {
        runs_rec(s.drop_first(), cur.push(s[0]))
    } else if cur.len() == 0 {
        runs_rec(s.drop_first(), Seq::empty())
    } else {
        seq![cur] + runs_rec(s.drop_first(), Seq::empty())
    }
}

/// The maximal digit runs of the text, in order.
pub open spec fn digit_runs(s: Seq<char>) -> Seq<Seq<char>> {
    runs_rec(s, Seq::empty())
}

/// Whether some digit run exceeds the largest unsigned 32-bit value.
pub open spec fn any_run_overflows(s: Seq<char>) -> bool {
    exists|i: int|
        0 <= i < digit_runs(s).len() && digits_value(digit_runs(s)[i]) > u32::MAX
}

proof fn lemma_runs_step_digit(s: Seq<char>, i: int, cur: Seq<char>)
    requires
        0 <= i < s.len(),
        is_digit_char(s[i]),
    ensures
        runs_rec(s.skip(i), cur) == runs_rec(s.skip(i + 1), cur.push(s[i])),
{
    let t = s.skip(i);
    assert(t[0] == s[i]);
    assert(t.drop_first() =~= s.skip(i + 1));
}

proof fn lemma_runs_step_delim(s: Seq<char>, i: int, cur: Seq<char>)
    requires
        0 <= i < s.len(),
        !is_digit_char(s[i]),
    ensures
        cur.len() == 0 ==> runs_rec(s.skip(i), cur) == runs_rec(s.skip(i + 1), Seq::empty()),
        cur.len() > 0 ==> runs_rec(s.skip(i), cur) == seq![cur] + runs_rec(
            s.skip(i + 1),
            Seq::empty(),
        ),
{
    let t = s.skip(i);
    assert(t[0] == s[i]);
    assert(t.drop_first() =~= s.skip(i + 1));
    if cur.len() == 0 {
        assert(cur =~= Seq::<char>::empty());
    }
}

/// Parse every digit run of the input into a 32-bit number.
///
/// Letters anywhere reject the input; with no digit run at all the input
/// is empty; a run beyond `u32::MAX` is a numeric overflow.  Otherwise
/// the result lists the runs' values in order.
pub fn parse_numbers(input: &str) -> (r: Result<Vec<u32>, EncodeError>)
    ensures
        has_alpha(input@) ==> r == Result::<Vec<u32>, EncodeError>::Err(
            EncodeError::InvalidCharacter,
        ),
        !has_alpha(input@) && digit_runs(input@).len() == 0 ==> r == Result::<
            Vec<u32>,
            EncodeError,
        >::Err(EncodeError::EmptyInput),
        !has_alpha(input@) && digit_runs(input@).len() > 0 && any_run_overflows(input@) ==> r
            == Result::<Vec<u32>, EncodeError>::Err(EncodeError::NumericOverflow),
        !has_alpha(input@) && digit_runs(input@).len() > 0 && !any_run_overflows(input@) ==> {
            &&& r is Ok
            &&& r->Ok_0@.len() == digit_runs(input@).len()
            &&& forall|k: int|
                0 <= k < digit_runs(input@).len() ==> r->Ok_0@[k] as nat == digits_value(
                    #[trigger] digit_runs(input@)[k],
                )
            &&& r->Ok_0@.len() <= input@.len()
        },
{
    let ghost s = input@;
    let n = input.unicode_len();
    let mut i: usize = 0;
    while i < n
        invariant
            n == s.len(),
            s == input@,
            0 <= i <= n,
            forall|k: int| 0 <= k < i ==> !is_alpha(s[k]),
        decreases n - i,
    {
        let c = input.get_char(i);
        if char_is_alphabetic(c) {
            assert(has_alpha(s));
            return Err(EncodeError::InvalidCharacter);
        }
        i = i + 1;
    }
    assert(!has_alpha(s));

    let mut vals: Vec<u32> = Vec::new();
    let ghost mut done: Seq<Seq<char>> = Seq::empty();
    let ghost mut cur: Seq<char> = Seq::empty();
    let mut acc: u64 = 0;
    let mut in_run: bool = false;
    let mut of: bool = false;
    i = 0;
    proof {
        assert(s.skip(0) =~= s);
        assert(Seq::<Seq<char>>::empty() + runs_rec(s, Seq::empty()) =~= runs_rec(
            s,
            Seq::empty(),
        ));
    }
    while i < n
        invariant
            n == s.len(),
            s == input@,
            !has_alpha(s),
            0 <= i <= n,
            digit_runs(s) == done + runs_rec(s.skip(i as int), cur),
            in_run <==> cur.len() > 0,
            !in_run ==> cur == Seq::<char>::empty(),
            of ==> in_run && digits_value(cur) > u32::MAX,
            !of ==> acc as nat == digits_value(cur) && acc <= u32::MAX,
            vals@.len() == done.len(),
            forall|k: int|
                0 <= k < done.len() ==> vals@[k] as nat == digits_value(#[trigger] done[k])
                    && digits_value(done[k]) <= u32::MAX,
            done.len() + cur.len() <= i,
        decreases n - i,
    {
        let c = input.get_char(i);
        let code = c as u32;
        if 48 <= code && code <= 57 {
            let d = (code - 48) as u64;
            if !of {
                acc = acc * 10 + d;
                if acc > 0xFFFF_FFFF {
                    of = true;
                }
            }
            proof {
                lemma_runs_step_digit(s, i as int, cur);
                let cur2 = cur.push(c);
                assert(cur2.drop_last() =~= cur);
                assert(digits_value(cur2) == 10 * digits_value(cur) + (c as u32 - 48) as nat);
                cur = cur2;
            }
            in_run = true;
        } else {
            proof {
                lemma_runs_step_delim(s, i as int, cur);
            }
            if in_run {
                if of {
                    proof {
                        let rest = runs_rec(s.skip(i + 1), Seq::empty());
                        assert(digit_runs(s) == done + (seq![cur] + rest));
                        assert(digit_runs(s)[done.len() as int] == cur);
                        assert(any_run_overflows(s));
                    }
                    return Err(EncodeError::NumericOverflow);
                }
                vals.push(acc as u32);
                proof {
                    let rest = runs_rec(s.skip(i + 1), Seq::empty());
                    assert(digit_runs(s) == done + (seq![cur] + rest));
                    assert(done + (seq![cur] + rest) =~= done.push(cur) + rest);
                    done = done.push(cur);
                    cur = Seq::empty();
                }
                acc = 0;
                in_run = false;
                of = false;
            }
        }
        i = i + 1;
    }
    proof {
        assert(s.skip(n as int) =~= Seq::<char>::empty());
    }
    if in_run {
        if of {
            proof {
                assert(runs_rec(s.skip(n as int), cur) == seq![cur]);
                assert(digit_runs(s)[done.len() as int] == cur);
                assert(any_run_overflows(s));
            }
            return Err(EncodeError::NumericOverflow);
        }
        vals.push(acc as u32);
        proof {
            assert(runs_rec(s.skip(n as int), cur) == seq![cur]);
            assert(done + seq![cur] =~= done.push(cur));
            done = done.push(cur);
        }
    } else {
        proof {
            assert(runs_rec(s.skip(n as int), cur) =~= Seq::<Seq<char>>::empty());
            assert(done + Seq::<Seq<char>>::empty() =~= done);
        }
    }
    assert(digit_runs(s) == done);
    if vals.len() == 0 {
        return Err(EncodeError::EmptyInput);
    }
    proof {
        assert(!any_run_overflows(s)) by {
            assert(forall|k: int|
                0 <= k < done.len() ==> digits_value(#[trigger] digit_runs(s)[k]) <= u32::MAX);
        }
    }
    Ok(vals)
}

/// The least element of a non-empty sequence.
pub open spec fn spec_min(s: Seq<u32>) -> u32
    decreases s.len(),
{
    if s.len() <= 1 {
        s[0]
    } else if s.last() < spec_min(s.drop_last()) {
        s.last()
    } else {
        spec_min(s.drop_last())
    }
}

/// The greatest element of a non-empty sequence.
pub open spec fn spec_max(s: Seq<u32>) -> u32
    decreases s.len(),
{
    if s.len() <= 1 {
        s[0]
    } else if s.last() > spec_max(s.drop_last()) {
        s.last()
    } else {
        spec_max(s.drop_last())
    }
}

/// The minimum bounds every element and is one of them.
pub proof fn lemma_min_max_bounds(s: Seq<u32>)
    requires
        s.len() > 0,
    ensures
        forall|i: int| 0 <= i < s.len() ==> spec_min(s) <= #[trigger] s[i] <= spec_max(s),
        s.contains(spec_min(s)),
        s.contains(spec_max(s)),
    decreases s.len(),
{
    if s.len() == 1 {
        assert(spec_min(s) == s[0]);
        assert(spec_max(s) == s[0]);
        assert(s.contains(s[0]));
    } else {
        lemma_min_max_bounds(s.drop_last());
        assert(s[s.len() - 1] == s.last());
        assert forall|i: int| 0 <= i < s.len() implies spec_min(s) <= #[trigger] s[i] <= spec_max(
            s,
        ) by {
            if i < s.len() - 1 {
                assert(s[i] == s.drop_last()[i]);
                assert(spec_min(s.drop_last()) <= s.drop_last()[i] <= spec_max(s.drop_last()));
            }
        }
        if s.drop_last().contains(spec_min(s)) {
            let w = choose|w: int|
                0 <= w < s.drop_last().len() && s.drop_last()[w] == spec_min(s);
            assert(s[w] == spec_min(s));
        } else {
            assert(spec_min(s) == s.last());
        }
        if s.drop_last().contains(spec_max(s)) {
            let w = choose|w: int|
                0 <= w < s.drop_last().len() && s.drop_last()[w] == spec_max(s);
            assert(s[w] == spec_max(s));
        } else {
            assert(spec_max(s) == s.last());
        }
    }
}

/// The least element of a non-empty vector.
pub fn vec_min(v: &Vec<u32>) -> (r: u32)
    requires
        v@.len() > 0,
    ensures
        r == spec_min(v@),
        forall|i: int| 0 <= i < v@.len() ==> r <= #[trigger] v@[i],
        v@.contains(r),
{
    let mut r = v[0];
    let mut i: usize = 1;
    proof {
        assert(v@.take(1) =~= seq![v@[0]]);
    }
    while i < v.len()
        invariant
            1 <= i <= v@.len(),
            r == spec_min(v@.take(i as int)),
        decreases v@.len() - i,
    {
        proof {
            assert(v@.take(i + 1).drop_last() =~= v@.take(i as int));
            assert(v@.take(i + 1).last() == v@[i as int]);
        }
        if v[i] < r {
            r = v[i];
        }
        i = i + 1;
    }
    proof {
        assert(v@.take(v@.len() as int) =~= v@);
        lemma_min_max_bounds(v@);
    }
    r
}

/// The greatest element of a non-empty vector.
pub fn vec_max(v: &Vec<u32>) -> (r: u32)
    requires
        v@.len() > 0,
    ensures
        r == spec_max(v@),
        forall|i: int| 0 <= i < v@.len() ==> #[trigger] v@[i] <= r,
        v@.contains(r),
{
    let mut r = v[0];
    let mut i: usize = 1;
    proof {
        assert(v@.take(1) =~= seq![v@[0]]);
    }
    while i < v.len()
        invariant
            1 <= i <= v@.len(),
            r == spec_max(v@.take(i as int)),
        decreases v@.len() - i,
    {
        proof {
            assert(v@.take(i + 1).drop_last() =~= v@.take(i as int));
            assert(v@.take(i + 1).last() == v@[i as int]);
        }
        if v[i] > r {
            r = v[i];
        }
        i = i + 1;
    }
    proof {
        assert(v@.take(v@.len() as int) =~= v@);
        lemma_min_max_bounds(v@);
    }
    r
}

} // verus!
