//! Collecting raw test results into a deterministic, named list.
//!
//! A test that produced several sub-results is fanned out under indexed
//! names (`Name-1`, `Name-2`, ...), every outcome gets a rendered
//! p-value description, and the whole list is sorted by name so that
//! the output order never depends on how the results arrived.

use vstd::prelude::*;

verus! {

use vstd::string::StringExecFns;
use crate::digits::dec_str;
use crate::digits::digit_char;
use crate::digits::digit_to_char;
use crate::digits::push_char;
use crate::digits::append_u64;
use crate::types::NistTestResult;
use crate::types::outcome_valid;

/// One primitive's raw results: its display name and each sub-result's
/// verdict and p-value in parts per million.
#[derive(Debug)]
pub struct RawTestOutcome {
    pub name: String,
    pub results: Vec<(bool, u32)>,
}

/// Lexicographic order on text by character code, shorter prefixes
/// first.
pub open spec fn lex_le(a: Seq<char>, b: Seq<char>) -> bool
    decreases a.len(),
{
    if a.len() == 0 {
        true
    } else if b.len() == 0 {
        false
    } else if (a[0] as u32) < (b[0] as u32) {
        true
    } else if (a[0] as u32) > (b[0] as u32) {
        false
    } else {
        lex_le(a.drop_first(), b.drop_first())
    }
}

/// The order is total.
pub proof fn lemma_lex_le_total(a: Seq<char>, b: Seq<char>)
    ensures
        lex_le(a, b) || lex_le(b, a),
    decreases a.len(),
{
    if a.len() > 0 && b.len() > 0 && a[0] as u32 == b[0] as u32 {
        lemma_lex_le_total(a.drop_first(), b.drop_first());
    }
}

/// The order is transitive.
pub proof fn lemma_lex_le_trans(a: Seq<char>, b: Seq<char>, c: Seq<char>)
    requires
        lex_le(a, b),
        lex_le(b, c),
    ensures
        lex_le(a, c),
    decreases a.len(),
{
    if a.len() > 0 && b.len() > 0 && c.len() > 0 {
        if a[0] as u32 == b[0] as u32 && b[0] as u32 == c[0] as u32 {
            lemma_lex_le_trans(a.drop_first(), b.drop_first(), c.drop_first());
        }
    }
}

/// Two texts that agree on a prefix compare as their suffixes do.
proof fn lemma_lex_le_skip(a: Seq<char>, b: Seq<char>, i: int)
    requires
        0 <= i <= a.len(),
        i <= b.len(),
        forall|k: int| 0 <= k < i ==> #[trigger] (a[k] as u32) == b[k] as u32,
    ensures
        lex_le(a, b) == lex_le(a.skip(i), b.skip(i)),
    decreases i,
{
    if i > 0 {
        assert(a.len() > 0 && b.len() > 0);
        assert(a[0] as u32 == b[0] as u32);
        lemma_lex_le_skip(a.drop_first(), b.drop_first(), i - 1);
        assert(a.drop_first().skip(i - 1) =~= a.skip(i));
        assert(b.drop_first().skip(i - 1) =~= b.skip(i));
        assert(forall|k: int|
            0 <= k < i - 1 ==> #[trigger] (a.drop_first()[k] as u32) == b.drop_first()[k] as u32);
    } else {
        assert(a.skip(0) =~= a);
        assert(b.skip(0) =~= b);
    }
}

/// Decide the lexicographic order on two strings.
pub fn str_le(a: &str, b: &str) -> (r: bool)
    ensures
        r == lex_le(a@, b@),
{
    let la = a.unicode_len();
    let lb = b.unicode_len();
    let mut i: usize = 0;
    while i < la && i < lb
        invariant
            0 <= i <= la,
            i <= lb,
            la == a@.len(),
            lb == b@.len(),
            forall|k: int| 0 <= k < i ==> #[trigger] (a@[k] as u32) == b@[k] as u32,
        decreases la - i,
    {
        let ca = a.get_char(i);
        let cb = b.get_char(i);
        let xa = ca as u32;
        let xb = cb as u32;
        if xa < xb {
            proof {
                lemma_lex_le_skip(a@, b@, i as int);
                assert(a@.skip(i as int)[0] == a@[i as int]);
                assert(b@.skip(i as int)[0] == b@[i as int]);
            }
            return true;
        }
        if xa > xb {
            proof {
                lemma_lex_le_skip(a@, b@, i as int);
                assert(a@.skip(i as int)[0] == a@[i as int]);
                assert(b@.skip(i as int)[0] == b@[i as int]);
            }
            return false;
        }
        i = i + 1;
    }
    proof {
        lemma_lex_le_skip(a@, b@, i as int);
        if i < lb {
            assert(a@.skip(i as int).len() == 0);
        } else {
            assert(b@.skip(i as int).len() == 0);
            if i < la {
                assert(a@.skip(i as int).len() > 0);
            }
        }
    }
    la <= lb
}

/// The list is in name order.
pub open spec fn sorted_by_name(s: Seq<NistTestResult>) -> bool {
    forall|i: int, j: int|
        0 <= i < j < s.len() ==> lex_le(#[trigger] s[i].name@, #[trigger] s[j].name@)
}

/// The rendered p-value: four decimal places of a parts-per-million
/// fraction.
pub open spec fn render_pvalue4(ppm: u32) -> Seq<char> {
    if ppm >= 1_000_000 {
        "1.0000"@
    } else {
        let v = (ppm / 100) as nat;
        "0."@ + seq![
            digit_char(v / 1000),
            digit_char((v / 100) % 10),
            digit_char((v / 10) % 10),
            digit_char(v % 10),
        ]
    }
}

/// The description an outcome carries.
pub open spec fn pvalue_desc(ppm: u32) -> Seq<char> {
    "P-value: "@ + render_pvalue4(ppm)
}

/// Render a parts-per-million p-value with four decimal places.
pub fn render_pvalue(ppm: u32) -> (r: String)
    ensures
        r@ == render_pvalue4(ppm),
{
    if ppm >= 1_000_000 {
        let r = String::from_str("1.0000");
        r
    } else {
        let v = ppm / 100;
        let mut s = String::from_str("0.");
        push_char(&mut s, digit_to_char((v / 1000) as u64));
        push_char(&mut s, digit_to_char(((v / 100) % 10) as u64));
        push_char(&mut s, digit_to_char(((v / 10) % 10) as u64));
        push_char(&mut s, digit_to_char((v % 10) as u64));
        proof {
            assert(v / 1000 < 10);
            assert(s@ =~= render_pvalue4(ppm));
        }
        s
    }
}

/// The key a sub-result contributes: its final name, verdict and
/// p-value.
pub open spec fn sub_name(name: Seq<char>, count: int, i: int) -> Seq<char> {
    if count > 1 {
        name + seq!['-'] + dec_str((i + 1) as nat)
    } else {
        name
    }
}

/// The keys one raw outcome expands to.
pub open spec fn expand_keys_one(name: Seq<char>, rs: Seq<(bool, u32)>) -> Seq<
    (Seq<char>, bool, u32),
> {
    Seq::new(rs.len(), |i: int| (sub_name(name, rs.len() as int, i), rs[i].0, rs[i].1))
}

/// The keys a whole list of raw outcomes expands to, in arrival order.
pub open spec fn expanded_keys(raw: Seq<RawTestOutcome>) -> Seq<(Seq<char>, bool, u32)>
    decreases raw.len(),
{
    if raw.len() == 0 {
        Seq::empty()
    } else {
        expanded_keys(raw.drop_last()) + expand_keys_one(
            raw.last().name@,
            raw.last().results@,
        )
    }
}

/// The key of a built outcome.
pub open spec fn outcome_key(t: NistTestResult) -> (Seq<char>, bool, u32) {
    (t.name@, t.passed, t.p_value_ppm)
}

/// The keys of a whole list of outcomes.
pub open spec fn keys_of(s: Seq<NistTestResult>) -> Seq<(Seq<char>, bool, u32)> {
    s.map_values(|t: NistTestResult| outcome_key(t))
}

/// A built outcome is well formed: its p-value is a fraction of one
/// and its description is the rendered p-value.
pub open spec fn outcome_well_formed(t: NistTestResult) -> bool {
    &&& outcome_valid(t)
    &&& t.description@ == pvalue_desc(t.p_value_ppm)
}

/// Fan raw results out into one named outcome per sub-result, in
/// arrival order.
pub fn expand_outcomes(raw: &Vec<RawTestOutcome>) -> (r: Vec<NistTestResult>)
    requires
        forall|i: int, j: int|
            0 <= i < raw@.len() && 0 <= j < raw@[i].results@.len() ==> (#[trigger] raw@[i].results@[j]).1
                <= 1_000_000,
    ensures
        r@.map_values(|t: NistTestResult| outcome_key(t)) == expanded_keys(raw@),
        forall|i: int| 0 <= i < r@.len() ==> outcome_well_formed(#[trigger] r@[i]),
{
    let mut r: Vec<NistTestResult> = Vec::new();
    let mut i: usize = 0;
    proof {
        assert(raw@.take(0) =~= Seq::<RawTestOutcome>::empty());
        assert(r@.map_values(|t: NistTestResult| outcome_key(t)) =~= expanded_keys(raw@.take(0)));
    }
    while i < raw.len()
        invariant
            0 <= i <= raw@.len(),
            forall|a: int, b: int|
                0 <= a < raw@.len() && 0 <= b < raw@[a].results@.len() ==> (#[trigger] raw@[a].results@[b]).1
                    <= 1_000_000,
            r@.map_values(|t: NistTestResult| outcome_key(t)) == expanded_keys(
                raw@.take(i as int),
            ),
            forall|k: int| 0 <= k < r@.len() ==> outcome_well_formed(#[trigger] r@[k]),
        decreases raw@.len() - i,
    {
        let entry = &raw[i];
        let count = entry.results.len();
        let mut j: usize = 0;
        while j < count
            invariant
                0 <= j <= count,
                0 <= i < raw@.len(),
                count == raw@[i as int].results@.len(),
                entry == raw@[i as int],
                forall|a: int, b: int|
                    0 <= a < raw@.len() && 0 <= b < raw@[a].results@.len() ==> (#[trigger] raw@[a].results@[b]).1
                        <= 1_000_000,
                r@.map_values(|t: NistTestResult| outcome_key(t)) == expanded_keys(
                    raw@.take(i as int),
                ) + expand_keys_one(raw@[i as int].name@, raw@[i as int].results@).take(j as int),
                forall|k: int| 0 <= k < r@.len() ==> outcome_well_formed(#[trigger] r@[k]),
            decreases count - j,
        {
            let (passed, ppm) = entry.results[j];
            let mut name = entry.name.clone();
            if count > 1 {
                push_char(&mut name, '-');
                append_u64(&mut name, (j + 1) as u64);
            }
            let desc_tail = render_pvalue(ppm);
            let mut description = String::from_str("P-value: ");
            description.append(desc_tail.as_str());
            let ghost r0 = r@;
            let out = NistTestResult { name, passed, p_value_ppm: ppm, description };
            proof {
                assert(raw@[i as int].results@[j as int] == (passed, ppm));
                assert(out.name@ == sub_name(
                    raw@[i as int].name@,
                    raw@[i as int].results@.len() as int,
                    j as int,
                )) by {
                    if count > 1 {
                        assert(out.name@ =~= raw@[i as int].name@ + seq!['-'] + dec_str(
                            (j + 1) as nat,
                        ));
                    }
                }
                assert(out.description@ =~= pvalue_desc(ppm));
            }
            r.push(out);
            proof {
                let f = |t: NistTestResult| outcome_key(t);
                assert(r@ =~= r0.push(out));
                assert(r@.map_values(f) =~= r0.map_values(f).push(outcome_key(out)));
                let ek = expand_keys_one(raw@[i as int].name@, raw@[i as int].results@);
                assert(ek[j as int] == outcome_key(out));
                assert(ek.take(j + 1) =~= ek.take(j as int).push(ek[j as int]));
                assert(r@.map_values(f) =~= expanded_keys(raw@.take(i as int)) + ek.take(j + 1));
            }
            j = j + 1;
        }
        proof {
            let ek = expand_keys_one(raw@[i as int].name@, raw@[i as int].results@);
            assert(ek.take(count as int) =~= ek);
            assert(raw@.take(i + 1).drop_last() =~= raw@.take(i as int));
            assert(raw@.take(i + 1).last() == raw@[i as int]);
            assert(expanded_keys(raw@.take(i + 1)) == expanded_keys(raw@.take(i as int)) + ek);
        }
        i = i + 1;
    }
    proof {
        assert(raw@.take(raw@.len() as int) =~= raw@);
    }
    r
}

/// Sort outcomes into name order; the outcomes themselves are only
/// rearranged, never changed.
pub fn sort_by_name(input: Vec<NistTestResult>) -> (r: Vec<NistTestResult>)
    ensures
        sorted_by_name(r@),
        r@.to_multiset() == input@.to_multiset(),
{
    broadcast use vstd::seq_lib::group_to_multiset_ensures;

    let mut rest = input;
    let mut out: Vec<NistTestResult> = Vec::new();
    proof {
        assert(out@.to_multiset() =~= Seq::<NistTestResult>::empty().to_multiset());
    }
    while rest.len() > 0
        invariant
            sorted_by_name(out@),
            out@.to_multiset().add(rest@.to_multiset()) =~= input@.to_multiset(),
        decreases rest@.len(),
    {
        let ghost rest0 = rest@;
        let x = rest.pop().unwrap();
        proof {
            assert(rest0 =~= rest@.push(x));
            vstd::seq_lib::to_multiset_build(rest@, x);
            assert(rest0.to_multiset() == rest@.to_multiset().insert(x));
        }
        // Find the first position whose name is strictly above x's.
        let mut p: usize = 0;
        while p < out.len() && str_le(&out[p].name, &x.name)
            invariant
                0 <= p <= out@.len(),
                forall|k: int| 0 <= k < p ==> lex_le(#[trigger] out@[k].name@, x.name@),
            decreases out@.len() - p,
        {
            p = p + 1;
        }
        proof {
            if p < out@.len() {
                lemma_lex_le_total(out@[p as int].name@, x.name@);
            }
        }
        let ghost out0 = out@;
        out.insert(p, x);
        proof {
            assert(out@ =~= out0.insert(p as int, x));
            vstd::seq_lib::to_multiset_insert(out0, p as int, x);
            assert(out@.to_multiset() == out0.to_multiset().insert(x));
            assert(sorted_by_name(out@)) by {
                assert forall|a: int, b: int| 0 <= a < b < out@.len() implies lex_le(
                    #[trigger] out@[a].name@,
                    #[trigger] out@[b].name@,
                ) by {
                    let pa = if a < p {
                        a
                    } else {
                        a - 1
                    };
                    let pb = if b < p {
                        b
                    } else {
                        b - 1
                    };
                    if a == p {
                        // x before out0[pb], where p <= pb
                        assert(out@[b] == out0[pb]);
                        if pb == p {
                            assert(lex_le(x.name@, out0[pb].name@));
                        } else {
                            assert(lex_le(x.name@, out0[p as int].name@));
                            assert(lex_le(out0[p as int].name@, out0[pb].name@));
                            lemma_lex_le_trans(x.name@, out0[p as int].name@, out0[pb].name@);
                        }
                    } else if b == p {
                        assert(out@[a] == out0[pa]);
                        assert(pa < p);
                        assert(lex_le(out0[pa].name@, x.name@));
                    } else {
                        assert(out@[a] == out0[pa]);
                        assert(out@[b] == out0[pb]);
                        assert(pa < pb);
                    }
                }
            }
            assert(out@.to_multiset().add(rest@.to_multiset()) =~= input@.to_multiset());
        }
    }
    proof {
        assert(rest@.to_multiset() =~= Seq::<NistTestResult>::empty().to_multiset());
        Seq::<NistTestResult>::empty().to_multiset_ensures();
        assert(out@.to_multiset() =~= input@.to_multiset());
    }
    out
}

/// An element of a permutation keeps every per-element property; in
/// particular sorting keeps the outcomes well formed.
pub proof fn lemma_permutation_well_formed(a: Seq<NistTestResult>, b: Seq<NistTestResult>)
    requires
        a.to_multiset() == b.to_multiset(),
        forall|i: int| 0 <= i < a.len() ==> outcome_well_formed(#[trigger] a[i]),
    ensures
        forall|i: int| 0 <= i < b.len() ==> outcome_well_formed(#[trigger] b[i]),
{
    broadcast use vstd::seq_lib::group_to_multiset_ensures;

    assert forall|i: int| 0 <= i < b.len() implies outcome_well_formed(#[trigger] b[i]) by {
        assert(b.contains(b[i]));
        assert(b.to_multiset().count(b[i]) > 0);
        assert(a.to_multiset().count(b[i]) > 0);
        assert(a.contains(b[i]));
        let w = choose|w: int| 0 <= w < a.len() && a[w] == b[i];
        assert(outcome_well_formed(a[w]));
    }
}

} // verus!
