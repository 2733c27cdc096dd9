//! Bitstreams and their numeric value.
//!
//! A bitstream is a `Vec<u8>` whose elements are all 0 or 1, most
//! significant bit first.  The spec functions here give such a sequence
//! (and a big-endian byte sequence) its numeric value, and the lemmas
//! relate values, lengths and leading zeros.

use vstd::prelude::*;

verus! {

use vstd::arithmetic::power2::pow2;
use vstd::arithmetic::power2::lemma_pow2_adds;
use vstd::arithmetic::power2::lemma_pow2_unfold;
use vstd::arithmetic::power2::lemma_pow2_pos;

/// Every element of the sequence is a single bit, 0 or 1.
pub open spec fn is_bit_seq(s: Seq<u8>) -> bool {
    forall|i: int| 0 <= i < s.len() ==> s[i] == 0u8 || s[i] == 1u8
}

/// Numeric value of a most-significant-bit-first bit sequence.
pub open spec fn bits_value(s: Seq<u8>) -> nat
    decreases s.len(),
{
    if s.len() == 0 {
        0
    } else {
        2 * bits_value(s.drop_last()) + s.last() as nat
    }
}

/// Numeric value of a big-endian byte sequence.
pub open spec fn bytes_be_value(s: Seq<u8>) -> nat
    decreases s.len(),
{
    if s.len() == 0 {
        0
    } else {
        256 * bytes_be_value(s.drop_last()) + s.last() as nat
    }
}

/// The `w`-bit most-significant-bit-first representation of `v % pow2(w)`.
pub open spec fn num_bits_be(v: nat, w: nat) -> Seq<u8>
    decreases w,
{
    if w == 0 {
        Seq::empty()
    } else {
        num_bits_be(v / 2, (w - 1) as nat).push((v % 2) as u8)
    }
}

pub proof fn lemma_num_bits_be_len(v: nat, w: nat)
    ensures
        num_bits_be(v, w).len() == w,
        is_bit_seq(num_bits_be(v, w)),
    decreases w,
{
    if w > 0 {
        lemma_num_bits_be_len(v / 2, (w - 1) as nat);
    }
}

pub proof fn lemma_num_bits_be_value(v: nat, w: nat)
    ensures
        bits_value(num_bits_be(v, w)) == v % pow2(w),
    decreases w,
{
    if w == 0 {
        assert(pow2(0) == 1) by {
            vstd::arithmetic::power2::lemma2_to64();
        }
    } else {
        lemma_num_bits_be_value(v / 2, (w - 1) as nat);
        lemma_num_bits_be_len(v / 2, (w - 1) as nat);
        let s = num_bits_be(v, w);
        assert(s.drop_last() =~= num_bits_be(v / 2, (w - 1) as nat));
        lemma_pow2_unfold(w);
        // v % (2 * p) == 2 * ((v / 2) % p) + v % 2, where p == pow2(w - 1)
        let p = pow2((w - 1) as nat);
        lemma_pow2_pos((w - 1) as nat);
        vstd::arithmetic::div_mod::lemma_truncate_middle(v as int, 2, p as int);
        vstd::arithmetic::div_mod::lemma_mod_breakdown(v as int, 2, p as int);
    }
}

/// A bit sequence's value is below `pow2` of its length.
pub proof fn lemma_bits_value_bound(s: Seq<u8>)
    requires
        is_bit_seq(s),
    ensures
        bits_value(s) < pow2(s.len()),
    decreases s.len(),
{
    if s.len() == 0 {
        assert(pow2(0) == 1) by {
            vstd::arithmetic::power2::lemma2_to64();
        }
    } else {
        lemma_bits_value_bound(s.drop_last());
        lemma_pow2_unfold(s.len());
    }
}

/// Concatenation splits the value: the prefix is scaled by `pow2` of the
/// suffix length.
pub proof fn lemma_bits_value_append(a: Seq<u8>, b: Seq<u8>)
    ensures
        bits_value(a + b) == bits_value(a) * pow2(b.len()) + bits_value(b),
    decreases b.len(),
{
    if b.len() == 0 {
        assert(a + b =~= a);
        assert(pow2(0) == 1) by {
            vstd::arithmetic::power2::lemma2_to64();
        }
    } else {
        lemma_bits_value_append(a, b.drop_last());
        assert((a + b).drop_last() =~= a + b.drop_last());
        assert((a + b).last() == b.last());
        lemma_pow2_unfold(b.len());
        let va = bits_value(a);
        let p = pow2((b.len() - 1) as nat);
        assert(2 * (va * p + bits_value(b.drop_last())) + b.last() as nat
            == va * (2 * p) + (2 * bits_value(b.drop_last()) + b.last() as nat))
            by (nonlinear_arith);
    }
}

/// An all-zero bit sequence has value zero, and conversely.
pub proof fn lemma_bits_value_zero(s: Seq<u8>)
    requires
        is_bit_seq(s),
    ensures
        bits_value(s) == 0 <==> (forall|i: int| 0 <= i < s.len() ==> s[i] == 0u8),
    decreases s.len(),
{
    if s.len() > 0 {
        lemma_bits_value_zero(s.drop_last());
        if bits_value(s) == 0 {
            assert(forall|i: int| 0 <= i < s.len() - 1 ==> s[i] == s.drop_last()[i]);
        } else {
            if forall|i: int| 0 <= i < s.len() ==> s[i] == 0u8 {
                assert(forall|i: int|
                    0 <= i < s.len() - 1 ==> s.drop_last()[i] == s[i] && s[i] == 0u8);
                assert(s.last() == 0u8);
            }
        }
    }
}

/// If the value fits in `m` bits, everything before the last `m` positions
/// is zero, and the value is carried entirely by the last `m` positions.
pub proof fn lemma_bits_value_low(s: Seq<u8>, m: int)
    requires
        is_bit_seq(s),
        0 <= m <= s.len(),
        bits_value(s) < pow2(m as nat),
    ensures
        forall|i: int| 0 <= i < s.len() - m ==> s[i] == 0u8,
        bits_value(s.skip(s.len() - m)) == bits_value(s),
{
    let cut = s.len() - m;
    let a = s.take(cut);
    let b = s.skip(cut);
    assert(s =~= a + b);
    lemma_bits_value_append(a, b);
    assert(is_bit_seq(a));
    assert(is_bit_seq(b));
    lemma_bits_value_bound(b);
    lemma_pow2_pos(m as nat);
    if bits_value(a) > 0 {
        assert(bits_value(a) * pow2(m as nat) >= pow2(m as nat)) by (nonlinear_arith)
            requires
                bits_value(a) >= 1,
                pow2(m as nat) > 0,
        ;
    }
    lemma_bits_value_zero(a);
    assert(forall|i: int| 0 <= i < cut ==> s[i] == a[i]);
}

/// Two bit sequences of equal length and equal value are equal.
pub proof fn lemma_bits_value_injective(a: Seq<u8>, b: Seq<u8>)
    requires
        is_bit_seq(a),
        is_bit_seq(b),
        a.len() == b.len(),
        bits_value(a) == bits_value(b),
    ensures
        a == b,
    decreases a.len(),
{
    if a.len() > 0 {
        // The last bit is the value's parity, so it agrees; peel it off.
        assert(a.last() == b.last());
        lemma_bits_value_injective(a.drop_last(), b.drop_last());
        assert(a =~= a.drop_last().push(a.last()));
        assert(b =~= b.drop_last().push(b.last()));
    } else {
        assert(a =~= b);
    }
}

/// Expanding bytes to bits preserves the numeric value.
proof fn lemma_bytes_byte_expand(bytes: Seq<u8>, byte: u8)
    ensures
        bytes_be_value(bytes.push(byte)) == 256 * bytes_be_value(bytes) + byte as nat,
{
    assert(bytes.push(byte).drop_last() =~= bytes);
}

/// Turn big-endian bytes into the equivalent bitstream, eight bits per
/// byte, most significant bit first.
pub fn bytes_to_bits(bytes: &Vec<u8>) -> (r: Vec<u8>)
    ensures
        is_bit_seq(r@),
        r@.len() == 8 * bytes@.len(),
        bits_value(r@) == bytes_be_value(bytes@),
{
    let mut r: Vec<u8> = Vec::new();
    let mut i: usize = 0;
    proof {
        assert(bytes@.take(0) =~= Seq::<u8>::empty());
    }
    while i < bytes.len()
        invariant
            0 <= i <= bytes@.len(),
            is_bit_seq(r@),
            r@.len() == 8 * i,
            bits_value(r@) == bytes_be_value(bytes@.take(i as int)),
        decreases bytes@.len() - i,
    {
        let byte = bytes[i];
        let ghost prev = r@;
        push_byte_bits(&mut r, byte);
        proof {
            let nb = num_bits_be(byte as nat, 8);
            lemma_num_bits_be_len(byte as nat, 8);
            lemma_num_bits_be_value(byte as nat, 8);
            lemma_bits_value_append(prev, nb);
            assert(pow2(8) == 256) by {
                vstd::arithmetic::power2::lemma2_to64();
            }
            vstd::arithmetic::div_mod::lemma_small_mod(byte as nat, 256);
            assert(bits_value(r@) == bytes_be_value(bytes@.take(i as int)) * 256 + byte as nat);
            assert(bytes@.take(i + 1).drop_last() =~= bytes@.take(i as int));
            assert(bytes@.take(i + 1).last() == bytes@[i as int]);
            assert(bytes_be_value(bytes@.take(i + 1))
                == 256 * bytes_be_value(bytes@.take(i as int)) + byte as nat);
            assert(forall|k: int|
                0 <= k < r@.len() ==> r@[k] == (if k < prev.len() {
                    prev[k]
                } else {
                    nb[k - prev.len()]
                }));
        }
        i = i + 1;
    }
    proof {
        assert(bytes@.take(bytes@.len() as int) =~= bytes@);
    }
    r
}

/// Append the eight bits of one byte, most significant first.
fn push_byte_bits(r: &mut Vec<u8>, byte: u8)
    ensures
        final(r)@ == old(r)@ + num_bits_be(byte as nat, 8),
{
    let mut j: usize = 8;
    while j > 0
        invariant
            0 <= j <= 8,
            r@ == old(r)@ + num_bits_be((byte >> j) as nat, (8 - j) as nat),
        decreases j,
    {
        j = j - 1;
        let bit = (byte >> (j as u8)) & 1;
        r.push(bit);
        proof {
            lemma_shift_bit_step(byte, j as u8);
        }
    }
    proof {
        assert(byte >> 0u8 == byte) by (bit_vector);
    }
}

/// One step of most-significant-first bit extraction: shifting one place
/// less appends the next lower bit.
proof fn lemma_shift_bit_step(byte: u8, j: u8)
    requires
        j < 8,
    ensures
        num_bits_be((byte >> j) as nat, (8 - j) as nat)
            == num_bits_be((byte >> (j + 1)) as nat, (7 - j) as nat).push((byte >> j) & 1),
{
    let x = byte >> j;
    assert(x / 2 == byte >> (j + 1)) by (bit_vector)
        requires
            x == byte >> j,
            j < 8,
    ;
    assert(x % 2 == (byte >> j) & 1) by (bit_vector)
        requires
            x == byte >> j,
    ;
    let w = (8 - j) as nat;
    assert(num_bits_be(x as nat, w)
        == num_bits_be((x as nat) / 2, (w - 1) as nat).push(((x as nat) % 2) as u8));
}

/// The spec-level packing of a bitstream into bytes: the stream is padded
/// on the right with zeros up to a whole byte.
pub open spec fn padded_bits(s: Seq<u8>) -> Seq<u8> {
    s + Seq::new(((8 - s.len() % 8) % 8) as nat, |i: int| 0u8)
}

/// Pack a bitstream into big-endian bytes; a final partial byte is padded
/// with zeros on the right, as the byte-oriented consumers expect.
pub fn pack_bits_to_bytes(bits: &Vec<u8>) -> (r: Vec<u8>)
    requires
        is_bit_seq(bits@),
    ensures
        r@.len() == (bits@.len() + 7) / 8,
        bytes_be_value(r@) == bits_value(padded_bits(bits@)),
{
    let mut packed: Vec<u8> = Vec::new();
    let mut current: u8 = 0;
    let mut count: usize = 0;
    let mut i: usize = 0;
    let ghost padded = padded_bits(bits@);
    proof {
        lemma_num_bits_be_len(0, 0);
        assert(bits@.take(0) =~= Seq::<u8>::empty());
        assert(num_bits_be(0, 0) =~= Seq::<u8>::empty());
    }
    while i < bits.len()
        invariant
            is_bit_seq(bits@),
            0 <= i <= bits@.len(),
            count == i % 8,
            packed@.len() == i / 8,
            current as nat == bits_value(bits@.take(i as int).skip(i as int - count)),
            bytes_be_value(packed@) == bits_value(bits@.take(i as int - count)),
        decreases bits@.len() - i,
    {
        let bit = bits[i];
        let ghost pre = bits@.take(i as int);
        let ghost run = pre.skip(i as int - count);
        let ghost cur0 = current;
        current = (current << 1u8) | (bit & 1);
        count = count + 1;
        proof {
            lemma_bits_value_bound(run);
            assert(run.len() == count - 1);
            assert(pow2(7) == 128) by {
                vstd::arithmetic::power2::lemma2_to64();
            }
            if count - 1 < 7 {
                vstd::arithmetic::power2::lemma_pow2_strictly_increases((count - 1) as nat, 7);
            }
            assert(cur0 < 128);
            assert(((cur0 << 1u8) | (bit & 1)) == 2 * cur0 + (bit & 1)) by (bit_vector)
                requires
                    cur0 < 128,
            ;
            assert(bit & 1 == bit) by (bit_vector)
                requires
                    bit == 0 || bit == 1,
            ;
            let next = bits@.take(i + 1).skip(i + 1 - count);
            assert(next =~= run.push(bit));
            assert(next.drop_last() =~= run);
        }
        i = i + 1;
        if count == 8 {
            let ghost packed0 = packed@;
            packed.push(current);
            proof {
                let whole = bits@.take(i as int);
                let head = bits@.take(i as int - 8);
                lemma_bytes_byte_expand(packed0, current);
                lemma_bits_value_append(head, whole.skip(i as int - 8));
                assert(pow2(8) == 256) by {
                    vstd::arithmetic::power2::lemma2_to64();
                }
                assert(head + whole.skip(i as int - 8) =~= whole);
                assert(whole.skip(i as int - 8) =~= whole.skip(i as int - count));
                assert(bytes_be_value(packed@) == 256 * bits_value(head) + current as nat);
                assert(bits_value(whole) == bits_value(head) * 256 + current as nat);
            }
            current = 0;
            count = 0;
            proof {
                let empty_run = bits@.take(i as int).skip(i as int);
                assert(empty_run =~= Seq::<u8>::empty());
            }
        }
    }
    proof {
        assert(bits@.take(bits@.len() as int) =~= bits@);
    }
    if count > 0 {
        let pad: usize = 8 - count;
        let ghost run = bits@.skip(bits@.len() - count);
        let ghost c0 = bits_value(run);
        let ghost head = bits@.take(bits@.len() - count);
        let ghost packed0 = packed@;
        current = current << (pad as u8);
        packed.push(current);
        proof {
            let zeros = Seq::new(pad as nat, |k: int| 0u8);
            assert(is_bit_seq(zeros));
            assert(padded =~= head + (run + zeros));
            lemma_bits_value_append(run, zeros);
            lemma_bits_value_zero(zeros);
            lemma_bits_value_bound(run);
            assert(run.len() == count);
            lemma_shl_zeros(c0, count as nat, pad as nat);
            lemma_bits_value_append(head, run + zeros);
            lemma_bytes_byte_expand(packed0, current);
            assert(pow2(8) == 256) by {
                vstd::arithmetic::power2::lemma2_to64();
            }
            assert((run + zeros).len() == 8);
            assert(bits_value(run + zeros) == c0 * pow2(pad as nat));
            assert(bytes_be_value(packed@) == 256 * bits_value(head) + c0 * pow2(pad as nat));
            assert(bits_value(padded) == bits_value(head) * 256 + c0 * pow2(pad as nat));
        }
    } else {
        proof {
            assert(padded =~= bits@);
        }
    }
    packed
}

/// Shifting a `k`-bit value left by `pad` (with `k + pad <= 8`) multiplies
/// it by `pow2(pad)` without losing bits.
proof fn lemma_shl_zeros(c0: nat, k: nat, pad: nat)
    requires
        c0 < pow2(k),
        k + pad <= 8,
        k >= 1,
    ensures
        ((c0 as u8) << (pad as u8)) as nat == c0 * pow2(pad),
{
    vstd::arithmetic::power2::lemma2_to64();
    lemma_pow2_adds(k, pad);
    lemma_pow2_pos(pad);
    if k + pad < 8 {
        vstd::arithmetic::power2::lemma_pow2_strictly_increases(k + pad, 8);
    }
    if k < 8 {
        vstd::arithmetic::power2::lemma_pow2_strictly_increases(k, 8);
    }
    assert(c0 * pow2(pad) < pow2(k) * pow2(pad)) by (nonlinear_arith)
        requires
            c0 < pow2(k),
            pow2(pad) > 0,
    ;
    vstd::bits::lemma_u8_shl_is_mul(c0 as u8, pad as u8);
}

} // verus!
