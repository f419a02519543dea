//! Bit strings and the numbers they denote.

use crate::field::bit_of;
use vstd::arithmetic::div_mod::*;
use vstd::arithmetic::mul::*;
use vstd::arithmetic::power2::*;
use vstd::prelude::*;

verus! {

/// The number that a little-endian bit string denotes.
pub open spec fn bits_value(bits: Seq<bool>) -> nat
    decreases bits.len(),
{
    if bits.len() == 0 {
        0
    } else {
        bits_value(bits.drop_last()) + if bits.last() {
            pow2((bits.len() - 1) as nat)
        } else {
            0
        }
    }
}

/// The number of bits in the binary representation of `v`, at least one.
pub open spec fn bit_width(v: nat) -> nat
    decreases v,
{
    if v < 2 {
        1
    } else {
        1 + bit_width(v / 2)
    }
}

/// The length of a little-endian bit string once the zero bits at its top are
/// cut off.
pub open spec fn trimmed_len(bits: Seq<bool>) -> nat
    decreases bits.len(),
{
    if bits.len() == 0 {
        0
    } else if bits.last() {
        bits.len()
    } else {
        trimmed_len(bits.drop_last())
    }
}

/// A string of `n` bits denotes a number below `2^n`.
pub proof fn lemma_bits_value_bound(bits: Seq<bool>)
    ensures
        bits_value(bits) < pow2(bits.len()),
    decreases bits.len(),
{
    if bits.len() == 0 {
        lemma2_to64();
    } else {
        lemma_bits_value_bound(bits.drop_last());
        lemma_pow2_unfold(bits.len());
    }
}

/// The bits of `v` from position `start` on denote `v / 2^start` reduced
/// modulo two to the number of bits taken.
pub proof fn lemma_bits_value_window(v: nat, start: nat, bits: Seq<bool>)
    requires
        forall|j: int| 0 <= j < bits.len() ==> bits[j] == bit_of(v, start + j as nat),
    ensures
        bits_value(bits) == (v / pow2(start)) % pow2(bits.len()),
    decreases bits.len(),
{
    let x = v / pow2(start);
    lemma_pow2_pos(start);
    if bits.len() == 0 {
        lemma2_to64();
    } else {
        let n = (bits.len() - 1) as nat;
        let low = bits.drop_last();
        assert forall|j: int| 0 <= j < low.len() implies low[j] == bit_of(v, start + j as nat) by {
            assert(low[j] == bits[j]);
        }
        lemma_bits_value_window(v, start, low);
        lemma_pow2_pos(n);
        lemma_pow2_unfold(bits.len());
        lemma_pow2_adds(start, n);
        lemma_div_denominator(v as int, pow2(start) as int, pow2(n) as int);
        assert(x / pow2(n) == v / pow2(start + n));
        lemma_mod_breakdown(x as int, pow2(n) as int, 2);
        assert(pow2(n) * 2 == pow2(bits.len()));
        assert(bits.last() == bit_of(v, start + n));
        let top = (x / pow2(n)) % 2;
        assert(top == 0 || top == 1);
        assert(x % pow2(bits.len()) == pow2(n) * top + x % pow2(n));
        if top == 1 {
            assert(pow2(n) * top == pow2(n));
        } else {
            assert(pow2(n) * top == 0);
        }
    }
}

/// A number in `[2^(t-1), 2^t)` has `t` bits.
pub proof fn lemma_bit_width_range(v: nat, t: nat)
    requires
        t >= 1,
        pow2((t - 1) as nat) <= v < pow2(t),
    ensures
        bit_width(v) == t,
    decreases t,
{
    lemma2_to64();
    if t > 1 {
        lemma_pow2_unfold(t);
        lemma_pow2_unfold((t - 1) as nat);
        lemma_pow2_pos((t - 2) as nat);
        lemma_bit_width_range(v / 2, (t - 1) as nat);
    }
}

/// A number below `2^k` has at most `k` bits.
pub proof fn lemma_bit_width_bound(v: nat, k: nat)
    requires
        k >= 1,
        v < pow2(k),
    ensures
        1 <= bit_width(v) <= k,
    decreases k,
{
    lemma2_to64();
    if v >= 2 {
        lemma_pow2_unfold(k);
        lemma_bit_width_bound(v / 2, (k - 1) as nat);
    }
}

/// Cutting the zero bits off the top of a bit string leaves as many bits as
/// the binary representation of its value has; the all-zero string, which is
/// cut down to nothing, denotes zero, whose representation has one bit.
pub proof fn lemma_width_of_bits(bits: Seq<bool>)
    ensures
        trimmed_len(bits) <= bits.len(),
        trimmed_len(bits) == 0 ==> bits_value(bits) == 0,
        bit_width(bits_value(bits)) == if trimmed_len(bits) == 0 {
            1
        } else {
            trimmed_len(bits)
        },
    decreases bits.len(),
{
    if bits.len() > 0 {
        let low = bits.drop_last();
        lemma_width_of_bits(low);
        if bits.last() {
            lemma_bits_value_bound(low);
            lemma_pow2_unfold(bits.len());
            lemma_bit_width_range(bits_value(bits), bits.len());
        }
    }
}

} // verus!
