//! The arithmetic of the running sum: the chunks of a value, the terms of its
//! running sum, and how the two determine each other.
//!
//! For a value `v`, chunks of `k` bits and `num_bits` bits in all, chunk `i`
//! is `(v / 2^(i * k)) mod 2^len_i`, where `len_i` is `k` but for a last chunk
//! that takes what is left. The running sum starts at `v`; each term is the
//! one before, less its chunk, times the inverse of `2^k` in the field.

use crate::bits::bit_width;
use crate::bits::lemma_bit_width_bound;
use crate::field::bit_of;
use crate::field::lemma_modulus_bound;
use crate::field::modulus;
use crate::field::mul_mod;
use crate::field::sub_mod;
use vstd::arithmetic::div_mod::lemma_basic_div;
use vstd::arithmetic::div_mod::lemma_div_denominator;
use vstd::arithmetic::div_mod::lemma_div_pos_is_pos;
use vstd::arithmetic::div_mod::lemma_fundamental_div_mod;
use vstd::arithmetic::div_mod::lemma_mod_bound;
use vstd::arithmetic::div_mod::lemma_mod_breakdown;
use vstd::arithmetic::div_mod::lemma_mod_equivalence;
use vstd::arithmetic::div_mod::lemma_mul_mod_noop_general;
use vstd::arithmetic::div_mod::lemma_small_mod;
use vstd::arithmetic::div_mod::lemma_sub_mod_noop_right;
use vstd::arithmetic::mul::lemma_mul_is_associative;
use vstd::arithmetic::mul::lemma_mul_is_commutative;
use vstd::arithmetic::power2::lemma2_to64;
use vstd::arithmetic::power2::lemma_pow2_adds;
use vstd::arithmetic::power2::lemma_pow2_pos;
use vstd::arithmetic::power2::lemma_pow2_strictly_increases;
use vstd::arithmetic::power2::lemma_pow2_unfold;
use vstd::arithmetic::power2::pow2;
use vstd::prelude::*;

verus! {

/// The number of chunks of `k` bits that `num_bits` bits fall into, the last
/// of which may be shorter.
pub open spec fn chunk_count(num_bits: nat, k: nat) -> nat {
    if num_bits % k == 0 {
        num_bits / k
    } else {
        num_bits / k + 1
    }
}

/// The number of bits of chunk `i`: `k`, or what is left of `num_bits` for
/// the last chunk.
pub open spec fn chunk_len(i: nat, num_bits: nat, k: nat) -> nat {
    if (i + 1) * k <= num_bits {
        k
    } else {
        (num_bits - i * k) as nat
    }
}

/// Chunk `i` of the lowest `num_bits` bits of `v`.
pub open spec fn chunk_of(v: nat, i: nat, num_bits: nat, k: nat) -> nat {
    (v / pow2(i * k)) % pow2(chunk_len(i, num_bits, k))
}

/// The inverse of two in the field: half of the modulus plus one.
pub open spec fn half() -> nat {
    0x2000000000000000000000000000000011234c7e04a67c8dcc96987680000001nat
}

/// The inverse of `2^k` in the field.
pub open spec fn pow2_inverse(k: nat) -> nat
    decreases k,
{
    if k == 0 {
        1
    } else {
        mul_mod(pow2_inverse((k - 1) as nat), half())
    }
}

/// Term `i` of the running sum of `v`.
pub open spec fn running_sum_at(v: nat, i: nat, num_bits: nat, k: nat) -> nat
    decreases i,
{
    if i == 0 {
        v
    } else {
        mul_mod(
            sub_mod(
                running_sum_at(v, (i - 1) as nat, num_bits, k),
                chunk_of(v, (i - 1) as nat, num_bits, k),
            ),
            pow2_inverse(k),
        )
    }
}

/// The number that chunks of `k` bits denote, the first the least
/// significant.
pub open spec fn recompose(chunks: Seq<nat>, k: nat) -> nat
    decreases chunks.len(),
{
    if chunks.len() == 0 {
        0
    } else {
        recompose(chunks.drop_last(), k) + chunks.last() * pow2(((chunks.len() - 1) * k) as nat)
    }
}

/// The first `count` chunks of the lowest `num_bits` bits of `v`.
pub open spec fn chunks_of(v: nat, count: nat, num_bits: nat, k: nat) -> Seq<nat> {
    Seq::new(count, |i: int| chunk_of(v, i as nat, num_bits, k))
}

/// Chunk `i` exists exactly when it starts below `num_bits`.
pub proof fn lemma_chunk_count(i: nat, num_bits: nat, k: nat)
    requires
        k > 0,
    ensures
        i < chunk_count(num_bits, k) <==> i * k < num_bits,
        chunk_count(num_bits, k) <= num_bits,
        num_bits <= chunk_count(num_bits, k) * k,
        i < chunk_count(num_bits, k) ==> 0 < chunk_len(i, num_bits, k) <= k && i * k + chunk_len(
            i,
            num_bits,
            k,
        ) <= num_bits,
        (i + 1) * k == i * k + k,
{
    let q = num_bits / k;
    let r = num_bits % k;
    lemma_fundamental_div_mod(num_bits as int, k as int);
    assert(num_bits == k * q + r);
    assert((i + 1) * k == i * k + k) by (nonlinear_arith);
    assert(i < q ==> i * k + k <= k * q) by (nonlinear_arith)
        requires
            k > 0,
    ;
    assert(i >= q ==> i * k >= k * q) by (nonlinear_arith)
        requires
            k > 0,
    ;
    assert(i > q ==> i * k >= k * q + k) by (nonlinear_arith)
        requires
            k > 0,
    ;
    assert(q <= k * q) by (nonlinear_arith)
        requires
            k > 0,
    ;
    assert((q + 1) * k == k * q + k) by (nonlinear_arith);
    assert(q * k == k * q) by (nonlinear_arith);
}

/// `pow2_inverse(k)` is the inverse of `2^k`.
pub proof fn lemma_pow2_inverse(k: nat)
    ensures
        pow2_inverse(k) < modulus(),
        mul_mod(pow2(k), pow2_inverse(k)) == 1,
    decreases k,
{
    let m = modulus() as int;
    if k == 0 {
        lemma2_to64();
    } else {
        let a = pow2((k - 1) as nat) as int;
        let x = pow2_inverse((k - 1) as nat) as int;
        let h = half() as int;
        lemma_pow2_inverse((k - 1) as nat);
        lemma_pow2_unfold(k);
        assert((2 * a) * (x * h) == (a * x) * (2 * h)) by (nonlinear_arith);
        lemma_mul_mod_noop_general(2 * a, x * h, m);
        lemma_mul_mod_noop_general(a * x, 2 * h, m);
        assert((2 * h) % m == 1);
        assert(1 * 1 == 1);
    }
}

/// Multiplying a multiple of `t` by the inverse of `t` takes the factor `t`
/// out.
proof fn lemma_scaled_times_inverse(q: nat, t: nat, inv: nat)
    requires
        mul_mod(t, inv) == 1,
    ensures
        mul_mod(t * q, inv) == q % modulus(),
{
    let m = modulus() as int;
    let a = q as int;
    let b = t as int;
    let c = inv as int;
    assert((b * a) * c == a * (b * c)) by (nonlinear_arith);
    lemma_mul_mod_noop_general(a, b * c, m);
    assert(a * 1 == a);
}

/// The product of a residue with an inverse is zero only for zero.
proof fn lemma_times_inverse_zero(x: nat, t: nat, inv: nat)
    requires
        x < modulus(),
        mul_mod(t, inv) == 1,
    ensures
        mul_mod(x, inv) == 0 <==> x == 0,
{
    let m = modulus() as int;
    let a = x as int;
    let b = t as int;
    let c = inv as int;
    if x == 0 {
        assert(a * c == 0) by (nonlinear_arith)
            requires
                a == 0,
        ;
    }
    if mul_mod(x, inv) == 0 {
        // x = x * (inv * t) = (x * inv) * t = 0, modulo m
        assert(b * c == c * b) by (nonlinear_arith);
        lemma_mul_mod_noop_general(a, c * b, m);
        assert(a * 1 == a);
        lemma_mul_is_associative(a, c, b);
        lemma_mul_mod_noop_general(a * c, b, m);
        assert(0 * b == 0);
        lemma_small_mod(x, modulus());
    }
}

/// The lookup recovers the chunk: with `next = (z - c) * t^{-1}`, the
/// difference `z - next * t` is `c`.
pub proof fn lemma_chunk_recovered(z: nat, c: nat, t: nat, inv: nat)
    requires
        c < modulus(),
        mul_mod(t, inv) == 1,
    ensures
        sub_mod(z, mul_mod(mul_mod(sub_mod(z, c), inv), t)) == c,
{
    let m = modulus() as int;
    let d = sub_mod(z, c) as int;
    let b = t as int;
    let i = inv as int;
    // (d * inv) * t = d * (inv * t) = d, modulo m
    lemma_mul_mod_noop_general(d * i, b, m);
    lemma_mul_is_associative(d, i, b);
    assert(i * b == b * i) by (nonlinear_arith);
    lemma_mul_mod_noop_general(d, i * b, m);
    assert(d * 1 == d);
    lemma_small_mod(d as nat, modulus());
    assert(mul_mod(mul_mod(sub_mod(z, c), inv), t) == d);
    lemma_sub_mod_noop_right(z as int, z as int - c as int, m);
    lemma_small_mod(c, modulus());
}

/// Through the full chunks the running sum is the value shifted down: term
/// `i` is `v / 2^(i * k)`.
pub proof fn lemma_running_sum_shifts(v: nat, i: nat, num_bits: nat, k: nat)
    requires
        v < modulus(),
        k > 0,
        i * k <= num_bits,
    ensures
        running_sum_at(v, i, num_bits, k) == v / pow2(i * k),
    decreases i,
{
    if i == 0 {
        lemma2_to64();
        assert(0 * k == 0);
    } else {
        let j = (i - 1) as nat;
        lemma_chunk_count(j, num_bits, k);
        lemma_running_sum_shifts(v, j, num_bits, k);
        let z = running_sum_at(v, j, num_bits, k);
        let c = chunk_of(v, j, num_bits, k);
        lemma_pow2_pos(j * k);
        lemma_pow2_pos(k);
        lemma_div_pos_is_pos(v as int, pow2(j * k) as int);
        lemma_basic_div_bound(v, pow2(j * k));
        assert(chunk_len(j, num_bits, k) == k);
        assert(c == z % pow2(k));
        let q = z / pow2(k);
        lemma_fundamental_div_mod(z as int, pow2(k) as int);
        lemma_basic_div_bound(z, pow2(k));
        assert(z - c == pow2(k) * q);
        lemma_small_mod((z - c) as nat, modulus());
        assert(sub_mod(z, c) == pow2(k) * q);
        lemma_pow2_inverse(k);
        lemma_scaled_times_inverse(q, pow2(k), pow2_inverse(k));
        lemma_small_mod(q, modulus());
        lemma_div_denominator(v as int, pow2(j * k) as int, pow2(k) as int);
        lemma_pow2_adds(j * k, k);
    }
}

/// A quotient by a positive number is no larger than the dividend.
proof fn lemma_basic_div_bound(x: nat, d: nat)
    requires
        d > 0,
    ensures
        x / d <= x,
        x / d == 0 <==> x < d,
{
    lemma_fundamental_div_mod(x as int, d as int);
    let q = (x / d) as int;
    lemma_div_pos_is_pos(x as int, d as int);
    assert(q >= 1 ==> (d as int) * q >= q) by (nonlinear_arith)
        requires
            d > 0,
    ;
    assert(q >= 1 ==> (d as int) * q >= d) by (nonlinear_arith)
        requires
            d > 0,
    ;
    if x < d {
        lemma_basic_div(x as int, d as int);
    }
}

/// The running sum ends in zero exactly when the value fits into
/// `num_bits` bits.
pub proof fn lemma_running_sum_ends(v: nat, num_bits: nat, k: nat)
    requires
        v < modulus(),
        k > 0,
    ensures
        running_sum_at(v, chunk_count(num_bits, k), num_bits, k) == 0 <==> v < pow2(num_bits),
{
    let full = num_bits / k;
    let count = chunk_count(num_bits, k);
    lemma_fundamental_div_mod(num_bits as int, k as int);
    assert(full * k == k * full) by (nonlinear_arith);
    lemma_running_sum_shifts(v, full, num_bits, k);
    let z = running_sum_at(v, full, num_bits, k);
    lemma_pow2_pos(full * k);
    lemma_basic_div_bound(v, pow2(full * k));
    if num_bits % k == 0 {
        assert(full * k == num_bits);
    } else {
        let rest = (num_bits - full * k) as nat;
        lemma_chunk_count(full, num_bits, k);
        assert(chunk_len(full, num_bits, k) == rest);
        let c = chunk_of(v, full, num_bits, k);
        assert(c == z % pow2(rest));
        lemma_pow2_pos(rest);
        lemma_fundamental_div_mod(z as int, pow2(rest) as int);
        lemma_small_mod((z - c) as nat, modulus());
        assert(sub_mod(z, c) == z - c);
        lemma_pow2_inverse(k);
        lemma_times_inverse_zero((z - c) as nat, pow2(k), pow2_inverse(k));
        // z - c is zero exactly when z is below 2^rest
        lemma_basic_div_bound(z, pow2(rest));
        let q = (z / pow2(rest)) as int;
        assert(q == 0 ==> pow2(rest) * q == 0) by (nonlinear_arith);
        assert(q > 0 ==> pow2(rest) * q > 0) by (nonlinear_arith)
            requires
                pow2(rest) > 0,
        ;
        assert(z - c == 0 <==> z < pow2(rest));
        // and z is below 2^rest exactly when v is below 2^num_bits
        lemma_div_denominator(v as int, pow2(full * k) as int, pow2(rest) as int);
        lemma_pow2_adds(full * k, rest);
        lemma_pow2_pos(num_bits);
        lemma_basic_div_bound(v, pow2(num_bits));
    }
}

/// The first `count` chunks recompose to the value reduced modulo two to the
/// number of bits they cover.
pub proof fn lemma_recompose_prefix(v: nat, count: nat, num_bits: nat, k: nat)
    requires
        k > 0,
        count <= chunk_count(num_bits, k),
    ensures
        recompose(chunks_of(v, count, num_bits, k), k) == v % pow2(
            if count * k <= num_bits {
                count * k
            } else {
                num_bits
            },
        ),
    decreases count,
{
    if count == 0 {
        lemma2_to64();
        assert(0 * k == 0);
    } else {
        let j = (count - 1) as nat;
        let start = j * k;
        let len = chunk_len(j, num_bits, k);
        lemma_chunk_count(j, num_bits, k);
        lemma_recompose_prefix(v, j, num_bits, k);
        assert(chunks_of(v, count, num_bits, k).drop_last() =~= chunks_of(v, j, num_bits, k));
        lemma_pow2_pos(start);
        lemma_pow2_pos(len);
        lemma_pow2_adds(start, len);
        lemma_mod_breakdown(v as int, pow2(start) as int, pow2(len) as int);
        lemma_mul_is_commutative(pow2(start) as int, chunk_of(v, j, num_bits, k) as int);
    }
}

/// The chunks of a value recompose to what its lowest `num_bits` bits
/// denote, which is the value itself where it fits into that many bits.
pub proof fn lemma_recompose(v: nat, num_bits: nat, k: nat)
    requires
        k > 0,
    ensures
        recompose(chunks_of(v, chunk_count(num_bits, k), num_bits, k), k) == v % pow2(num_bits),
        v < pow2(num_bits) ==> recompose(chunks_of(v, chunk_count(num_bits, k), num_bits, k), k)
            == v,
{
    let count = chunk_count(num_bits, k);
    lemma_recompose_prefix(v, count, num_bits, k);
    lemma_chunk_count(count, num_bits, k);
    if v < pow2(num_bits) {
        lemma_small_mod(v, pow2(num_bits));
    }
}

/// One step of the running sum, read backwards: where `c`, below `2^k`, is
/// `z - next * 2^k` in the field, and `next` is below `2^rest` with
/// `rest + k` bits below the modulus, `z` is `c + next * 2^k` as an integer,
/// and so below `2^(rest + k)`.
pub proof fn lemma_running_sum_step(z: nat, next: nat, c: nat, k: nat, rest: nat)
    requires
        z < modulus(),
        next < pow2(rest),
        c < pow2(k),
        c == sub_mod(z, mul_mod(next, pow2(k))),
        rest + k <= 254,
    ensures
        z == c + pow2(k) * next,
        z < pow2(rest + k),
{
    let m = modulus() as int;
    let t = pow2(k) as int;
    let r = pow2(rest) as int;
    let x = next as int;
    lemma_modulus_bound();
    lemma_pow2_adds(rest, k);
    lemma_pow2_pos(rest);
    lemma_pow2_pos(k);
    if rest + k < 254 {
        lemma_pow2_strictly_increases(rest + k, 254);
    }
    assert(0 <= x * t <= r * t - t) by (nonlinear_arith)
        requires
            0 <= x <= r - 1,
            t > 0,
    ;
    assert(r * t == pow2(rest + k));
    lemma_small_mod((x * t) as nat, modulus());
    assert(mul_mod(next, pow2(k)) == x * t);
    let whole = c as int + x * t;
    assert(0 <= whole < m);
    // z - x * t is c modulo m, so z is c + x * t modulo m
    lemma_small_mod(c, modulus());
    lemma_mod_equivalence(z as int - x * t, c as int, m);
    lemma_mod_equivalence(z as int, whole, m);
    lemma_small_mod(whole as nat, modulus());
    lemma_small_mod(z, modulus());
    assert(z == whole);
    assert(pow2(k) * next == x * t) by (nonlinear_arith)
        requires
            pow2(k) == t,
            next == x,
    ;
}

/// A value below `2^i` has no bit at position `i`.
pub proof fn lemma_high_bit_clear(v: nat, i: nat)
    requires
        v < pow2(i),
    ensures
        !bit_of(v, i),
{
    lemma_pow2_pos(i);
    lemma_basic_div_bound(v, pow2(i));
}

/// The last chunk: where `K` does not divide `num_bits` it has the bits
/// that are left over, fewer than `K`. Whatever its length, a chunk is
/// below two to its length and is looked up with its bit width, which is
/// one for a chunk of zero.
pub proof fn lemma_last_chunk(v: nat, num_bits: nat, k: nat)
    requires
        k > 0,
        num_bits > 0,
    ensures
        chunk_count(num_bits, k) > 0,
        chunk_len((chunk_count(num_bits, k) - 1) as nat, num_bits, k) == if num_bits % k == 0 {
            k
        } else {
            num_bits % k
        },
        chunk_of(v, (chunk_count(num_bits, k) - 1) as nat, num_bits, k) < pow2(
            chunk_len((chunk_count(num_bits, k) - 1) as nat, num_bits, k),
        ),
        1 <= bit_width(chunk_of(v, (chunk_count(num_bits, k) - 1) as nat, num_bits, k))
            <= chunk_len((chunk_count(num_bits, k) - 1) as nat, num_bits, k),
        bit_width(0) == 1,
{
    let count = chunk_count(num_bits, k);
    lemma_chunk_count(0, num_bits, k);
    assert(0 * k == 0);
    let last = (count - 1) as nat;
    lemma_chunk_count(last, num_bits, k);
    lemma_chunk_count(count, num_bits, k);
    lemma_fundamental_div_mod(num_bits as int, k as int);
    let full = num_bits / k;
    assert(full * k == k * full) by (nonlinear_arith);
    assert((full + 1) * k == full * k + k) by (nonlinear_arith);
    let len = chunk_len(last, num_bits, k);
    lemma_pow2_pos(last * k);
    lemma_pow2_pos(len);
    lemma_mod_bound((v / pow2(last * k)) as int, pow2(len) as int);
    lemma_bit_width_bound(chunk_of(v, last, num_bits, k), len);
}

} // verus!
