//! The decomposition of a field element into chunks of `K` bits by a running
//! sum, each chunk looked up with its bit width in a tagged table of `2^K`
//! rows.
//!
//! For a value `v` and a number of bits `N`, with `C` the number of chunks:
//!
//! ```text
//! z_0     = v
//! z_{i+1} = (z_i - c_i) * 2^{-K}      for i < C
//! z_C     = 0
//! ```
//!
//! where `c_i` is chunk `i` of the lowest `N` bits of `v`. The last chunk is
//! shorter than `K` bits where `K` does not divide `N`. Row `i` of the region
//! holds `z_i`, and row `i + 1` holds beside `z_{i+1}` the bit width of
//! `c_i`; the lookup at row `i` recovers `c_i` as `z_i - z_{i+1} * 2^K`.

use crate::bits::bit_width;
use crate::bits::bits_value;
use crate::bits::lemma_bit_width_bound;
use crate::bits::lemma_bits_value_window;
use crate::bits::lemma_width_of_bits;
use crate::bits::trimmed_len;
use crate::circuit::assigned_in;
use crate::circuit::lemma_entry_added;
use crate::circuit::value_in;
use crate::circuit::AssignedCell;
use crate::circuit::Assignment;
use crate::circuit::CopyConstraint;
use crate::circuit::Layouter;
use crate::circuit::Region;
use crate::circuit::Value;
use crate::field::bit_of;
use crate::field::lemma_modulus_bound;
use crate::field::modulus;
use crate::field::mul_mod;
use crate::field::sub_mod;
use crate::field::FieldElement;
use crate::gadgets::is_zero::lemma_inverse_unique;
use crate::gadgets::range_check_with_bits::is_tagged_lookup;
use crate::gadgets::range_check_with_bits::lemma_tagged_lookup_off;
use crate::gadgets::range_check_with_bits::lemma_tagged_lookup_on;
use crate::gadgets::range_check_with_bits::RangeCheckConfig;
use crate::plonk::Column;
use crate::plonk::ColumnKind;
use crate::plonk::ConstraintSystem;
use crate::plonk::Error;
use crate::plonk::Expression;
use crate::plonk::FixedRole;
use crate::plonk::Grid;
use crate::plonk::Lookup;
use crate::plonk::Polynomial;
use crate::plonk::Rotation;
use crate::plonk::Selector;
use crate::plonk::Tables;
use crate::range_check::running_sum::chunk_count;
use crate::range_check::running_sum::chunk_len;
use crate::range_check::running_sum::chunk_of;
use crate::range_check::running_sum::chunks_of;
use crate::range_check::running_sum::lemma_chunk_count;
use crate::range_check::running_sum::lemma_chunk_recovered;
use crate::range_check::running_sum::lemma_high_bit_clear;
use crate::range_check::running_sum::lemma_pow2_inverse;
use crate::range_check::running_sum::lemma_recompose;
use crate::range_check::running_sum::lemma_running_sum_ends;
use crate::range_check::running_sum::lemma_running_sum_step;
use crate::range_check::running_sum::pow2_inverse;
use crate::range_check::running_sum::recompose;
use crate::range_check::running_sum::running_sum_at;
use vstd::arithmetic::div_mod::lemma_fundamental_div_mod;
use vstd::arithmetic::div_mod::lemma_mod_bound;
use vstd::arithmetic::div_mod::lemma_small_mod;
use vstd::arithmetic::power2::lemma2_to64;
use vstd::arithmetic::power2::lemma_pow2_pos;
use vstd::arithmetic::power2::lemma_pow2_strictly_increases;
use vstd::arithmetic::power2::lemma_pow2_unfold;
use vstd::arithmetic::power2::pow2;
use vstd::bits::lemma_u64_pow2_no_overflow;
use vstd::bits::lemma_u64_shl_is_mul;
use vstd::bits::lemma_usize_pow2_no_overflow;
use vstd::bits::lemma_usize_shl_is_mul;
use vstd::prelude::*;

verus! {

/// The witness of a decomposition: the chunks, their bit widths, and the
/// terms of the running sum, one more than there are chunks.
#[derive(Clone, Debug, PartialEq, Eq)]
pub struct Decomposition {
    pub chunks: Vec<u64>,
    pub widths: Vec<u64>,
    pub running_sum: Vec<FieldElement>,
}

impl Decomposition {
    /// Whether this is the decomposition of the lowest `num_bits` bits of `v`
    /// into chunks of `k` bits.
    pub open spec fn is_of(self, v: nat, num_bits: nat, k: nat) -> bool {
        let count = chunk_count(num_bits, k);
        &&& self.chunks@.len() == count
        &&& self.widths@.len() == count
        &&& self.running_sum@.len() == count + 1
        &&& forall|i: int|
            0 <= i < count ==> #[trigger] self.chunks@[i] == chunk_of(v, i as nat, num_bits, k)
        &&& forall|i: int|
            0 <= i < count ==> #[trigger] self.widths@[i] == bit_width(
                chunk_of(v, i as nat, num_bits, k),
            )
        &&& forall|i: int|
            0 <= i <= count ==> (#[trigger] self.running_sum@[i])@ == running_sum_at(
                v,
                i as nat,
                num_bits,
                k,
            )
    }
}

/// The polynomial that the lookup reads a chunk from: `z - z_next * 2^k`,
/// with `z` the running sum at the row and `z_next` at the row after.
pub open spec fn chunk_polynomial(running_sum: Column, k: nat) -> Polynomial {
    Polynomial::difference(
        Polynomial::advice(running_sum, 0),
        Polynomial::product(Polynomial::advice(running_sum, 1), Polynomial::Constant(pow2(k))),
    )
}

/// The decomposition of a cell into chunks of `lookup_bits` bits.
#[derive(Clone, Copy, Debug, PartialEq, Eq)]
pub struct DecomposeConfig {
    /// The column of the running sum.
    pub running_sum: Column,
    /// The column of the bit widths of the chunks.
    pub c_i_bits: Column,
    /// The selector of the lookup of the chunks.
    pub decompose_selector: Selector,
    /// The tagged lookup, with its table of `2^lookup_bits` rows.
    pub table: RangeCheckConfig,
    /// The number of bits of a chunk.
    pub lookup_bits: usize,
}

impl DecomposeConfig {
    /// The number that a little-endian string of at most 64 bits denotes.
    pub fn bits_to_u64_little_endian(bits: &[bool]) -> (r: u64)
        requires
            bits@.len() <= 64,
        ensures
            r == bits_value(bits@),
    {
        let mut acc: u64 = 0;
        let mut i: usize = 0;
        proof {
            lemma2_to64();
        }
        while i < bits.len()
            invariant
                i <= bits@.len() <= 64,
                acc == bits_value(bits@.take(i as int)),
                acc < pow2(i as nat),
            decreases bits@.len() - i,
        {
            proof {
                lemma2_to64();
                lemma_u64_pow2_no_overflow(i as nat);
                lemma_u64_shl_is_mul(1, i as u64);
                lemma_pow2_unfold((i + 1) as nat);
                if i + 1 < 64 {
                    lemma_pow2_strictly_increases((i + 1) as nat, 64);
                }
                assert(bits@.take(i + 1).drop_last() =~= bits@.take(i as int));
            }
            if bits[i] {
                acc = acc + (1u64 << (i as u64));
            }
            i = i + 1;
        }
        proof {
            assert(bits@.take(bits@.len() as int) =~= bits@);
        }
        acc
    }

    /// Splits the lowest `num_bits` bits of a value into chunks of
    /// `lookup_bits` bits, with the bit width of each chunk, a chunk of zero
    /// counting as one bit wide, and the running sum. Chunks of no bit, or of
    /// more than 63 bits, are refused.
    pub fn decompose(value: &FieldElement, num_bits: usize, lookup_bits: usize) -> (r: Result<
        Decomposition,
        Error,
    >)
        ensures
            r is Err <==> lookup_bits == 0 || lookup_bits >= 64,
            r is Err ==> r == Err::<Decomposition, Error>(Error::Configuration),
            r matches Ok(d) ==> d.is_of(value@, num_bits as nat, lookup_bits as nat),
            value@ < modulus(),
    {
        let bits = value.to_le_bits();
        if lookup_bits == 0 || lookup_bits >= 64 {
            return Err(Error::Configuration);
        }
        let ghost v = value@;
        let ghost n = num_bits as nat;
        let ghost k = lookup_bits as nat;
        proof {
            lemma_u64_pow2_no_overflow(k);
            lemma_u64_shl_is_mul(1, lookup_bits as u64);
            lemma_pow2_pos(k);
            lemma_pow2_inverse(k);
        }
        let two_pow_k = FieldElement::from_u64(1u64 << (lookup_bits as u64));
        let inverse = two_pow_k.invert_or_zero();
        proof {
            lemma_inverse_unique(pow2(k), inverse@, pow2_inverse(k));
            assert(0 * k == 0);
        }
        let mut chunks: Vec<u64> = Vec::new();
        let mut widths: Vec<u64> = Vec::new();
        let mut running_sum: Vec<FieldElement> = Vec::new();
        let mut z = *value;
        running_sum.push(z);
        let mut start: usize = 0;
        while start < num_bits
            invariant
                1 <= lookup_bits < 64,
                v == value@,
                n == num_bits as nat,
                k == lookup_bits as nat,
                v < modulus(),
                bits@.len() == 256,
                forall|j: int| 0 <= j < 256 ==> bits@[j] == bit_of(v, j as nat),
                inverse@ == pow2_inverse(k),
                start <= num_bits,
                chunks@.len() <= chunk_count(n, k),
                widths@.len() == chunks@.len(),
                running_sum@.len() == chunks@.len() + 1,
                start == if chunks@.len() * k <= n {
                    chunks@.len() * k
                } else {
                    n
                },
                z == running_sum@[chunks@.len() as int],
                forall|i: int|
                    0 <= i < chunks@.len() ==> #[trigger] chunks@[i] == chunk_of(v, i as nat, n, k),
                forall|i: int|
                    0 <= i < chunks@.len() ==> #[trigger] widths@[i] == bit_width(
                        chunk_of(v, i as nat, n, k),
                    ),
                forall|i: int|
                    0 <= i <= chunks@.len() ==> (#[trigger] running_sum@[i])@ == running_sum_at(
                        v,
                        i as nat,
                        n,
                        k,
                    ),
            decreases num_bits - start,
        {
            let ghost i = chunks@.len();
            proof {
                lemma_chunk_count(i, n, k);
            }
            let len = if num_bits - start < lookup_bits {
                num_bits - start
            } else {
                lookup_bits
            };
            assert(len == chunk_len(i, n, k));
            // the bits of the chunk, with zero for what lies beyond the
            // field's representation
            let mut chunk: Vec<bool> = Vec::new();
            let mut j: usize = 0;
            while j < len
                invariant
                    j <= len,
                    start + len <= num_bits,
                    chunk@.len() == j,
                    v < modulus(),
                    bits@.len() == 256,
                    forall|t: int| 0 <= t < 256 ==> bits@[t] == bit_of(v, t as nat),
                    forall|t: int| 0 <= t < j ==> chunk@[t] == bit_of(v, (start + t) as nat),
                decreases len - j,
            {
                let at = start + j;
                let bit = if at < bits.len() {
                    bits[at]
                } else {
                    false
                };
                proof {
                    if at >= 256 {
                        lemma_modulus_bound();
                        if at > 255 {
                            lemma_pow2_strictly_increases(255, at as nat);
                        }
                        lemma_high_bit_clear(v, at as nat);
                    }
                }
                chunk.push(bit);
                j = j + 1;
            }
            // the bits that count: all but the zero bits at the top
            let mut top: usize = len;
            proof {
                assert(chunk@.take(len as int) =~= chunk@);
            }
            while top > 0 && !chunk[top - 1]
                invariant
                    top <= len,
                    chunk@.len() == len,
                    trimmed_len(chunk@) == trimmed_len(chunk@.take(top as int)),
                decreases top,
            {
                proof {
                    assert(chunk@.take(top as int).drop_last() =~= chunk@.take(top - 1));
                }
                top = top - 1;
            }
            let zero_bits = len - top;
            let mut chunk_bits = len - zero_bits;
            if chunk_bits == 0 {
                chunk_bits = 1;
            }
            let c = Self::bits_to_u64_little_endian(chunk.as_slice());
            proof {
                assert(chunk@.take(chunk@.len() as int) =~= chunk@);
                assert(trimmed_len(chunk@) == top) by {
                    if top > 0 {
                        assert(chunk@.take(top as int).last() == chunk@[top - 1]);
                    }
                }
                lemma_bits_value_window(v, start as nat, chunk@);
                lemma_width_of_bits(chunk@);
                assert(c == chunk_of(v, i, n, k));
                assert(chunk_bits == bit_width(c as nat));
            }
            z = z.minus(&FieldElement::from_u64(c)).times(&inverse);
            chunks.push(c);
            widths.push(chunk_bits as u64);
            running_sum.push(z);
            start = start + len;
            proof {
                lemma_chunk_count(i + 1, n, k);
            }
        }
        proof {
            lemma_chunk_count(chunks@.len(), n, k);
        }
        Ok(Decomposition { chunks, widths, running_sum })
    }

    /// Declares the decomposition on the columns `running_sum` and
    /// `c_i_bits`: a complex selector, a fixed column for the constant zero,
    /// equality on the running sum, and the tagged lookup of the chunk
    /// `z - z_next * 2^lookup_bits` and the bit width beside `z_next`, in a
    /// table of `2^lookup_bits` rows.
    pub fn configure(
        meta: &mut ConstraintSystem,
        running_sum: Column,
        c_i_bits: Column,
        lookup_bits: usize,
    ) -> (config: Self)
        requires
            1 <= lookup_bits < usize::BITS,
        ensures
            config.running_sum == running_sum,
            config.c_i_bits == c_i_bits,
            config.lookup_bits == lookup_bits,
            config.decompose_selector.index == old(meta).selectors@.len(),
            config.decompose_selector.complex,
            config.table.lookup_table.value.index == old(meta).fixed@.len() + 1,
            config.table.lookup_table.bits.index == old(meta).fixed@.len() + 2,
            config.table.lookup_table.lookup_range == pow2(lookup_bits as nat),
            final(meta).selectors@ == old(meta).selectors@.push(true),
            final(meta).fixed@ == old(meta).fixed@.push(FixedRole::Constants).push(
                FixedRole::Table,
            ).push(FixedRole::Table),
            final(meta).advice@ == if running_sum.kind == ColumnKind::Advice && running_sum.index
                < old(meta).advice@.len() {
                old(meta).advice@.update(running_sum.index as int, true)
            } else {
                old(meta).advice@
            },
            final(meta).lookups@.len() == old(meta).lookups@.len() + 1,
            final(meta).lookups@.drop_last() == old(meta).lookups@,
            config.is_lookup(final(meta).lookups@.last()),
            final(meta).gates == old(meta).gates,
            running_sum.kind == ColumnKind::Advice && c_i_bits.kind == ColumnKind::Advice
                && running_sum != c_i_bits ==> config.wf(),
    {
        let decompose_selector = meta.complex_selector();
        let fixed_column = meta.fixed_column();
        meta.enable_constant(fixed_column);
        meta.enable_equality(running_sum);
        proof {
            lemma_usize_pow2_no_overflow(lookup_bits as nat);
            lemma_usize_shl_is_mul(1, lookup_bits);
            assert(meta.fixed@ =~= old(meta).fixed@.push(FixedRole::Constants));
            reveal_with_fuel(Polynomial::has_simple_selector, 5);
        }
        let range: usize = 1usize << lookup_bits;
        let two_to_k = Expression::constant(FieldElement::from_u64(range as u64));
        let value = Expression::query_advice(running_sum, Rotation::cur()).minus(
            Expression::query_advice(running_sum, Rotation::next()).times(two_to_k),
        );
        let bits = Expression::query_advice(c_i_bits, Rotation::next());
        let table = RangeCheckConfig::configure(
            meta,
            value,
            bits,
            Expression::query_selector(decompose_selector),
            range,
        );
        DecomposeConfig { running_sum, c_i_bits, decompose_selector, table, lookup_bits }
    }

    /// Whether the configuration cannot be assigned for `num_bits` bits:
    /// chunks of no bit or of more than 63, a running sum that is no advice
    /// column, or, where there is any chunk, a column of bit widths that is
    /// no advice column or is the column of the running sum.
    pub open spec fn is_miswired(self, num_bits: usize) -> bool {
        ||| self.lookup_bits == 0
        ||| self.lookup_bits >= 64
        ||| self.running_sum.kind != ColumnKind::Advice
        ||| num_bits > 0 && (self.c_i_bits.kind != ColumnKind::Advice || self.c_i_bits
            == self.running_sum)
    }

    /// Term `i` of the running sum of a value that may be unknown.
    pub open spec fn sum_cell(self, value: Value<nat>, i: nat, num_bits: nat) -> Value<nat> {
        match value {
            Value::Unknown => Value::Unknown,
            Value::Known(v) => Value::Known(running_sum_at(v, i, num_bits, self.lookup_bits as nat)),
        }
    }

    /// The bit width of chunk `i` of a value that may be unknown.
    pub open spec fn width_cell(self, value: Value<nat>, i: nat, num_bits: nat) -> Value<nat> {
        match value {
            Value::Unknown => Value::Unknown,
            Value::Known(v) => Value::Known(
                bit_width(chunk_of(v, i, num_bits, self.lookup_bits as nat)),
            ),
        }
    }

    /// Whether a region is the one that [`DecomposeConfig::assign`] lays out
    /// for a source cell and a number of bits. With `C` the number of chunks:
    /// rows `0..=C` of the running sum hold its terms, the first as a copy of
    /// the source; rows `1..=C` of the other column hold the bit widths of
    /// the chunks; the selector is enabled at rows `0..C`; and the last term
    /// is constrained to zero. No other cell holds a value.
    pub open spec fn is_assigned_region(
        self,
        region: Region,
        source: AssignedCell,
        num_bits: usize,
    ) -> bool {
        let count = chunk_count(num_bits as nat, self.lookup_bits as nat);
        &&& region.name@ == "decompose"@
        &&& region.selectors@ =~= Seq::new(count, |i: int| (self.decompose_selector, i as usize))
        &&& region.copies@ =~= seq![
            CopyConstraint { from: source.cell, column: self.running_sum, offset: 0 },
        ]
        &&& region.constants@.len() == 1
        &&& region.constants@[0].column == self.running_sum
        &&& region.constants@[0].offset == count
        &&& region.constants@[0].value@ == 0
        &&& region.cells@.len() == 2 * count + 1
        &&& forall|i: int|
            #![trigger region.value_at(self.running_sum, i)]
            0 <= i <= count ==> region.is_assigned(self.running_sum, i) && region.value_at(
                self.running_sum,
                i,
            ) == self.sum_cell(source.value@, i as nat, num_bits as nat)
        &&& forall|i: int|
            #![trigger region.value_at(self.c_i_bits, i)]
            1 <= i <= count ==> region.is_assigned(self.c_i_bits, i) && region.value_at(
                self.c_i_bits,
                i,
            ) == self.width_cell(source.value@, (i - 1) as nat, num_bits as nat)
    }

    /// Whether the configuration is wired as [`DecomposeConfig::configure`]
    /// leaves it for two distinct advice columns: chunks of 1 to 63 bits, and
    /// a table of `2^lookup_bits` rows.
    pub open spec fn wf(self) -> bool {
        &&& 1 <= self.lookup_bits < 64
        &&& self.running_sum.kind == ColumnKind::Advice
        &&& self.c_i_bits.kind == ColumnKind::Advice
        &&& self.running_sum != self.c_i_bits
        &&& self.table.lookup_table.lookup_range == pow2(self.lookup_bits as nat)
    }

    /// Whether a lookup is the one that [`DecomposeConfig::configure`]
    /// declares.
    pub open spec fn is_lookup(self, lookup: Lookup) -> bool {
        is_tagged_lookup(
            lookup,
            Polynomial::Selector(self.decompose_selector),
            chunk_polynomial(self.running_sum, self.lookup_bits as nat),
            Polynomial::advice(self.c_i_bits, 1),
            self.table.lookup_table,
        )
    }

    /// The lookup holds at every row of the region that
    /// [`DecomposeConfig::assign`] lays out for a known value, whether the
    /// value fits into `num_bits` bits or not: at the rows of the chunks it
    /// finds each chunk with its bit width in the table, a chunk of zero with
    /// width one, and at the other rows it is switched off.
    pub proof fn lemma_lookup_holds(
        self,
        lookup: Lookup,
        region: Region,
        source: AssignedCell,
        num_bits: usize,
        tables: Tables,
        row: int,
    )
        requires
            self.wf(),
            self.is_lookup(lookup),
            self.table.lookup_table.loaded_in(tables),
            self.is_assigned_region(region, source, num_bits),
            source.value matches Value::Known(v) && v@ < modulus(),
        ensures
            lookup.holds(region.grid(), row, tables),
    {
        let v = source.value->Known_0@;
        let n = num_bits as nat;
        let k = self.lookup_bits as nat;
        let count = chunk_count(n, k);
        let grid = region.grid();
        let selector = Polynomial::Selector(self.decompose_selector);
        let chunk = chunk_polynomial(self.running_sum, k);
        let bits = Polynomial::advice(self.c_i_bits, 1);
        let table = self.table.lookup_table;
        lemma_pow2_pos(k);
        lemma_chunk_count(0, n, k);
        region.lemma_selector_query(self.decompose_selector, row);
        if 0 <= row < count {
            let i = row as nat;
            assert(region.selectors@[row] == (self.decompose_selector, row as usize));
            assert(selector.eval(grid, row) == 1);
            let z = running_sum_at(v, i, n, k);
            let next = running_sum_at(v, i + 1, n, k);
            let c = chunk_of(v, i, n, k);
            let width = bit_width(c);
            // what the cells hold
            assert(region.value_at(self.running_sum, row) == Value::Known(z));
            assert(region.value_at(self.running_sum, row + 1) == Value::Known(next));
            assert(region.value_at(self.c_i_bits, row + 1) == Value::Known(width));
            region.lemma_advice_query(self.running_sum, 0, row, z);
            region.lemma_advice_query(self.running_sum, 1, row, next);
            region.lemma_advice_query(self.c_i_bits, 1, row, width);
            // the chunk and its width are small
            lemma_chunk_count(i, n, k);
            lemma_pow2_pos(i * k);
            lemma_pow2_pos(chunk_len(i, n, k));
            if chunk_len(i, n, k) < k {
                lemma_pow2_strictly_increases(chunk_len(i, n, k), k);
            }
            assert(c < pow2(k)) by {
                lemma_mod_bound((v / pow2(i * k)) as int, pow2(chunk_len(i, n, k)) as int);
            }
            lemma_modulus_bound();
            lemma_pow2_strictly_increases(k, 64);
            lemma_bit_width_bound(c, k);
            lemma_small_mod(width, modulus());
            lemma_small_mod(pow2(k), modulus());
            lemma_small_mod(next, modulus());
            if i > 0 {
                assert(z < modulus());
            }
            lemma_small_mod(z, modulus());
            // the lookup reads the chunk back from the running sum
            lemma_pow2_inverse(k);
            lemma_chunk_recovered(z, c, pow2(k), pow2_inverse(k));
            reveal_with_fuel(Polynomial::eval, 3);
            Polynomial::lemma_eval_difference(
                Polynomial::advice(self.running_sum, 0),
                Polynomial::product(
                    Polynomial::advice(self.running_sum, 1),
                    Polynomial::Constant(pow2(k)),
                ),
                grid,
                row,
            );
            assert(chunk.eval(grid, row) == c);
            assert(bits.eval(grid, row) == width);
            lemma_tagged_lookup_on(lookup, selector, chunk, bits, table, grid, row, tables);
        } else {
            assert(selector.eval(grid, row) == 0);
            lemma_tagged_lookup_off(lookup, selector, chunk, bits, table, grid, row, tables);
        }
    }

    /// The constant zero to which the region that
    /// [`DecomposeConfig::assign`] lays out constrains the last term of the
    /// running sum is met exactly when the value fits into `num_bits` bits. A
    /// wider value leaves a circuit that cannot be satisfied.
    pub proof fn lemma_constant_holds(self, region: Region, source: AssignedCell, num_bits: usize)
        requires
            self.wf(),
            self.is_assigned_region(region, source, num_bits),
            source.value matches Value::Known(v) && v@ < modulus(),
        ensures
            region.constants_hold() <==> source.value->Known_0@ < pow2(num_bits as nat),
    {
        let v = source.value->Known_0@;
        let n = num_bits as nat;
        let k = self.lookup_bits as nat;
        let count = chunk_count(n, k);
        lemma_running_sum_ends(v, n, k);
        assert(region.value_at(self.running_sum, count as int) == Value::Known(
            running_sum_at(v, count, n, k),
        ));
        if region.constants_hold() {
            assert(region.constants@[0].offset == count);
        }
    }

    /// Whether, in a grid, the lookup is enabled and holds at each of the
    /// rows `0..count`, and the running sum is zero at row `count`.
    pub open spec fn is_satisfied_by(
        self,
        lookup: Lookup,
        grid: Grid,
        tables: Tables,
        count: nat,
    ) -> bool {
        &&& forall|row: int|
            0 <= row < count ==> #[trigger] grid.selectors.contains(
                (self.decompose_selector.index as int, row),
            )
        &&& forall|row: int| 0 <= row < count ==> #[trigger] lookup.holds(grid, row, tables)
        &&& Polynomial::advice(self.running_sum, 0).eval(grid, count as int) == 0
    }

    /// Soundness, whoever filled the cells: in any grid in which the lookup
    /// is enabled and holds at rows `0..count` and the running sum is zero at
    /// row `count`, the running sum at row zero is below `2^(count * K)`,
    /// provided that many bits lie below the modulus. A value of that many
    /// bits or more cannot satisfy the circuit.
    pub proof fn lemma_sound(self, lookup: Lookup, grid: Grid, tables: Tables, count: nat)
        requires
            self.wf(),
            self.is_lookup(lookup),
            self.table.lookup_table.loaded_in(tables),
            count * self.lookup_bits <= 254,
            self.is_satisfied_by(lookup, grid, tables, count),
        ensures
            Polynomial::advice(self.running_sum, 0).eval(grid, 0) < pow2(
                (count * self.lookup_bits) as nat,
            ),
    {
        self.lemma_sound_from(lookup, grid, tables, count, 0);
        assert(count - 0 == count);
    }

    /// Soundness for whole chunks: where `K` divides `num_bits`, and
    /// `num_bits` bits lie below the modulus, no grid satisfies the circuit
    /// for a value of `2^num_bits` or more, whoever filled the cells.
    pub proof fn lemma_wide_value_is_refused(
        self,
        lookup: Lookup,
        grid: Grid,
        tables: Tables,
        num_bits: nat,
    )
        requires
            self.wf(),
            self.is_lookup(lookup),
            self.table.lookup_table.loaded_in(tables),
            num_bits % (self.lookup_bits as nat) == 0,
            num_bits <= 254,
            Polynomial::advice(self.running_sum, 0).eval(grid, 0) >= pow2(num_bits),
        ensures
            !self.is_satisfied_by(
                lookup,
                grid,
                tables,
                chunk_count(num_bits, self.lookup_bits as nat),
            ),
    {
        let k = self.lookup_bits as nat;
        let count = chunk_count(num_bits, k);
        lemma_fundamental_div_mod(num_bits as int, k as int);
        assert(count * k == k * count) by (nonlinear_arith);
        if self.is_satisfied_by(lookup, grid, tables, count) {
            self.lemma_sound(lookup, grid, tables, count);
        }
    }

    /// The induction behind [`DecomposeConfig::lemma_sound`], from the last
    /// row down: term `from` of the running sum is below
    /// `2^((count - from) * K)`, and it is the chunk that the lookup reads at
    /// its row plus `2^K` times the term after it, as integers.
    proof fn lemma_sound_from(
        self,
        lookup: Lookup,
        grid: Grid,
        tables: Tables,
        count: nat,
        from: nat,
    )
        requires
            self.wf(),
            self.is_lookup(lookup),
            self.table.lookup_table.loaded_in(tables),
            count * self.lookup_bits <= 254,
            from <= count,
            self.is_satisfied_by(lookup, grid, tables, count),
        ensures
            Polynomial::advice(self.running_sum, 0).eval(grid, from as int) < pow2(
                ((count - from) * self.lookup_bits) as nat,
            ),
            from < count ==> Polynomial::advice(self.running_sum, 0).eval(grid, from as int)
                == chunk_polynomial(self.running_sum, self.lookup_bits as nat).eval(
                grid,
                from as int,
            ) + pow2(self.lookup_bits as nat) * Polynomial::advice(self.running_sum, 0).eval(
                grid,
                from as int + 1,
            ),
        decreases count - from,
    {
        let k = self.lookup_bits as nat;
        let sum = Polynomial::advice(self.running_sum, 0);
        let z = sum.eval(grid, from as int);
        if from == count {
            lemma2_to64();
            assert((count - from) * self.lookup_bits == 0) by (nonlinear_arith)
                requires
                    from == count,
            ;
        } else {
            let row = from as int;
            self.lemma_sound_from(lookup, grid, tables, count, from + 1);
            let next = sum.eval(grid, row + 1);
            let selector = Polynomial::Selector(self.decompose_selector);
            let chunk = chunk_polynomial(self.running_sum, k);
            let bits = Polynomial::advice(self.c_i_bits, 1);
            assert(grid.selectors.contains((self.decompose_selector.index as int, row)));
            assert(lookup.holds(grid, row, tables));
            lemma_tagged_lookup_on(
                lookup,
                selector,
                chunk,
                bits,
                self.table.lookup_table,
                grid,
                row,
                tables,
            );
            let c = chunk.eval(grid, row);
            // the chunk is z - next * 2^k modulo the modulus
            assert(c == sub_mod(z, mul_mod(next, pow2(k)))) by {
                reveal_with_fuel(Polynomial::eval, 3);
                let shifted = Polynomial::product(
                    Polynomial::advice(self.running_sum, 1),
                    Polynomial::Constant(pow2(k)),
                );
                Polynomial::lemma_eval_difference(sum, shifted, grid, row);
                lemma_modulus_bound();
                lemma_pow2_strictly_increases(k, 64);
                lemma_small_mod(pow2(k), modulus());
            }
            sum.lemma_eval_bound(grid, row);
            let rest = ((count - from - 1) * self.lookup_bits) as nat;
            let all = ((count - from) * self.lookup_bits) as nat;
            assert(all == rest + k && all <= 254) by (nonlinear_arith)
                requires
                    all == (count - from) * k,
                    rest == (count - from - 1) * k,
                    count * k <= 254,
                    from < count,
            ;
            lemma_running_sum_step(z, next, c, k, rest);
        }
    }

    /// Round trip: for a value that fits into `num_bits` bits, the region
    /// that [`DecomposeConfig::assign`] lays out satisfies the lookup at every
    /// row and the constraint to zero, and the chunks recompose to the value.
    pub proof fn lemma_round_trip(
        self,
        lookup: Lookup,
        region: Region,
        source: AssignedCell,
        num_bits: usize,
        tables: Tables,
    )
        requires
            self.wf(),
            self.is_lookup(lookup),
            self.table.lookup_table.loaded_in(tables),
            self.is_assigned_region(region, source, num_bits),
            source.value matches Value::Known(v) && v@ < modulus() && v@ < pow2(num_bits as nat),
        ensures
            forall|row: int| lookup.holds(region.grid(), row, tables),
            region.constants_hold(),
            recompose(
                chunks_of(
                    source.value->Known_0@,
                    chunk_count(num_bits as nat, self.lookup_bits as nat),
                    num_bits as nat,
                    self.lookup_bits as nat,
                ),
                self.lookup_bits as nat,
            ) == source.value->Known_0@,
    {
        assert forall|row: int| lookup.holds(region.grid(), row, tables) by {
            self.lemma_lookup_holds(lookup, region, source, num_bits, tables, row);
        }
        self.lemma_constant_holds(region, source, num_bits);
        lemma_recompose(source.value->Known_0@, num_bits as nat, self.lookup_bits as nat);
    }

    /// Decomposes an assigned cell into chunks, in a region of its own, and
    /// so constrains its value to `num_bits` bits.
    ///
    /// A configuration that [`DecomposeConfig::is_miswired`] is refused. A
    /// known value that does not fit into `num_bits` bits is refused too: its
    /// running sum does not end in zero, so no proof could be made of it.
    /// Either way the layouter is left as it was. For an unknown value the
    /// region is laid out with unknown cells.
    pub fn assign(&self, layouter: &mut Layouter, value: AssignedCell, num_bits: usize) -> (r:
        Result<(), Error>)
        ensures
            r == Err::<(), Error>(Error::Configuration) <==> self.is_miswired(num_bits),
            r == Err::<(), Error>(Error::UnsatisfiableWitness) <==> !self.is_miswired(num_bits) && (
            value.value matches Value::Known(v) && v@ >= pow2(num_bits as nat)),
            r is Err ==> *final(layouter) == *old(layouter),
            r is Ok ==> {
                &&& final(layouter).regions@.len() == old(layouter).regions@.len() + 1
                &&& final(layouter).regions@.drop_last() == old(layouter).regions@
                &&& self.is_assigned_region(final(layouter).regions@.last(), value, num_bits)
            },
            final(layouter).tables == old(layouter).tables,
    {
        let decomposition = match value.value {
            Value::Unknown => {
                if self.lookup_bits == 0 || self.lookup_bits >= 64 {
                    return Err(Error::Configuration);
                }
                None
            },
            Value::Known(v) => match Self::decompose(&v, num_bits, self.lookup_bits) {
                Err(e) => {
                    return Err(e);
                },
                Ok(d) => Some(d),
            },
        };
        let ghost n = num_bits as nat;
        let ghost k = self.lookup_bits as nat;
        proof {
            lemma_chunk_count(0, n, k);
        }
        let count = if num_bits % self.lookup_bits == 0 {
            num_bits / self.lookup_bits
        } else {
            num_bits / self.lookup_bits + 1
        };
        let mut region = Region::new("decompose");
        let ghost first = Assignment { column: self.running_sum, offset: 0, value: value.value };
        proof {
            lemma_entry_added(Seq::empty(), first);
        }
        match region.copy_advice(&value, self.running_sum, 0) {
            Err(e) => {
                return Err(e);
            },
            Ok(()) => {},
        }
        assert(region.cells@ =~= Seq::empty().push(first));
        let mut i: usize = 0;
        while i < count
            invariant
                i <= count,
                count == chunk_count(n, k),
                count > 0 ==> num_bits > 0,
                n == num_bits as nat,
                k == self.lookup_bits as nat,
                1 <= self.lookup_bits < 64,
                self.running_sum.kind == ColumnKind::Advice,
                i >= 1 ==> self.c_i_bits.kind == ColumnKind::Advice && self.c_i_bits
                    != self.running_sum,
                match value.value {
                    Value::Unknown => decomposition is None,
                    Value::Known(v) => decomposition matches Some(d) && d.is_of(v@, n, k),
                },
                region.name@ == "decompose"@,
                region.selectors@ =~= Seq::new(
                    i as nat,
                    |t: int| (self.decompose_selector, t as usize),
                ),
                region.copies@ =~= seq![
                    CopyConstraint { from: value.cell, column: self.running_sum, offset: 0 },
                ],
                region.constants@.len() == 0,
                region.cells@.len() == 2 * i + 1,
                forall|c: Column, o: int| #[trigger]
                    assigned_in(region.cells@, c, o) ==> 0 <= o <= i && (c == self.running_sum || c
                        == self.c_i_bits),
                forall|t: int|
                    #![trigger value_in(region.cells@, self.running_sum, t)]
                    0 <= t <= i ==> assigned_in(region.cells@, self.running_sum, t) && value_in(
                        region.cells@,
                        self.running_sum,
                        t,
                    ) == self.sum_cell(value.value@, t as nat, n),
                forall|t: int|
                    #![trigger value_in(region.cells@, self.c_i_bits, t)]
                    1 <= t <= i ==> assigned_in(region.cells@, self.c_i_bits, t) && value_in(
                        region.cells@,
                        self.c_i_bits,
                        t,
                    ) == self.width_cell(value.value@, (t - 1) as nat, n),
            decreases count - i,
        {
            let offset = i + 1;
            let (z, width) = match &decomposition {
                Some(d) => (
                    Value::Known(d.running_sum[offset]),
                    Value::Known(FieldElement::from_u64(d.widths[i])),
                ),
                None => (Value::Unknown, Value::Unknown),
            };
            let ghost sum_entry = Assignment { column: self.running_sum, offset, value: z };
            let ghost width_entry = Assignment { column: self.c_i_bits, offset, value: width };
            let ghost before = region.cells@;
            proof {
                lemma_entry_added(before, sum_entry);
                lemma_entry_added(before.push(sum_entry), width_entry);
            }
            match region.assign_advice(self.running_sum, offset, z) {
                Err(e) => {
                    return Err(e);
                },
                Ok(()) => {},
            }
            match region.assign_advice(self.c_i_bits, offset, width) {
                Err(e) => {
                    return Err(e);
                },
                Ok(()) => {},
            }
            region.enable(self.decompose_selector, i);
            i = i + 1;
        }
        region.constrain_constant(self.running_sum, count, FieldElement::zero());
        match &decomposition {
            Some(d) => {
                proof {
                    lemma_running_sum_ends(value.value->Known_0@, n, k);
                }
                if !d.running_sum[count].is_zero() {
                    return Err(Error::UnsatisfiableWitness);
                }
            },
            None => {},
        }
        layouter.assign_region(region);
        proof {
            assert(layouter.regions@.drop_last() =~= old(layouter).regions@);
        }
        Ok(())
    }
}

} // verus!
