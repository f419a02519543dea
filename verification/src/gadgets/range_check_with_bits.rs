//! The lookup of a value together with its bit width in a tagged table.
//!
//! The lookup is always live. Where it is switched off its inputs fall back
//! to the first row of the table, zero tagged with one bit, whatever the
//! cells hold.

use crate::bits::bit_width;
use crate::field::modulus;
use crate::field::FieldElement;
use crate::plonk::ConstraintSystem;
use crate::plonk::Expression;
use crate::plonk::FixedRole;
use crate::plonk::Grid;
use crate::plonk::Lookup;
use crate::plonk::Polynomial;
use crate::plonk::TableColumn;
use crate::plonk::Tables;
use crate::range_check::lookup_with_bits::table::RangeCheckTable;
use vstd::arithmetic::div_mod::lemma_small_mod;
use vstd::prelude::*;

verus! {

/// The input for the value column: the value, switched by the selector.
pub open spec fn switched_value(selector: Polynomial, value: Polynomial) -> Polynomial {
    Polynomial::product(selector, value)
}

/// The input for the bits column: `(1 - selector) * 1 + selector * bits`,
/// which is the tag of the first row where the selector is zero.
pub open spec fn switched_bits(selector: Polynomial, bits: Polynomial) -> Polynomial {
    Polynomial::sum(
        Polynomial::product(
            Polynomial::difference(Polynomial::Constant(1), selector),
            Polynomial::Constant(1),
        ),
        Polynomial::product(selector, bits),
    )
}

/// Whether a lookup is the tagged lookup of a value and its bit width,
/// switched by a selector, into the two columns of a table.
pub open spec fn is_tagged_lookup(
    lookup: Lookup,
    selector: Polynomial,
    value: Polynomial,
    bits: Polynomial,
    table: RangeCheckTable,
) -> bool {
    &&& lookup.inputs@.len() == 2
    &&& lookup.inputs@[0].0@ == switched_value(selector, value)
    &&& lookup.inputs@[0].1 == table.value
    &&& lookup.inputs@[1].0@ == switched_bits(selector, bits)
    &&& lookup.inputs@[1].1 == table.bits
}

/// Where the selector is one, the two inputs are the value and the bits.
pub proof fn lemma_switched_on(
    selector: Polynomial,
    value: Polynomial,
    bits: Polynomial,
    grid: Grid,
    row: int,
)
    requires
        selector.eval(grid, row) == 1,
    ensures
        switched_value(selector, value).eval(grid, row) == value.eval(grid, row),
        switched_bits(selector, bits).eval(grid, row) == bits.eval(grid, row),
{
    reveal_with_fuel(Polynomial::eval, 4);
    let v = value.eval(grid, row);
    let b = bits.eval(grid, row);
    value.lemma_eval_bound(grid, row);
    bits.lemma_eval_bound(grid, row);
    Polynomial::lemma_eval_difference(Polynomial::Constant(1), selector, grid, row);
    lemma_small_mod(v, modulus());
    lemma_small_mod(b, modulus());
    assert(1 * v == v);
    assert(1 * b == b);
    assert(0 * 1 == 0);
}

/// Where the selector is zero, the two inputs are zero and one.
pub proof fn lemma_switched_off(
    selector: Polynomial,
    value: Polynomial,
    bits: Polynomial,
    grid: Grid,
    row: int,
)
    requires
        selector.eval(grid, row) == 0,
    ensures
        switched_value(selector, value).eval(grid, row) == 0,
        switched_bits(selector, bits).eval(grid, row) == 1,
{
    reveal_with_fuel(Polynomial::eval, 4);
    Polynomial::lemma_eval_difference(Polynomial::Constant(1), selector, grid, row);
    assert(0 * value.eval(grid, row) == 0);
    assert(0 * bits.eval(grid, row) == 0);
    assert(1 * 1 == 1);
}

/// Where the selector is one, the tagged lookup holds exactly when the value
/// is below the range of the table and the bits are the bit width of the
/// value.
pub proof fn lemma_tagged_lookup_on(
    lookup: Lookup,
    selector: Polynomial,
    value: Polynomial,
    bits: Polynomial,
    table: RangeCheckTable,
    grid: Grid,
    row: int,
    tables: Tables,
)
    requires
        is_tagged_lookup(lookup, selector, value, bits, table),
        table.loaded_in(tables),
        selector.eval(grid, row) == 1,
    ensures
        lookup.holds(grid, row, tables) <==> {
            &&& value.eval(grid, row) < table.lookup_range
            &&& bits.eval(grid, row) == bit_width(value.eval(grid, row))
        },
{
    let v = value.eval(grid, row);
    let b = bits.eval(grid, row);
    lemma_switched_on(selector, value, bits, grid, row);
    if v < table.lookup_range && b == bit_width(v) {
        assert(lookup.matches_row(grid, row, tables, v as int));
    }
    if lookup.holds(grid, row, tables) {
        let at = choose|at: int| lookup.matches_row(grid, row, tables, at);
        assert(lookup.inputs@[0].1 == table.value);
        assert(lookup.inputs@[1].1 == table.bits);
    }
}

/// Where the selector is zero, the tagged lookup holds whatever the cells
/// hold: its inputs are the first row of a table that has any row.
pub proof fn lemma_tagged_lookup_off(
    lookup: Lookup,
    selector: Polynomial,
    value: Polynomial,
    bits: Polynomial,
    table: RangeCheckTable,
    grid: Grid,
    row: int,
    tables: Tables,
)
    requires
        is_tagged_lookup(lookup, selector, value, bits, table),
        table.loaded_in(tables),
        table.lookup_range > 0,
        selector.eval(grid, row) == 0,
    ensures
        lookup.holds(grid, row, tables),
{
    lemma_switched_off(selector, value, bits, grid, row);
    assert(lookup.matches_row(grid, row, tables, 0));
}

/// The tagged lookup of one value and its bit width.
#[derive(Clone, Copy, Debug, PartialEq, Eq)]
pub struct RangeCheckConfig {
    pub lookup_table: RangeCheckTable,
}

impl RangeCheckConfig {
    /// Declares a tagged table of `lookup_range` rows and the lookup of
    /// `value` and `bits` into it, switched by `lookup_selector`. A lookup
    /// takes no simple selector, so none may occur in the three expressions.
    pub fn configure(
        meta: &mut ConstraintSystem,
        value: Expression,
        bits: Expression,
        lookup_selector: Expression,
        lookup_range: usize,
    ) -> (config: Self)
        requires
            !value@.has_simple_selector(),
            !bits@.has_simple_selector(),
            !lookup_selector@.has_simple_selector(),
        ensures
            config.lookup_table.value.index == old(meta).fixed@.len(),
            config.lookup_table.bits.index == old(meta).fixed@.len() + 1,
            config.lookup_table.lookup_range == lookup_range,
            final(meta).fixed@ == old(meta).fixed@.push(FixedRole::Table).push(FixedRole::Table),
            final(meta).lookups@.len() == old(meta).lookups@.len() + 1,
            final(meta).lookups@.drop_last() == old(meta).lookups@,
            is_tagged_lookup(
                final(meta).lookups@.last(),
                lookup_selector@,
                value@,
                bits@,
                config.lookup_table,
            ),
            final(meta).advice == old(meta).advice,
            final(meta).selectors == old(meta).selectors,
            final(meta).gates == old(meta).gates,
    {
        let lookup_table = RangeCheckTable::configure(meta, lookup_range);
        let not_selector = Expression::constant(FieldElement::one()).minus(lookup_selector.clone());
        let bits_default = Expression::constant(FieldElement::one());
        let bits = not_selector.times(bits_default).plus(lookup_selector.clone().times(bits));
        let value = lookup_selector.times(value);
        proof {
            reveal_with_fuel(Polynomial::has_simple_selector, 5);
        }
        let mut inputs: Vec<(Expression, TableColumn)> = Vec::new();
        inputs.push((value, lookup_table.value));
        inputs.push((bits, lookup_table.bits));
        meta.lookup(inputs);
        proof {
            assert(meta.lookups@.drop_last() =~= old(meta).lookups@);
        }
        RangeCheckConfig { lookup_table }
    }
}

} // verus!
