//! The range check as a polynomial identity: for a small range, the product
//! of the differences between the value and each number below the range must
//! vanish.

use crate::circuit::Assignment;
use crate::circuit::Layouter;
use crate::circuit::Region;
use crate::circuit::Value;
use crate::field::modulus;
use crate::field::FieldElement;
use crate::plonk::Column;
use crate::plonk::ColumnKind;
use crate::plonk::Constraint;
use crate::plonk::ConstraintSystem;
use crate::plonk::Error;
use crate::plonk::Expression;
use crate::plonk::Gate;
use crate::plonk::Grid;
use crate::plonk::Polynomial;
use crate::plonk::Rotation;
use crate::plonk::Selector;
use vstd::arithmetic::div_mod::lemma_mod_decreases;
use vstd::arithmetic::div_mod::lemma_small_mod;
use vstd::prelude::*;

verus! {

/// The product of `value - i` over the numbers `i` below `range`: a
/// polynomial of degree `range` in the value.
pub open spec fn range_product(value: Polynomial, range: nat) -> Polynomial
    decreases range,
{
    if range == 0 {
        Polynomial::Constant(1)
    } else {
        Polynomial::product(
            range_product(value, (range - 1) as nat),
            Polynomial::difference(value, Polynomial::Constant((range - 1) as nat)),
        )
    }
}

/// The polynomial that a range-check gate demands to be zero: the product of
/// differences, switched by the selector.
pub open spec fn range_gate_polynomial(selector: Selector, value: Polynomial, range: nat) -> Polynomial {
    Polynomial::product(Polynomial::Selector(selector), range_product(value, range))
}

/// Whether a gate is the range-check gate for a selector, a value and a
/// range: one constraint, which holds the switched product of differences.
pub open spec fn is_range_gate(gate: Gate, selector: Selector, value: Polynomial, range: nat) -> bool {
    &&& gate.name@ == "Range check"@
    &&& gate.constraints@.len() == 1
    &&& gate.constraints@[0].name@ == "range check"@
    &&& gate.constraints@[0].poly@ == range_gate_polynomial(selector, value, range)
}

/// The product of differences vanishes wherever the value is below the
/// range.
pub proof fn lemma_range_product_vanishes(value: Polynomial, range: nat, grid: Grid, row: int)
    requires
        value.eval(grid, row) < range,
    ensures
        range_product(value, range).eval(grid, row) == 0,
    decreases range,
{
    reveal_with_fuel(Polynomial::eval, 2);
    let v = value.eval(grid, row);
    let last = (range - 1) as nat;
    let factor = Polynomial::difference(value, Polynomial::Constant(last));
    let rest = range_product(value, last);
    value.lemma_eval_bound(grid, row);
    Polynomial::lemma_eval_difference(value, Polynomial::Constant(last), grid, row);
    if v == last {
        lemma_small_mod(v, modulus());
        assert(factor.eval(grid, row) == 0);
        assert(rest.eval(grid, row) * 0 == 0);
    } else {
        lemma_range_product_vanishes(value, last, grid, row);
        assert(0 * factor.eval(grid, row) == 0);
    }
}

/// The range-check gate holds wherever its selector is off, and wherever the
/// value is below the range.
pub proof fn lemma_range_gate_holds(
    gate: Gate,
    selector: Selector,
    value: Polynomial,
    range: nat,
    grid: Grid,
    row: int,
)
    requires
        is_range_gate(gate, selector, value, range),
        !grid.selectors.contains((selector.index as int, row)) || value.eval(grid, row) < range,
    ensures
        gate.holds(grid, row),
{
    reveal_with_fuel(Polynomial::eval, 2);
    let product = range_product(value, range);
    if grid.selectors.contains((selector.index as int, row)) {
        lemma_range_product_vanishes(value, range, grid, row);
        assert(1 * 0 == 0);
    } else {
        assert(0 * product.eval(grid, row) == 0);
    }
    assert(gate.constraints@[0].poly@.eval(grid, row) == 0);
}

/// Builds the product of `value - i` over the numbers `i` below `range`.
pub fn range_check_expression(value: &Expression, range: usize) -> (r: Expression)
    ensures
        r@ == range_product(value@, range as nat),
{
    let mut product = Expression::constant(FieldElement::one());
    let mut i: usize = 0;
    while i < range
        invariant
            i <= range,
            product@ == range_product(value@, i as nat),
        decreases range - i,
    {
        let number = Expression::constant(FieldElement::from_u64(i as u64));
        product = product.times(value.clone().minus(number));
        i = i + 1;
    }
    product
}

/// Declares the range-check gate for a selector, a value and a range.
pub fn create_range_gate(
    meta: &mut ConstraintSystem,
    selector: Selector,
    value: &Expression,
    range: usize,
)
    ensures
        final(meta).gates@.len() == old(meta).gates@.len() + 1,
        final(meta).gates@.drop_last() == old(meta).gates@,
        is_range_gate(final(meta).gates@.last(), selector, value@, range as nat),
        final(meta).advice == old(meta).advice,
        final(meta).fixed == old(meta).fixed,
        final(meta).selectors == old(meta).selectors,
        final(meta).lookups == old(meta).lookups,
{
    let product = range_check_expression(value, range);
    let poly = Expression::query_selector(selector).times(product);
    let mut constraints: Vec<Constraint> = Vec::new();
    constraints.push(Constraint { name: "range check", poly });
    meta.create_gate("Range check", constraints);
    proof {
        assert(meta.gates@.drop_last() =~= old(meta).gates@);
    }
}

/// A range check by polynomial identity on one advice column.
#[derive(Clone, Copy, Debug, PartialEq, Eq)]
pub struct ExpressionConfig {
    pub value: Column,
    pub selector: Selector,
}

impl ExpressionConfig {
    /// Declares the check for the numbers below `range` on the column
    /// `value`: a new selector, and a gate that it switches.
    pub fn configure(meta: &mut ConstraintSystem, value: Column, range: usize) -> (config: Self)
        ensures
            config.value == value,
            config.selector.index == old(meta).selectors@.len(),
            !config.selector.complex,
            final(meta).selectors@ == old(meta).selectors@.push(false),
            final(meta).gates@.len() == old(meta).gates@.len() + 1,
            final(meta).gates@.drop_last() == old(meta).gates@,
            is_range_gate(
                final(meta).gates@.last(),
                config.selector,
                Polynomial::advice(value, 0),
                range as nat,
            ),
            final(meta).advice == old(meta).advice,
            final(meta).fixed == old(meta).fixed,
            final(meta).lookups == old(meta).lookups,
    {
        let selector = meta.selector();
        let query = Expression::query_advice(value, Rotation::cur());
        create_range_gate(meta, selector, &query, range);
        ExpressionConfig { value, selector }
    }

    /// Whether a region is the one that [`ExpressionConfig::assign`] lays
    /// out for a value: the selector enabled at its first row, and the value
    /// in the cell beside it.
    pub open spec fn is_assigned_region(self, region: Region, value: Value<FieldElement>) -> bool {
        &&& region.name@ == "range check"@
        &&& region.selectors@ =~= seq![(self.selector, 0usize)]
        &&& region.cells@ =~= seq![Assignment { column: self.value, offset: 0, value }]
        &&& region.copies@.len() == 0
        &&& region.constants@.len() == 0
    }

    /// The region that [`ExpressionConfig::assign`] lays out for a known
    /// value below the range satisfies that gate at every row.
    pub proof fn lemma_assignment_satisfies(
        self,
        gate: Gate,
        region: Region,
        value: FieldElement,
        range: nat,
    )
        requires
            self.value.kind == ColumnKind::Advice,
            is_range_gate(gate, self.selector, Polynomial::advice(self.value, 0), range),
            self.is_assigned_region(region, Value::Known(value)),
            value@ < range,
        ensures
            forall|row: int| gate.holds(region.grid(), row),
    {
        let grid = region.grid();
        let query = Polynomial::advice(self.value, 0);
        let entry = Assignment { column: self.value, offset: 0, value: Value::Known(value) };
        assert(region.cells@.last() == entry);
        region.lemma_advice_query(self.value, 0, 0, value@);
        lemma_mod_decreases(value@, modulus());
        assert(region.selectors@[0] == (self.selector, 0usize));
        assert forall|row: int| gate.holds(grid, row) by {
            region.lemma_selector_query(self.selector, row);
            lemma_range_gate_holds(gate, self.selector, query, range, grid, row);
        }
    }

    /// Assigns a value to be range-checked, in a region of its own. Fails
    /// only where the value column is no advice column.
    pub fn assign(&self, layouter: &mut Layouter, value: Value<FieldElement>) -> (r: Result<
        (),
        Error,
    >)
        ensures
            r is Err <==> self.value.kind != ColumnKind::Advice,
            r is Err ==> r == Err::<(), Error>(Error::Configuration) && *final(layouter) == *old(
                layouter,
            ),
            r is Ok ==> {
                &&& final(layouter).regions@.len() == old(layouter).regions@.len() + 1
                &&& final(layouter).regions@.drop_last() == old(layouter).regions@
                &&& self.is_assigned_region(final(layouter).regions@.last(), value)
            },
            final(layouter).tables == old(layouter).tables,
    {
        let mut region = Region::new("range check");
        region.enable(self.selector, 0);
        match region.assign_advice(self.value, 0, value) {
            Err(e) => Err(e),
            Ok(()) => {
                layouter.assign_region(region);
                proof {
                    assert(layouter.regions@.drop_last() =~= old(layouter).regions@);
                }
                Ok(())
            },
        }
    }
}

} // verus!
