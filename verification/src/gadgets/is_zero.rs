//! The zero test: an indicator that is one where an expression is zero and
//! zero elsewhere, built from the inverse of the expression's value.
//!
//! Beside the value the circuit holds `value_inv`, its inverse, or zero where
//! the value is zero. The indicator is `1 - value * value_inv`, and its gate
//! demands `value * (1 - value * value_inv) = 0` wherever it is enabled.

use crate::circuit::Region;
use crate::circuit::Value;
use crate::field::inverse_or_zero;
use crate::field::modulus;
use crate::field::mul_mod;
use crate::field::sub_mod;
use crate::field::FieldElement;
use crate::plonk::Column;
use crate::plonk::ColumnKind;
use crate::plonk::Constraint;
use crate::plonk::ConstraintSystem;
use crate::plonk::Error;
use crate::plonk::Expression;
use crate::plonk::Gate;
use crate::plonk::Grid;
use crate::plonk::Polynomial;
use crate::plonk::Rotation;
use vstd::arithmetic::div_mod::lemma_mul_mod_noop_general;
use vstd::arithmetic::div_mod::lemma_small_mod;
use vstd::arithmetic::mul::lemma_mul_is_associative;
use vstd::prelude::*;

verus! {

/// The indicator as a residue: `1 - value * inv`.
pub open spec fn indicator(value: nat, inv: nat) -> nat {
    sub_mod(1, mul_mod(value, inv))
}

/// The indicator as a polynomial: `1 - value * value_inv`, with `value_inv`
/// read at the row itself.
pub open spec fn is_zero_polynomial(value: Polynomial, value_inv: Column) -> Polynomial {
    Polynomial::difference(
        Polynomial::Constant(1),
        Polynomial::product(value, Polynomial::advice(value_inv, 0)),
    )
}

/// The polynomial that the zero-test gate demands to be zero:
/// `q_enable * value * (1 - value * value_inv)`.
pub open spec fn is_zero_gate_polynomial(
    q_enable: Polynomial,
    value: Polynomial,
    value_inv: Column,
) -> Polynomial {
    Polynomial::product(Polynomial::product(q_enable, value), is_zero_polynomial(value, value_inv))
}

/// Whether a gate is the zero-test gate for an enabling expression, a value
/// and the column of its inverse.
pub open spec fn is_zero_gate(
    gate: Gate,
    q_enable: Polynomial,
    value: Polynomial,
    value_inv: Column,
) -> bool {
    &&& gate.name@ == "is zero"@
    &&& gate.constraints@.len() == 1
    &&& gate.constraints@[0].name@ == ""@
    &&& gate.constraints@[0].poly@ == is_zero_gate_polynomial(q_enable, value, value_inv)
}

/// With the inverse, or zero for zero, stored beside a value, the indicator
/// is one exactly where the value is zero, and zero elsewhere; either way the
/// product of the value and the indicator vanishes.
pub proof fn lemma_indicator(value: nat, inv: nat)
    requires
        value < modulus(),
        inverse_or_zero(value, inv),
    ensures
        indicator(value, inv) == if value == 0 {
            1nat
        } else {
            0nat
        },
        indicator(value, inv) == 1 <==> value == 0,
        mul_mod(value, indicator(value, inv)) == 0,
{
    if value == 0 {
        assert(value * inv == 0);
        assert(value * indicator(value, inv) == 0);
    } else {
        assert(value * 0 == 0);
    }
}

/// An element has at most one inverse.
pub proof fn lemma_inverse_unique(value: nat, a: nat, b: nat)
    requires
        a < modulus(),
        b < modulus(),
        mul_mod(value, a) == 1,
        mul_mod(value, b) == 1,
    ensures
        a == b,
{
    let m = modulus() as int;
    let v = value as int;
    let x = a as int;
    let y = b as int;
    // a = a * (v * b) = (a * v) * b = b, all modulo m
    lemma_mul_mod_noop_general(x, v * y, m);
    lemma_mul_mod_noop_general(v * x, y, m);
    lemma_mul_is_associative(x, v, y);
    assert(x * v == v * x) by (nonlinear_arith);
    assert((x * (v * y)) % m == (x * 1) % m);
    assert(((v * x) * y) % m == (1 * y) % m);
    lemma_small_mod(a, modulus());
    lemma_small_mod(b, modulus());
}

/// Where the cell of `value_inv` at a row holds the inverse of what `value`
/// evaluates to there, or zero for zero, the indicator polynomial evaluates
/// to one if the value is zero and to zero if it is not, and the
/// polynomial of its gate vanishes whatever the enabling expression is.
pub proof fn lemma_is_zero_polynomial(
    q_enable: Polynomial,
    value: Polynomial,
    value_inv: Column,
    grid: Grid,
    row: int,
)
    requires
        grid.advice.dom().contains((value_inv.index as int, row)),
        grid.advice[(value_inv.index as int, row)] < modulus(),
        inverse_or_zero(value.eval(grid, row), grid.advice[(value_inv.index as int, row)]),
    ensures
        is_zero_polynomial(value, value_inv).eval(grid, row) == if value.eval(grid, row) == 0 {
            1nat
        } else {
            0nat
        },
        is_zero_gate_polynomial(q_enable, value, value_inv).eval(grid, row) == 0,
{
    reveal_with_fuel(Polynomial::eval, 3);
    let v = value.eval(grid, row);
    let inv = grid.advice[(value_inv.index as int, row)];
    let m = modulus() as int;
    value.lemma_eval_bound(grid, row);
    lemma_small_mod(inv, modulus());
    let product = Polynomial::product(value, Polynomial::advice(value_inv, 0));
    assert(product.eval(grid, row) == mul_mod(v, inv));
    Polynomial::lemma_eval_difference(Polynomial::Constant(1), product, grid, row);
    lemma_small_mod(1, modulus());
    let zero = is_zero_polynomial(value, value_inv).eval(grid, row);
    assert(zero == indicator(v, inv));
    lemma_indicator(v, inv);
    // (q * v) * zero = q * (v * zero) = q * 0, modulo m
    let q = q_enable.eval(grid, row) as int;
    let x = v as int;
    let z = zero as int;
    lemma_mul_mod_noop_general(q * x, z, m);
    lemma_mul_is_associative(q, x, z);
    lemma_mul_mod_noop_general(q, x * z, m);
    assert(q * 0 == 0);
}

/// What the zero test leaves to those who use it: the column that holds the
/// inverse, and the indicator, to be multiplied into their own gates.
#[derive(Clone, Debug, PartialEq, Eq)]
pub struct IsZeroConfig {
    pub value_inv: Column,
    pub is_zero_expression: Expression,
}

impl IsZeroConfig {
    /// The indicator: one where the value is zero, zero elsewhere.
    pub fn expr(&self) -> (r: Expression)
        ensures
            r == self.is_zero_expression,
    {
        self.is_zero_expression.clone()
    }
}

/// What a chip offers for filling in its cells.
pub trait Instructions {
    /// Fills the cells of the chip at a row of a region for a value.
    fn assign(&self, region: &mut Region, value: Value<FieldElement>, offset: usize) -> (r: Result<
        (),
        Error,
    >);
}

/// The zero test as a chip.
pub struct IsZeroChip {
    config: IsZeroConfig,
}

impl View for IsZeroChip {
    type V = IsZeroConfig;

    closed spec fn view(&self) -> IsZeroConfig {
        self.config
    }
}

impl IsZeroChip {
    /// The chip for a configuration.
    pub fn construct(config: IsZeroConfig) -> (chip: Self)
        ensures
            chip@ == config,
    {
        IsZeroChip { config }
    }

    /// The configuration of the chip.
    pub fn config(&self) -> (config: &IsZeroConfig)
        ensures
            *config == self@,
    {
        &self.config
    }

    /// Declares the zero test of `value`, enabled by `q_enable`, with the
    /// inverse kept in the column `value_inv`: a gate for
    /// `q_enable * value * (1 - value * value_inv)`. Returns the column and
    /// the indicator `1 - value * value_inv`.
    pub fn configure(
        meta: &mut ConstraintSystem,
        q_enable: Expression,
        value: Expression,
        value_inv: Column,
    ) -> (config: IsZeroConfig)
        ensures
            config.value_inv == value_inv,
            config.is_zero_expression@ == is_zero_polynomial(value@, value_inv),
            final(meta).gates@.len() == old(meta).gates@.len() + 1,
            final(meta).gates@.drop_last() == old(meta).gates@,
            is_zero_gate(final(meta).gates@.last(), q_enable@, value@, value_inv),
            final(meta).advice == old(meta).advice,
            final(meta).fixed == old(meta).fixed,
            final(meta).selectors == old(meta).selectors,
            final(meta).lookups == old(meta).lookups,
    {
        let inverse = Expression::query_advice(value_inv, Rotation::cur());
        let is_zero_expression = Expression::constant(FieldElement::one()).minus(
            value.clone().times(inverse),
        );
        let poly = q_enable.times(value).times(is_zero_expression.clone());
        let mut constraints: Vec<Constraint> = Vec::new();
        constraints.push(Constraint { name: "", poly });
        meta.create_gate("is zero", constraints);
        proof {
            assert(meta.gates@.drop_last() =~= old(meta).gates@);
        }
        IsZeroConfig { value_inv, is_zero_expression }
    }
}

impl Instructions for IsZeroChip {
    /// Stores beside a value, at a row of the region, its inverse, or zero
    /// where the value is zero; an unknown value leaves an unknown inverse.
    /// Refused, with the region left as it was, where the cell holds a value
    /// already or the column is no advice column.
    fn assign(&self, region: &mut Region, value: Value<FieldElement>, offset: usize) -> (r: Result<
        (),
        Error,
    >)
        ensures
            r is Err <==> self@.value_inv.kind != ColumnKind::Advice || old(region).is_assigned(
                self@.value_inv,
                offset as int,
            ),
            r is Err ==> r == Err::<(), Error>(Error::Configuration) && *final(region) == *old(
                region,
            ),
            r is Ok ==> {
                let cell = final(region).cells@.last();
                &&& final(region).cells@.len() == old(region).cells@.len() + 1
                &&& final(region).cells@.drop_last() == old(region).cells@
                &&& cell.column == self@.value_inv
                &&& cell.offset == offset
                &&& match value {
                    Value::Unknown => cell.value is Unknown,
                    Value::Known(v) => cell.value matches Value::Known(inv) && inverse_or_zero(
                        v@,
                        inv@,
                    ),
                }
            },
            final(region).name == old(region).name,
            final(region).selectors == old(region).selectors,
            final(region).copies == old(region).copies,
            final(region).constants == old(region).constants,
    {
        let value_inv = match value {
            Value::Unknown => Value::Unknown,
            Value::Known(v) => Value::Known(v.invert_or_zero()),
        };
        let assigned = region.assign_advice(self.config.value_inv, offset, value_inv);
        proof {
            if assigned is Ok {
                assert(region.cells@.drop_last() =~= old(region).cells@);
            }
        }
        assigned
    }
}

} // verus!
