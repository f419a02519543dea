//! The description of a circuit: columns, selectors, polynomial expressions
//! over queried cells, gates and lookups, and the builder that collects them.
//!
//! Nothing here proves or verifies a circuit. The builder records what a
//! circuit author declares; [`Polynomial::eval`], [`Gate::holds`] and
//! [`Lookup::holds`] say what the declarations demand of a grid of cell
//! values.

use crate::field::add_mod;
use crate::field::modulus;
use crate::field::mul_mod;
use crate::field::neg_mod;
use crate::field::sub_mod;
use crate::field::FieldElement;
use vstd::arithmetic::div_mod::lemma_add_mod_noop_right;
use vstd::prelude::*;

verus! {

/// What can go wrong while a circuit is described or its cells are filled.
#[derive(Clone, Copy, Debug, PartialEq, Eq, Structural)]
pub enum Error {
    /// The circuit is wired wrongly: a range beyond the table's, a table
    /// loaded a second time, a cell written a second time, a witness in a
    /// column that is no advice column.
    Configuration,
    /// The witness cannot satisfy the circuit: a value wider than the bits it
    /// is to be split into.
    UnsatisfiableWitness,
}

/// The kinds of column.
#[derive(Clone, Copy, Debug, PartialEq, Eq, Structural)]
pub enum ColumnKind {
    /// Private witness values, supplied for each proof.
    Advice,
    /// Public values, set when the circuit is compiled.
    Fixed,
}

/// A column of the grid: its kind and its number among the columns of that
/// kind.
#[derive(Clone, Copy, Debug, PartialEq, Eq, Structural)]
pub struct Column {
    pub kind: ColumnKind,
    pub index: usize,
}

/// A fixed column that holds a lookup table and nothing else.
#[derive(Clone, Copy, Debug, PartialEq, Eq, Structural)]
pub struct TableColumn {
    pub index: usize,
}

/// A switch that turns the constraints of a gate on at chosen rows. Only a
/// complex selector may stand in a lookup.
#[derive(Clone, Copy, Debug, PartialEq, Eq, Structural)]
pub struct Selector {
    pub index: usize,
    pub complex: bool,
}

/// A shift from the row at which a gate is evaluated to the row of the cell
/// that it queries.
#[derive(Clone, Copy, Debug, PartialEq, Eq, Structural)]
pub struct Rotation(pub i32);

impl Rotation {
    /// The row itself.
    pub fn cur() -> (r: Rotation)
        ensures
            r == Rotation(0),
    {
        Rotation(0)
    }

    /// The row after.
    pub fn next() -> (r: Rotation)
        ensures
            r == Rotation(1),
    {
        Rotation(1)
    }
}

/// What a fixed column is used for.
#[derive(Clone, Copy, Debug, PartialEq, Eq, Structural)]
pub enum FixedRole {
    /// Values that gates query.
    Plain,
    /// The constants that cells are constrained to equal.
    Constants,
    /// A column of a lookup table.
    Table,
}

/// The values of a grid, as far as expressions read them: the advice cells
/// that hold a value, by column and row, and the selectors that are enabled,
/// by selector and row.
pub struct Grid {
    pub advice: Map<(int, int), nat>,
    pub selectors: Set<(int, int)>,
}

/// The contents of the lookup tables: for each table column, by its number,
/// the values it holds from row zero on.
pub type Tables = Map<int, Seq<nat>>;

/// A polynomial over the cells of the grid, relative to a row: what an
/// [`Expression`] stands for.
pub enum Polynomial {
    /// A residue.
    Constant(nat),
    /// One where the selector is enabled, zero elsewhere.
    Selector(Selector),
    /// The advice cell of a column, a rotation away from the row.
    Advice { column: int, rotation: int },
    /// The negation of a polynomial.
    Negated(Box<Polynomial>),
    /// The sum of two polynomials.
    Sum(Box<Polynomial>, Box<Polynomial>),
    /// The product of two polynomials.
    Product(Box<Polynomial>, Box<Polynomial>),
}

impl Polynomial {
    /// The value of the polynomial at a row of a grid. A cell that holds no
    /// value counts as zero.
    pub open spec fn eval(self, grid: Grid, row: int) -> nat
        decreases self,
    {
        match self {
            Polynomial::Constant(c) => c % modulus(),
            Polynomial::Selector(s) => if grid.selectors.contains((s.index as int, row)) {
                1
            } else {
                0
            },
            Polynomial::Advice { column, rotation } => {
                let at = (column, row + rotation);
                if grid.advice.dom().contains(at) {
                    grid.advice[at] % modulus()
                } else {
                    0
                }
            },
            Polynomial::Negated(e) => neg_mod(e.eval(grid, row)),
            Polynomial::Sum(a, b) => add_mod(a.eval(grid, row), b.eval(grid, row)),
            Polynomial::Product(a, b) => mul_mod(a.eval(grid, row), b.eval(grid, row)),
        }
    }

    /// Whether a selector that is not complex occurs in the polynomial.
    pub open spec fn has_simple_selector(self) -> bool
        decreases self,
    {
        match self {
            Polynomial::Constant(_) => false,
            Polynomial::Selector(s) => !s.complex,
            Polynomial::Advice { .. } => false,
            Polynomial::Negated(e) => e.has_simple_selector(),
            Polynomial::Sum(a, b) => a.has_simple_selector() || b.has_simple_selector(),
            Polynomial::Product(a, b) => a.has_simple_selector() || b.has_simple_selector(),
        }
    }

    /// The query of an advice column at a rotation.
    pub open spec fn advice(column: Column, rotation: int) -> Polynomial {
        Polynomial::Advice { column: column.index as int, rotation }
    }

    /// `a + b`.
    pub open spec fn sum(a: Polynomial, b: Polynomial) -> Polynomial {
        Polynomial::Sum(Box::new(a), Box::new(b))
    }

    /// `a - b`, which is written as a sum with a negation.
    pub open spec fn difference(a: Polynomial, b: Polynomial) -> Polynomial {
        Polynomial::Sum(Box::new(a), Box::new(Polynomial::Negated(Box::new(b))))
    }

    /// `a * b`.
    pub open spec fn product(a: Polynomial, b: Polynomial) -> Polynomial {
        Polynomial::Product(Box::new(a), Box::new(b))
    }

    /// What a polynomial evaluates to is a residue.
    pub proof fn lemma_eval_bound(self, grid: Grid, row: int)
        ensures
            self.eval(grid, row) < modulus(),
    {
    }

    /// A difference evaluates to the difference of the values.
    pub proof fn lemma_eval_difference(a: Polynomial, b: Polynomial, grid: Grid, row: int)
        ensures
            Polynomial::difference(a, b).eval(grid, row) == sub_mod(
                a.eval(grid, row),
                b.eval(grid, row),
            ),
    {
        reveal_with_fuel(Polynomial::eval, 3);
        let m = modulus() as int;
        let x = a.eval(grid, row) as int;
        let y = b.eval(grid, row) as int;
        a.lemma_eval_bound(grid, row);
        b.lemma_eval_bound(grid, row);
        lemma_add_mod_noop_right(x, -y, m);
    }
}

/// A polynomial as the circuit holds it, with its constants as field
/// elements. Its view is the polynomial over residues.
#[derive(Debug, PartialEq, Eq)]
pub enum Expression {
    /// A field constant.
    Constant(FieldElement),
    /// One where the selector is enabled, zero elsewhere.
    Selector(Selector),
    /// The advice cell of a column, a rotation away from the row.
    Advice { column: usize, rotation: i32 },
    /// The negation of an expression.
    Negated(Box<Expression>),
    /// The sum of two expressions.
    Sum(Box<Expression>, Box<Expression>),
    /// The product of two expressions.
    Product(Box<Expression>, Box<Expression>),
}

impl View for Expression {
    type V = Polynomial;

    open spec fn view(&self) -> Polynomial {
        self.polynomial()
    }
}

impl Clone for Expression {
    fn clone(&self) -> (r: Self)
        ensures
            r == *self,
        decreases *self,
    {
        match self {
            Expression::Constant(c) => Expression::Constant(*c),
            Expression::Selector(s) => Expression::Selector(*s),
            Expression::Advice { column, rotation } => Expression::Advice {
                column: *column,
                rotation: *rotation,
            },
            Expression::Negated(e) => Expression::Negated(Box::new((**e).clone())),
            Expression::Sum(a, b) => Expression::Sum(
                Box::new((**a).clone()),
                Box::new((**b).clone()),
            ),
            Expression::Product(a, b) => Expression::Product(
                Box::new((**a).clone()),
                Box::new((**b).clone()),
            ),
        }
    }
}

impl Expression {
    /// The polynomial that the expression stands for.
    pub open spec fn polynomial(self) -> Polynomial
        decreases self,
    {
        match self {
            Expression::Constant(c) => Polynomial::Constant(c@),
            Expression::Selector(s) => Polynomial::Selector(s),
            Expression::Advice { column, rotation } => Polynomial::Advice {
                column: column as int,
                rotation: rotation as int,
            },
            Expression::Negated(e) => Polynomial::Negated(Box::new(e.polynomial())),
            Expression::Sum(a, b) => Polynomial::Sum(
                Box::new(a.polynomial()),
                Box::new(b.polynomial()),
            ),
            Expression::Product(a, b) => Polynomial::Product(
                Box::new(a.polynomial()),
                Box::new(b.polynomial()),
            ),
        }
    }

    /// The constant `c`.
    pub fn constant(c: FieldElement) -> (r: Expression)
        ensures
            r@ == Polynomial::Constant(c@),
    {
        Expression::Constant(c)
    }

    /// The query of an advice column at a rotation.
    pub fn query_advice(column: Column, at: Rotation) -> (r: Expression)
        ensures
            r@ == Polynomial::advice(column, at.0 as int),
    {
        Expression::Advice { column: column.index, rotation: at.0 }
    }

    /// The query of a selector.
    pub fn query_selector(selector: Selector) -> (r: Expression)
        ensures
            r@ == Polynomial::Selector(selector),
    {
        Expression::Selector(selector)
    }

    /// `self + rhs`.
    pub fn plus(self, rhs: Expression) -> (r: Expression)
        ensures
            r@ == Polynomial::sum(self@, rhs@),
    {
        Expression::Sum(Box::new(self), Box::new(rhs))
    }

    /// `self - rhs`.
    pub fn minus(self, rhs: Expression) -> (r: Expression)
        ensures
            r@ == Polynomial::difference(self@, rhs@),
    {
        proof {
            reveal_with_fuel(Expression::polynomial, 3);
        }
        Expression::Sum(Box::new(self), Box::new(Expression::Negated(Box::new(rhs))))
    }

    /// `self * rhs`.
    pub fn times(self, rhs: Expression) -> (r: Expression)
        ensures
            r@ == Polynomial::product(self@, rhs@),
    {
        Expression::Product(Box::new(self), Box::new(rhs))
    }
}

/// One polynomial of a gate, with the name it is reported under.
#[derive(Clone, Debug, PartialEq, Eq)]
pub struct Constraint {
    pub name: &'static str,
    pub poly: Expression,
}

/// A named set of polynomials that must all evaluate to zero at every row.
#[derive(Clone, Debug, PartialEq, Eq)]
pub struct Gate {
    pub name: &'static str,
    pub constraints: Vec<Constraint>,
}

impl Gate {
    /// This gate is satisfied at a row: each of its polynomials is zero there.
    pub open spec fn holds(self, grid: Grid, row: int) -> bool {
        forall|i: int|
            0 <= i < self.constraints@.len() ==> (#[trigger] self.constraints@[i]).poly@.eval(
                grid,
                row,
            ) == 0
    }
}

/// A set of expressions, each paired with a table column. At every row the
/// tuple of their values must occur as a row of the table.
#[derive(Clone, Debug, PartialEq, Eq)]
pub struct Lookup {
    pub inputs: Vec<(Expression, TableColumn)>,
}

impl Lookup {
    /// Row `at` of the tables holds what the expressions evaluate to at `row`.
    pub open spec fn matches_row(self, grid: Grid, row: int, tables: Tables, at: int) -> bool {
        forall|i: int|
            0 <= i < self.inputs@.len() ==> {
                let column = (#[trigger] self.inputs@[i]).1.index as int;
                &&& tables.dom().contains(column)
                &&& 0 <= at < tables[column].len()
                &&& tables[column][at] == self.inputs@[i].0@.eval(grid, row)
            }
    }

    /// The lookup is satisfied at a row: some row of the tables holds the
    /// values of its expressions.
    pub open spec fn holds(self, grid: Grid, row: int, tables: Tables) -> bool {
        exists|at: int| self.matches_row(grid, row, tables, at)
    }
}

/// The circuit as declared so far. It is handed to each `configure` in turn.
#[derive(Clone, Debug, PartialEq, Eq)]
pub struct ConstraintSystem {
    /// For each advice column, whether its cells may be copy-constrained.
    pub advice: Vec<bool>,
    /// For each fixed column, what it is used for.
    pub fixed: Vec<FixedRole>,
    /// For each selector, whether it is complex.
    pub selectors: Vec<bool>,
    /// The gates, in the order of their declaration.
    pub gates: Vec<Gate>,
    /// The lookups, in the order of their declaration.
    pub lookups: Vec<Lookup>,
}

impl ConstraintSystem {
    /// A circuit with no column and no constraint.
    pub fn new() -> (r: ConstraintSystem)
        ensures
            r.advice@.len() == 0,
            r.fixed@.len() == 0,
            r.selectors@.len() == 0,
            r.gates@.len() == 0,
            r.lookups@.len() == 0,
    {
        ConstraintSystem {
            advice: Vec::new(),
            fixed: Vec::new(),
            selectors: Vec::new(),
            gates: Vec::new(),
            lookups: Vec::new(),
        }
    }

    /// Adds an advice column.
    pub fn advice_column(&mut self) -> (c: Column)
        ensures
            c.kind == ColumnKind::Advice,
            c.index == old(self).advice@.len(),
            final(self).advice@ == old(self).advice@.push(false),
            final(self).fixed == old(self).fixed,
            final(self).selectors == old(self).selectors,
            final(self).gates == old(self).gates,
            final(self).lookups == old(self).lookups,
    {
        let index = self.advice.len();
        self.advice.push(false);
        Column { kind: ColumnKind::Advice, index }
    }

    /// Adds a fixed column for gates to query.
    pub fn fixed_column(&mut self) -> (c: Column)
        ensures
            c.kind == ColumnKind::Fixed,
            c.index == old(self).fixed@.len(),
            final(self).fixed@ == old(self).fixed@.push(FixedRole::Plain),
            final(self).advice == old(self).advice,
            final(self).selectors == old(self).selectors,
            final(self).gates == old(self).gates,
            final(self).lookups == old(self).lookups,
    {
        let index = self.fixed.len();
        self.fixed.push(FixedRole::Plain);
        Column { kind: ColumnKind::Fixed, index }
    }

    /// Adds a fixed column that holds one column of a lookup table.
    pub fn lookup_table_column(&mut self) -> (c: TableColumn)
        ensures
            c.index == old(self).fixed@.len(),
            final(self).fixed@ == old(self).fixed@.push(FixedRole::Table),
            final(self).advice == old(self).advice,
            final(self).selectors == old(self).selectors,
            final(self).gates == old(self).gates,
            final(self).lookups == old(self).lookups,
    {
        let index = self.fixed.len();
        self.fixed.push(FixedRole::Table);
        TableColumn { index }
    }

    /// Adds a selector that gates a polynomial constraint.
    pub fn selector(&mut self) -> (s: Selector)
        ensures
            s.index == old(self).selectors@.len(),
            !s.complex,
            final(self).selectors@ == old(self).selectors@.push(false),
            final(self).advice == old(self).advice,
            final(self).fixed == old(self).fixed,
            final(self).gates == old(self).gates,
            final(self).lookups == old(self).lookups,
    {
        let index = self.selectors.len();
        self.selectors.push(false);
        Selector { index, complex: false }
    }

    /// Adds a selector that may also stand in a lookup.
    pub fn complex_selector(&mut self) -> (s: Selector)
        ensures
            s.index == old(self).selectors@.len(),
            s.complex,
            final(self).selectors@ == old(self).selectors@.push(true),
            final(self).advice == old(self).advice,
            final(self).fixed == old(self).fixed,
            final(self).gates == old(self).gates,
            final(self).lookups == old(self).lookups,
    {
        let index = self.selectors.len();
        self.selectors.push(true);
        Selector { index, complex: true }
    }

    /// Lets the cells of an advice column of this circuit be copy-constrained.
    /// Another column is left as it is.
    pub fn enable_equality(&mut self, column: Column)
        ensures
            final(self).advice@ == if column.kind == ColumnKind::Advice && column.index
                < old(self).advice@.len() {
                old(self).advice@.update(column.index as int, true)
            } else {
                old(self).advice@
            },
            final(self).fixed == old(self).fixed,
            final(self).selectors == old(self).selectors,
            final(self).gates == old(self).gates,
            final(self).lookups == old(self).lookups,
    {
        if column.kind == ColumnKind::Advice && column.index < self.advice.len() {
            self.advice.set(column.index, true);
        }
    }

    /// Makes a fixed column of this circuit the one that holds the constants
    /// to which cells are constrained. Another column is left as it is.
    pub fn enable_constant(&mut self, column: Column)
        ensures
            final(self).fixed@ == if column.kind == ColumnKind::Fixed && column.index
                < old(self).fixed@.len() {
                old(self).fixed@.update(column.index as int, FixedRole::Constants)
            } else {
                old(self).fixed@
            },
            final(self).advice == old(self).advice,
            final(self).selectors == old(self).selectors,
            final(self).gates == old(self).gates,
            final(self).lookups == old(self).lookups,
    {
        if column.kind == ColumnKind::Fixed && column.index < self.fixed.len() {
            self.fixed.set(column.index, FixedRole::Constants);
        }
    }

    /// Declares a gate: the polynomials must evaluate to zero at every row.
    pub fn create_gate(&mut self, name: &'static str, constraints: Vec<Constraint>)
        requires
            constraints@.len() > 0,
        ensures
            final(self).gates@ == old(self).gates@.push(Gate { name, constraints }),
            final(self).advice == old(self).advice,
            final(self).fixed == old(self).fixed,
            final(self).selectors == old(self).selectors,
            final(self).lookups == old(self).lookups,
    {
        self.gates.push(Gate { name, constraints });
    }

    /// Declares a lookup: at every row the values of the expressions must
    /// occur together as a row of the table columns they are paired with.
    /// Returns the number of the lookup.
    pub fn lookup(&mut self, inputs: Vec<(Expression, TableColumn)>) -> (index: usize)
        requires
            forall|i: int|
                0 <= i < inputs@.len() ==> !(#[trigger] inputs@[i]).0@.has_simple_selector(),
        ensures
            index == old(self).lookups@.len(),
            final(self).lookups@ == old(self).lookups@.push(Lookup { inputs }),
            final(self).advice == old(self).advice,
            final(self).fixed == old(self).fixed,
            final(self).selectors == old(self).selectors,
            final(self).gates == old(self).gates,
    {
        let index = self.lookups.len();
        self.lookups.push(Lookup { inputs });
        index
    }
}

} // verus!
