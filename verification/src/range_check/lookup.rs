//! A range check that uses a polynomial identity for small ranges and a
//! lookup table for larger ones.

use crate::circuit::Assignment;
use crate::circuit::Layouter;
use crate::circuit::Region;
use crate::circuit::Value;
use crate::field::modulus;
use crate::field::FieldElement;
use crate::plonk::Column;
use crate::plonk::ColumnKind;
use crate::plonk::ConstraintSystem;
use crate::plonk::Error;
use crate::plonk::Expression;
use crate::plonk::FixedRole;
use crate::plonk::Gate;
use crate::plonk::Grid;
use crate::plonk::Lookup;
use crate::plonk::Polynomial;
use crate::plonk::Rotation;
use crate::plonk::Selector;
use crate::plonk::TableColumn;
use crate::plonk::Tables;
use crate::range_check::expression_check::create_range_gate;
use crate::range_check::expression_check::is_range_gate;
use crate::range_check::expression_check::lemma_range_gate_holds;
use crate::range_check::lookup::table::RangeCheckTable;
use vstd::arithmetic::div_mod::lemma_small_mod;
use vstd::prelude::*;

pub mod table;

verus! {

/// Whether a lookup is the one that checks a value against the value column
/// of a table: one input, the value switched by the selector.
pub open spec fn is_value_lookup(
    lookup: Lookup,
    selector: Selector,
    value: Polynomial,
    table: TableColumn,
) -> bool {
    &&& lookup.inputs@.len() == 1
    &&& lookup.inputs@[0].0@ == Polynomial::product(Polynomial::Selector(selector), value)
    &&& lookup.inputs@[0].1 == table
}

/// Where the selector is on, the lookup holds exactly when the value is
/// below the range of the table.
pub proof fn lemma_value_lookup_on(
    lookup: Lookup,
    selector: Selector,
    value: Polynomial,
    table: RangeCheckTable,
    grid: Grid,
    row: int,
    tables: Tables,
)
    requires
        is_value_lookup(lookup, selector, value, table.value),
        table.loaded_in(tables),
        grid.selectors.contains((selector.index as int, row)),
    ensures
        lookup.holds(grid, row, tables) <==> value.eval(grid, row) < table.lookup_range,
{
    reveal_with_fuel(Polynomial::eval, 2);
    let v = value.eval(grid, row);
    value.lemma_eval_bound(grid, row);
    lemma_small_mod(v, modulus());
    assert(1 * v == v);
    assert(lookup.inputs@[0].0@.eval(grid, row) == v);
    if v < table.lookup_range {
        assert(lookup.matches_row(grid, row, tables, v as int));
    }
    if lookup.holds(grid, row, tables) {
        let at = choose|at: int| lookup.matches_row(grid, row, tables, at);
        assert(lookup.inputs@[0].1 == table.value);
    }
}

/// Where the selector is off, the lookup holds whatever the cell holds: its
/// input is zero, which is row zero of a table that has any row.
pub proof fn lemma_value_lookup_off(
    lookup: Lookup,
    selector: Selector,
    value: Polynomial,
    table: RangeCheckTable,
    grid: Grid,
    row: int,
    tables: Tables,
)
    requires
        is_value_lookup(lookup, selector, value, table.value),
        table.loaded_in(tables),
        table.lookup_range > 0,
        !grid.selectors.contains((selector.index as int, row)),
    ensures
        lookup.holds(grid, row, tables),
{
    reveal_with_fuel(Polynomial::eval, 2);
    assert(0 * value.eval(grid, row) == 0);
    assert(lookup.inputs@[0].0@.eval(grid, row) == 0);
    assert(lookup.matches_row(grid, row, tables, 0));
}

/// A range check on one advice column, with a gate for ranges up to `range`
/// and a lookup table for ranges up to `lookup_range`.
#[derive(Clone, Copy, Debug, PartialEq, Eq)]
pub struct ExpressionConfig {
    pub value: Column,
    pub selector: Selector,
    pub lookup_table: RangeCheckTable,
    pub lookup_selector: Selector,
    pub range: usize,
    pub lookup_range: usize,
}

impl ExpressionConfig {
    /// Declares both checks on the column `value`: a selector and a gate
    /// for the numbers below `range`, and a complex selector, a table of
    /// `lookup_range` rows and the lookup into it.
    pub fn configure(
        meta: &mut ConstraintSystem,
        value: Column,
        range: usize,
        lookup_range: usize,
    ) -> (config: Self)
        ensures
            config.value == value,
            config.range == range,
            config.lookup_range == lookup_range,
            config.selector.index == old(meta).selectors@.len(),
            !config.selector.complex,
            config.lookup_selector.index == old(meta).selectors@.len() + 1,
            config.lookup_selector.complex,
            config.lookup_table.value.index == old(meta).fixed@.len(),
            config.lookup_table.lookup_range == lookup_range,
            final(meta).selectors@ == old(meta).selectors@.push(false).push(true),
            final(meta).fixed@ == old(meta).fixed@.push(FixedRole::Table),
            final(meta).gates@.len() == old(meta).gates@.len() + 1,
            final(meta).gates@.drop_last() == old(meta).gates@,
            is_range_gate(
                final(meta).gates@.last(),
                config.selector,
                Polynomial::advice(value, 0),
                range as nat,
            ),
            final(meta).lookups@.len() == old(meta).lookups@.len() + 1,
            final(meta).lookups@.drop_last() == old(meta).lookups@,
            is_value_lookup(
                final(meta).lookups@.last(),
                config.lookup_selector,
                Polynomial::advice(value, 0),
                config.lookup_table.value,
            ),
            final(meta).advice == old(meta).advice,
            value.kind == ColumnKind::Advice && lookup_range > 0 ==> config.wf(),
    {
        let selector = meta.selector();
        let query = Expression::query_advice(value, Rotation::cur());
        create_range_gate(meta, selector, &query, range);
        let lookup_selector = meta.complex_selector();
        let lookup_table = RangeCheckTable::configure(meta, lookup_range);
        let input = Expression::query_selector(lookup_selector).times(query);
        proof {
            reveal_with_fuel(Polynomial::has_simple_selector, 2);
        }
        let mut inputs: Vec<(Expression, TableColumn)> = Vec::new();
        inputs.push((input, lookup_table.value));
        meta.lookup(inputs);
        proof {
            assert(meta.lookups@.drop_last() =~= old(meta).lookups@);
        }
        ExpressionConfig { value, selector, lookup_selector, lookup_table, range, lookup_range }
    }

    /// The selector that [`ExpressionConfig::assign`] enables for a range:
    /// that of the range gate where that gate covers the range, else that of the
    /// lookup.
    pub open spec fn selector_for(self, range: usize) -> Selector {
        if range <= self.range {
            self.selector
        } else {
            self.lookup_selector
        }
    }

    /// Whether a region is the one that [`ExpressionConfig::assign`] lays
    /// out for a value and a range: the selector for the range enabled at its
    /// first row, and the value in the cell beside it.
    pub open spec fn is_assigned_region(
        self,
        region: Region,
        value: Value<FieldElement>,
        range: usize,
    ) -> bool {
        &&& region.name@ == if range <= self.range {
            "range check"@
        } else {
            "range check with lookup table"@
        }
        &&& region.selectors@ =~= seq![(self.selector_for(range), 0usize)]
        &&& region.cells@ =~= seq![Assignment { column: self.value, offset: 0, value }]
        &&& region.copies@.len() == 0
        &&& region.constants@.len() == 0
    }

    /// Whether the configuration is wired as [`ExpressionConfig::configure`]
    /// leaves it for an advice column: two selectors, and a table that has a
    /// row.
    pub open spec fn wf(self) -> bool {
        &&& self.value.kind == ColumnKind::Advice
        &&& self.selector.index != self.lookup_selector.index
        &&& self.lookup_table.lookup_range > 0
    }

    /// What the region that [`ExpressionConfig::assign`] lays out for a
    /// known value demands of the value. Where the range gate covers the
    /// range, that gate holds at every row if the value is below its range,
    /// and the lookup, switched off, holds whatever the value is. Else the
    /// gate, switched off, holds whatever the value is, and the lookup holds
    /// at every row exactly when the value is below the range of the table.
    pub proof fn lemma_assignment_satisfies(
        self,
        gate: Gate,
        lookup: Lookup,
        region: Region,
        value: FieldElement,
        range: usize,
        tables: Tables,
    )
        requires
            self.wf(),
            is_range_gate(
                gate,
                self.selector,
                Polynomial::advice(self.value, 0),
                self.range as nat,
            ),
            is_value_lookup(
                lookup,
                self.lookup_selector,
                Polynomial::advice(self.value, 0),
                self.lookup_table.value,
            ),
            self.lookup_table.loaded_in(tables),
            self.is_assigned_region(region, Value::Known(value), range),
            value@ < modulus(),
        ensures
            range > self.range || value@ < self.range ==> forall|row: int|
                gate.holds(region.grid(), row),
            range <= self.range ==> forall|row: int| lookup.holds(region.grid(), row, tables),
            range > self.range ==> ((forall|row: int| lookup.holds(region.grid(), row, tables))
                <==> value@ < self.lookup_table.lookup_range),
    {
        let grid = region.grid();
        let query = Polynomial::advice(self.value, 0);
        let entry = Assignment { column: self.value, offset: 0, value: Value::Known(value) };
        assert(region.cells@.last() == entry);
        region.lemma_advice_query(self.value, 0, 0, value@);
        lemma_small_mod(value@, modulus());
        assert(region.selectors@[0] == (self.selector_for(range), 0usize));
        assert forall|row: int|
            grid.selectors.contains((self.selector_for(range).index as int, row)) == (row
                == 0) by {
            region.lemma_selector_query(self.selector_for(range), row);
            if row == 0 {
                assert(region.selectors@[0].0.index == self.selector_for(range).index);
            }
        }
        let other = if range <= self.range {
            self.lookup_selector
        } else {
            self.selector
        };
        assert forall|row: int| !grid.selectors.contains((other.index as int, row)) by {
            region.lemma_selector_query(other, row);
        }
        if range > self.range || value@ < self.range {
            assert forall|row: int| gate.holds(grid, row) by {
                lemma_range_gate_holds(gate, self.selector, query, self.range as nat, grid, row);
            }
        }
        if range <= self.range {
            assert forall|row: int| lookup.holds(grid, row, tables) by {
                lemma_value_lookup_off(
                    lookup,
                    self.lookup_selector,
                    query,
                    self.lookup_table,
                    grid,
                    row,
                    tables,
                );
            }
        } else {
            lemma_value_lookup_on(
                lookup,
                self.lookup_selector,
                query,
                self.lookup_table,
                grid,
                0,
                tables,
            );
            if value@ < self.lookup_table.lookup_range {
                assert forall|row: int| lookup.holds(grid, row, tables) by {
                    if row != 0 {
                        lemma_value_lookup_off(
                            lookup,
                            self.lookup_selector,
                            query,
                            self.lookup_table,
                            grid,
                            row,
                            tables,
                        );
                    }
                }
            }
        }
    }

    /// Assigns a value to be checked against `range`, in a region of its
    /// own. A range beyond the table's is refused, and so is a value column
    /// that is no advice column. Where the range gate covers the range its selector
    /// is enabled, else that of the lookup; the value goes into the same cell
    /// either way.
    pub fn assign(&self, layouter: &mut Layouter, value: Value<FieldElement>, range: usize) -> (r:
        Result<(), Error>)
        ensures
            r is Err <==> range > self.lookup_range || self.value.kind != ColumnKind::Advice,
            r is Err ==> r == Err::<(), Error>(Error::Configuration) && *final(layouter) == *old(
                layouter,
            ),
            r is Ok ==> {
                &&& final(layouter).regions@.len() == old(layouter).regions@.len() + 1
                &&& final(layouter).regions@.drop_last() == old(layouter).regions@
                &&& self.is_assigned_region(final(layouter).regions@.last(), value, range)
            },
            final(layouter).tables == old(layouter).tables,
    {
        if range > self.lookup_range {
            return Err(Error::Configuration);
        }
        let mut region = if range <= self.range {
            let mut region = Region::new("range check");
            region.enable(self.selector, 0);
            region
        } else {
            let mut region = Region::new("range check with lookup table");
            region.enable(self.lookup_selector, 0);
            region
        };
        match region.assign_advice(self.value, 0, value) {
            Err(e) => Err(e),
            Ok(()) => {
                layouter.assign_region(region);
                proof {
                    assert(layouter.regions@.drop_last() =~= old(layouter).regions@);
                }
                Ok(())
            },
        }
    }
}

} // verus!
