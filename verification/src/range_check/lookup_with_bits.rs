//! A range check against a table that stores, beside each value, the number
//! of bits needed to write it.

use crate::bits::bit_width;
use crate::circuit::lemma_entry_added;
use crate::circuit::Assignment;
use crate::circuit::Layouter;
use crate::circuit::Region;
use crate::circuit::Value;
use crate::field::modulus;
use crate::field::FieldElement;
use crate::gadgets::range_check_with_bits::is_tagged_lookup;
use crate::gadgets::range_check_with_bits::lemma_tagged_lookup_off;
use crate::gadgets::range_check_with_bits::lemma_tagged_lookup_on;
use crate::plonk::Column;
use crate::plonk::ColumnKind;
use crate::plonk::ConstraintSystem;
use crate::plonk::Error;
use crate::plonk::Expression;
use crate::plonk::FixedRole;
use crate::plonk::Gate;
use crate::plonk::Lookup;
use crate::plonk::Polynomial;
use crate::plonk::Rotation;
use crate::plonk::Selector;
use crate::plonk::Tables;
use crate::range_check::expression_check::create_range_gate;
use crate::range_check::expression_check::is_range_gate;
use crate::range_check::expression_check::lemma_range_gate_holds;
use vstd::arithmetic::div_mod::lemma_small_mod;
use vstd::prelude::*;

pub mod table;

pub use crate::range_check::lookup_with_bits::table::RangeCheckTable;

verus! {

/// A range check on one advice column, with a gate for ranges up to `range`
/// and, for ranges up to `lookup_range`, a lookup of the value and its bit
/// width in a tagged table.
#[derive(Clone, Copy, Debug, PartialEq, Eq)]
pub struct RangeCheckConfig {
    pub value: Column,
    pub bits: Column,
    pub selector: Selector,
    pub lookup_table: RangeCheckTable,
    pub lookup_selector: Selector,
    pub range: usize,
    pub lookup_range: usize,
}

impl RangeCheckConfig {
    /// Declares both checks on the columns `value` and `bits`: a selector
    /// and a gate for the numbers below `range`, and a complex selector, a
    /// tagged table of `lookup_range` rows and the lookup into it.
    pub fn configure(
        meta: &mut ConstraintSystem,
        value: Column,
        bits: Column,
        range: usize,
        lookup_range: usize,
    ) -> (config: Self)
        ensures
            config.value == value,
            config.bits == bits,
            config.range == range,
            config.lookup_range == lookup_range,
            config.selector.index == old(meta).selectors@.len(),
            !config.selector.complex,
            config.lookup_selector.index == old(meta).selectors@.len() + 1,
            config.lookup_selector.complex,
            config.lookup_table.value.index == old(meta).fixed@.len(),
            config.lookup_table.bits.index == old(meta).fixed@.len() + 1,
            config.lookup_table.lookup_range == lookup_range,
            final(meta).selectors@ == old(meta).selectors@.push(false).push(true),
            final(meta).fixed@ == old(meta).fixed@.push(FixedRole::Table).push(FixedRole::Table),
            final(meta).gates@.len() == old(meta).gates@.len() + 1,
            final(meta).gates@.drop_last() == old(meta).gates@,
            is_range_gate(
                final(meta).gates@.last(),
                config.selector,
                Polynomial::advice(value, 0),
                range as nat,
            ),
            final(meta).lookups@.len() == old(meta).lookups@.len() + 1,
            final(meta).lookups@.drop_last() == old(meta).lookups@,
            is_tagged_lookup(
                final(meta).lookups@.last(),
                Polynomial::Selector(config.lookup_selector),
                Polynomial::advice(value, 0),
                Polynomial::advice(bits, 0),
                config.lookup_table,
            ),
            final(meta).advice == old(meta).advice,
            value.kind == ColumnKind::Advice && bits.kind == ColumnKind::Advice && value != bits
                && lookup_range > 0 ==> config.wf(),
    {
        let selector = meta.selector();
        let value_query = Expression::query_advice(value, Rotation::cur());
        create_range_gate(meta, selector, &value_query, range);
        let lookup_selector = meta.complex_selector();
        let bits_query = Expression::query_advice(bits, Rotation::cur());
        let tagged = crate::gadgets::range_check_with_bits::RangeCheckConfig::configure(
            meta,
            value_query,
            bits_query,
            Expression::query_selector(lookup_selector),
            lookup_range,
        );
        RangeCheckConfig {
            value,
            bits,
            selector,
            lookup_selector,
            lookup_table: tagged.lookup_table,
            range,
            lookup_range,
        }
    }

    /// Whether a region is the one that [`RangeCheckConfig::assign`] lays out
    /// for a value, its bits and a range. Where the range gate covers the range:
    /// its selector enabled at the first row, and the value beside it. Else:
    /// the selector of the lookup enabled, and the value and the bits beside
    /// it.
    pub open spec fn is_assigned_region(
        self,
        region: Region,
        value: Value<FieldElement>,
        bits: Value<FieldElement>,
        range: usize,
    ) -> bool {
        let value_cell = Assignment { column: self.value, offset: 0, value };
        let bits_cell = Assignment { column: self.bits, offset: 0, value: bits };
        &&& region.copies@.len() == 0
        &&& region.constants@.len() == 0
        &&& if range <= self.range {
            &&& region.name@ == "range check"@
            &&& region.selectors@ =~= seq![(self.selector, 0usize)]
            &&& region.cells@ =~= seq![value_cell]
        } else {
            &&& region.name@ == "range check with lookup table"@
            &&& region.selectors@ =~= seq![(self.lookup_selector, 0usize)]
            &&& region.cells@ =~= seq![value_cell, bits_cell]
        }
    }

    /// Whether the configuration is wired as [`RangeCheckConfig::configure`]
    /// leaves it for two distinct advice columns: two selectors, and a table
    /// that has a row.
    pub open spec fn wf(self) -> bool {
        &&& self.value.kind == ColumnKind::Advice
        &&& self.bits.kind == ColumnKind::Advice
        &&& self.value != self.bits
        &&& self.selector.index != self.lookup_selector.index
        &&& self.lookup_table.lookup_range > 0
    }

    /// What the region that [`RangeCheckConfig::assign`] lays out for a known
    /// value and known bits demands of them. Where the range gate covers the
    /// range, that gate holds at every row if the value is below its range,
    /// and the lookup, switched off, holds whatever the cells hold. Else the
    /// gate, switched off, holds whatever the cells hold, and the lookup
    /// holds at every row exactly when the value is below the range of the
    /// table and the bits are its bit width.
    pub proof fn lemma_assignment_satisfies(
        self,
        gate: Gate,
        lookup: Lookup,
        region: Region,
        value: FieldElement,
        bits: FieldElement,
        range: usize,
        tables: Tables,
    )
        requires
            self.wf(),
            is_range_gate(
                gate,
                self.selector,
                Polynomial::advice(self.value, 0),
                self.range as nat,
            ),
            is_tagged_lookup(
                lookup,
                Polynomial::Selector(self.lookup_selector),
                Polynomial::advice(self.value, 0),
                Polynomial::advice(self.bits, 0),
                self.lookup_table,
            ),
            self.lookup_table.loaded_in(tables),
            self.is_assigned_region(region, Value::Known(value), Value::Known(bits), range),
            value@ < modulus(),
            bits@ < modulus(),
        ensures
            range > self.range || value@ < self.range ==> forall|row: int|
                gate.holds(region.grid(), row),
            range <= self.range ==> forall|row: int| lookup.holds(region.grid(), row, tables),
            range > self.range ==> ((forall|row: int| lookup.holds(region.grid(), row, tables))
                <==> value@ < self.lookup_table.lookup_range && bits@ == bit_width(value@)),
    {
        let grid = region.grid();
        let selector = Polynomial::Selector(self.lookup_selector);
        let value_query = Polynomial::advice(self.value, 0);
        let bits_query = Polynomial::advice(self.bits, 0);
        let value_cell = Assignment { column: self.value, offset: 0, value: Value::Known(value) };
        let bits_cell = Assignment { column: self.bits, offset: 0, value: Value::Known(bits) };
        lemma_entry_added(Seq::empty(), value_cell);
        lemma_entry_added(seq![value_cell], bits_cell);
        assert(seq![value_cell] =~= Seq::empty().push(value_cell));
        if range > self.range {
            assert(region.cells@ =~= seq![value_cell].push(bits_cell));
            region.lemma_advice_query(self.bits, 0, 0, bits@);
        }
        region.lemma_advice_query(self.value, 0, 0, value@);
        lemma_small_mod(value@, modulus());
        lemma_small_mod(bits@, modulus());
        let enabled = if range <= self.range {
            self.selector
        } else {
            self.lookup_selector
        };
        let other = if range <= self.range {
            self.lookup_selector
        } else {
            self.selector
        };
        assert(region.selectors@[0] == (enabled, 0usize));
        assert forall|row: int| grid.selectors.contains((enabled.index as int, row)) == (row
            == 0) by {
            region.lemma_selector_query(enabled, row);
            if row == 0 {
                assert(region.selectors@[0].0.index == enabled.index);
            }
        }
        assert forall|row: int| !grid.selectors.contains((other.index as int, row)) by {
            region.lemma_selector_query(other, row);
        }
        if range > self.range || value@ < self.range {
            assert forall|row: int| gate.holds(grid, row) by {
                lemma_range_gate_holds(
                    gate,
                    self.selector,
                    value_query,
                    self.range as nat,
                    grid,
                    row,
                );
            }
        }
        if range <= self.range {
            assert forall|row: int| lookup.holds(grid, row, tables) by {
                lemma_tagged_lookup_off(
                    lookup,
                    selector,
                    value_query,
                    bits_query,
                    self.lookup_table,
                    grid,
                    row,
                    tables,
                );
            }
        } else {
            lemma_tagged_lookup_on(
                lookup,
                selector,
                value_query,
                bits_query,
                self.lookup_table,
                grid,
                0,
                tables,
            );
            if value@ < self.lookup_table.lookup_range && bits@ == bit_width(value@) {
                assert forall|row: int| lookup.holds(grid, row, tables) by {
                    if row != 0 {
                        lemma_tagged_lookup_off(
                            lookup,
                            selector,
                            value_query,
                            bits_query,
                            self.lookup_table,
                            grid,
                            row,
                            tables,
                        );
                    }
                }
            }
        }
    }

    /// Assigns a value to be checked against `range`, in a region of its
    /// own. A range beyond the table's is refused, and so is a column that is
    /// no advice column. Where the range gate covers the range its selector is
    /// enabled and the bits are left out; else the selector of the lookup is
    /// enabled and the bits go into the cell beside the value, which must
    /// then lie in another column.
    pub fn assign(
        &self,
        layouter: &mut Layouter,
        value: Value<FieldElement>,
        bits: Value<FieldElement>,
        range: usize,
    ) -> (r: Result<(), Error>)
        ensures
            r is Err <==> {
                ||| range > self.lookup_range
                ||| self.value.kind != ColumnKind::Advice
                ||| range > self.range && (self.bits.kind != ColumnKind::Advice || self.bits
                    == self.value)
            },
            r is Err ==> r == Err::<(), Error>(Error::Configuration) && *final(layouter) == *old(
                layouter,
            ),
            r is Ok ==> {
                &&& final(layouter).regions@.len() == old(layouter).regions@.len() + 1
                &&& final(layouter).regions@.drop_last() == old(layouter).regions@
                &&& self.is_assigned_region(final(layouter).regions@.last(), value, bits, range)
            },
            final(layouter).tables == old(layouter).tables,
    {
        if range > self.lookup_range {
            return Err(Error::Configuration);
        }
        if range <= self.range {
            let mut region = Region::new("range check");
            region.enable(self.selector, 0);
            match region.assign_advice(self.value, 0, value) {
                Err(e) => {
                    return Err(e);
                },
                Ok(()) => {},
            }
            layouter.assign_region(region);
        } else {
            let mut region = Region::new("range check with lookup table");
            region.enable(self.lookup_selector, 0);
            match region.assign_advice(self.value, 0, value) {
                Err(e) => {
                    return Err(e);
                },
                Ok(()) => {},
            }
            proof {
                lemma_entry_added(
                    Seq::empty(),
                    Assignment { column: self.value, offset: 0, value },
                );
                assert(region.cells@ =~= Seq::empty().push(
                    Assignment { column: self.value, offset: 0, value },
                ));
            }
            match region.assign_advice(self.bits, 0, bits) {
                Err(e) => {
                    return Err(e);
                },
                Ok(()) => {},
            }
            layouter.assign_region(region);
        }
        proof {
            assert(layouter.regions@.drop_last() =~= old(layouter).regions@);
        }
        Ok(())
    }
}

} // verus!
