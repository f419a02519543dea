//! The lookup table of the numbers below a range.

use crate::circuit::tables_of;
use crate::circuit::Layouter;
use crate::circuit::TableColumnValues;
use crate::field::FieldElement;
use crate::plonk::ConstraintSystem;
use crate::plonk::Error;
use crate::plonk::FixedRole;
use crate::plonk::TableColumn;
use crate::plonk::Tables;
use vstd::prelude::*;

verus! {

/// The numbers below `range`, in order: what the value column of a range
/// table holds.
pub open spec fn value_column(range: nat) -> Seq<nat> {
    Seq::new(range, |i: int| i as nat)
}

/// Loading one more column adds it to what the tables hold.
pub proof fn lemma_column_loaded(columns: Seq<TableColumnValues>, column: TableColumnValues)
    ensures
        tables_of(columns.push(column)) == tables_of(columns).insert(
            column.column.index as int,
            column.values@.map_values(|e: FieldElement| e@),
        ),
{
    assert(columns.push(column).drop_last() =~= columns);
}

/// A table with one column, which holds the numbers below a range.
#[derive(Clone, Copy, Debug, PartialEq, Eq)]
pub struct RangeCheckTable {
    pub value: TableColumn,
    pub lookup_range: usize,
}

impl RangeCheckTable {
    /// The tables hold this table: its column holds the numbers below the
    /// range.
    pub open spec fn loaded_in(self, tables: Tables) -> bool {
        &&& tables.dom().contains(self.value.index as int)
        &&& tables[self.value.index as int] == value_column(self.lookup_range as nat)
    }

    /// Reserves the column of a table of `lookup_range` rows.
    pub fn configure(meta: &mut ConstraintSystem, lookup_range: usize) -> (table: Self)
        ensures
            table.value.index == old(meta).fixed@.len(),
            table.lookup_range == lookup_range,
            final(meta).fixed@ == old(meta).fixed@.push(FixedRole::Table),
            final(meta).advice == old(meta).advice,
            final(meta).selectors == old(meta).selectors,
            final(meta).gates == old(meta).gates,
            final(meta).lookups == old(meta).lookups,
    {
        let value = meta.lookup_table_column();
        RangeCheckTable { value, lookup_range }
    }

    /// Fills the table: row `i` holds `i`, for each `i` below the range. A
    /// table is loaded once for each proof: a second load is refused and
    /// changes nothing.
    pub fn load(&self, layouter: &mut Layouter) -> (r: Result<(), Error>)
        ensures
            r is Err <==> old(layouter).is_loaded(self.value),
            r is Err ==> r == Err::<(), Error>(Error::Configuration) && *final(layouter) == *old(
                layouter,
            ),
            r is Ok ==> {
                &&& final(layouter).tables@.len() == old(layouter).tables@.len() + 1
                &&& final(layouter).tables@.drop_last() == old(layouter).tables@
                &&& final(layouter).tables@.last().column == self.value
                &&& final(layouter).table_contents() == old(layouter).table_contents().insert(
                    self.value.index as int,
                    value_column(self.lookup_range as nat),
                )
                &&& self.loaded_in(final(layouter).table_contents())
            },
            final(layouter).regions == old(layouter).regions,
    {
        if layouter.has_table_column(self.value) {
            return Err(Error::Configuration);
        }
        let mut values: Vec<FieldElement> = Vec::new();
        let mut i: usize = 0;
        while i < self.lookup_range
            invariant
                i <= self.lookup_range,
                values@.len() == i,
                forall|j: int| 0 <= j < i ==> (#[trigger] values@[j])@ == j as nat,
            decreases self.lookup_range - i,
        {
            values.push(FieldElement::from_u64(i as u64));
            i = i + 1;
        }
        proof {
            assert(values@.map_values(|e: FieldElement| e@) =~= value_column(self.lookup_range as nat));
            lemma_column_loaded(
                layouter.tables@,
                TableColumnValues { column: self.value, values },
            );
        }
        let loaded = layouter.assign_table_column(self.value, values);
        proof {
            assert(layouter.tables@.drop_last() =~= old(layouter).tables@);
        }
        loaded
    }
}

} // verus!
