//! The cells of one proof instance: values that may not be known yet, the
//! regions that gadgets fill, the tables that lookups read, and the layouter
//! that collects both.

use crate::field::modulus;
use crate::field::FieldElement;
use crate::plonk::Column;
use crate::plonk::ColumnKind;
use crate::plonk::Error;
use crate::plonk::Grid;
use crate::plonk::Polynomial;
use crate::plonk::Selector;
use crate::plonk::TableColumn;
use crate::plonk::Tables;
use vstd::prelude::*;

verus! {

/// A value that is known only while a witness is generated. While the
/// circuit is compiled every value is unknown.
#[derive(Clone, Copy, Debug, PartialEq, Eq)]
pub enum Value<T> {
    Unknown,
    Known(T),
}

impl<T: View> View for Value<T> {
    type V = Value<T::V>;

    open spec fn view(&self) -> Value<T::V> {
        match self {
            Value::Unknown => Value::Unknown,
            Value::Known(v) => Value::Known(v@),
        }
    }
}

impl<T> Value<T> {
    /// A known value.
    pub fn known(value: T) -> (r: Value<T>)
        ensures
            r == Value::Known(value),
    {
        Value::Known(value)
    }

    /// The unknown value.
    pub fn unknown() -> (r: Value<T>)
        ensures
            r == Value::<T>::Unknown,
    {
        Value::Unknown
    }

    /// Applies `f` to a known value; the unknown value stays unknown.
    pub fn map<U, F: FnOnce(T) -> U>(self, f: F) -> (r: Value<U>)
        requires
            self matches Value::Known(v) ==> f.requires((v,)),
        ensures
            self is Unknown ==> r is Unknown,
            self matches Value::Known(v) ==> r matches Value::Known(u) && f.ensures((v,), u),
    {
        match self {
            Value::Unknown => Value::Unknown,
            Value::Known(v) => Value::Known(f(v)),
        }
    }

    /// Applies `f`, which may itself answer with the unknown value, to a known
    /// value; the unknown value stays unknown.
    pub fn and_then<U, F: FnOnce(T) -> Value<U>>(self, f: F) -> (r: Value<U>)
        requires
            self matches Value::Known(v) ==> f.requires((v,)),
        ensures
            self is Unknown ==> r is Unknown,
            self matches Value::Known(v) ==> f.ensures((v,), r),
    {
        match self {
            Value::Unknown => Value::Unknown,
            Value::Known(v) => f(v),
        }
    }
}

/// The place of a cell: the region it lies in, by the region's number in the
/// layouter, and its column and row within that region.
#[derive(Clone, Copy, Debug, PartialEq, Eq, Structural)]
pub struct Cell {
    pub region: usize,
    pub column: Column,
    pub offset: usize,
}

/// A cell that has been given a value.
#[derive(Clone, Copy, Debug, PartialEq, Eq)]
pub struct AssignedCell {
    pub cell: Cell,
    pub value: Value<FieldElement>,
}

/// One entry of a region: the value given to the cell at a column and row.
#[derive(Clone, Copy, Debug, PartialEq, Eq)]
pub struct Assignment {
    pub column: Column,
    pub offset: usize,
    pub value: Value<FieldElement>,
}

/// The demand that a cell of a region equal a cell assigned earlier.
#[derive(Clone, Copy, Debug, PartialEq, Eq, Structural)]
pub struct CopyConstraint {
    pub from: Cell,
    pub column: Column,
    pub offset: usize,
}

/// The demand that a cell of a region equal a public constant.
#[derive(Clone, Copy, Debug, PartialEq, Eq)]
pub struct ConstantConstraint {
    pub column: Column,
    pub offset: usize,
    pub value: FieldElement,
}

/// Whether one of the entries gives a value to the cell.
pub open spec fn assigned_in(cells: Seq<Assignment>, column: Column, offset: int) -> bool {
    exists|i: int|
        0 <= i < cells.len() && (#[trigger] cells[i]).column == column && cells[i].offset == offset
}

/// The value that the entries give to the cell, unknown where they give none.
pub open spec fn value_in(cells: Seq<Assignment>, column: Column, offset: int) -> Value<nat>
    decreases cells.len(),
{
    if cells.len() == 0 {
        Value::Unknown
    } else if cells.last().column == column && cells.last().offset == offset {
        cells.last().value@
    } else {
        value_in(cells.drop_last(), column, offset)
    }
}

/// One more entry gives its cell its value and leaves the other cells alone.
pub proof fn lemma_entry_added(cells: Seq<Assignment>, entry: Assignment)
    ensures
        forall|column: Column, offset: int|
            #[trigger] assigned_in(cells.push(entry), column, offset) == (assigned_in(
                cells,
                column,
                offset,
            ) || (column == entry.column && offset == entry.offset)),
        forall|column: Column, offset: int|
            #[trigger] value_in(cells.push(entry), column, offset) == if column == entry.column
                && offset == entry.offset {
                entry.value@
            } else {
                value_in(cells, column, offset)
            },
{
    let more = cells.push(entry);
    assert(more.drop_last() =~= cells);
    assert forall|column: Column, offset: int|
        #[trigger] assigned_in(more, column, offset) == (assigned_in(cells, column, offset) || (
        column == entry.column && offset == entry.offset)) by {
        if assigned_in(cells, column, offset) {
            let i = choose|i: int|
                0 <= i < cells.len() && (#[trigger] cells[i]).column == column && cells[i].offset
                    == offset;
            assert(more[i] == cells[i]);
        }
        if column == entry.column && offset == entry.offset {
            assert(more[cells.len() as int] == entry);
        }
        if assigned_in(more, column, offset) {
            let i = choose|i: int|
                0 <= i < more.len() && (#[trigger] more[i]).column == column && more[i].offset
                    == offset;
            if i < cells.len() {
                assert(cells[i] == more[i]);
            }
        }
    }
}

/// A contiguous span of rows that one use of a gadget fills.
#[derive(Clone, Debug, PartialEq, Eq)]
pub struct Region {
    pub name: &'static str,
    /// The selectors that are enabled, each with its row.
    pub selectors: Vec<(Selector, usize)>,
    /// The cells that hold a value, in the order in which they got it.
    pub cells: Vec<Assignment>,
    /// The cells that must equal a cell assigned earlier.
    pub copies: Vec<CopyConstraint>,
    /// The cells that must equal a constant.
    pub constants: Vec<ConstantConstraint>,
}

impl Region {
    /// Whether the cell holds a value, known or not.
    pub open spec fn is_assigned(self, column: Column, offset: int) -> bool {
        assigned_in(self.cells@, column, offset)
    }

    /// The value of the cell, unknown where it holds none.
    pub open spec fn value_at(self, column: Column, offset: int) -> Value<nat> {
        value_in(self.cells@, column, offset)
    }

    /// The values that expressions read in this region: the advice cells
    /// whose value is known, and the selectors that are enabled.
    pub open spec fn grid(self) -> Grid {
        Grid {
            advice: Map::new(
                |at: (int, int)|
                    0 <= at.0 <= usize::MAX && self.value_at(
                        Column { kind: ColumnKind::Advice, index: at.0 as usize },
                        at.1,
                    ) is Known,
                |at: (int, int)|
                    self.value_at(
                        Column { kind: ColumnKind::Advice, index: at.0 as usize },
                        at.1,
                    )->Known_0,
            ),
            selectors: Set::new(
                |at: (int, int)|
                    exists|i: int|
                        0 <= i < self.selectors@.len() && (#[trigger] self.selectors@[i]).0.index
                            == at.0 && self.selectors@[i].1 == at.1,
            ),
        }
    }

    /// Each cell that is constrained to a constant holds that constant.
    pub open spec fn constants_hold(self) -> bool {
        forall|i: int|
            0 <= i < self.constants@.len() ==> self.value_at(
                (#[trigger] self.constants@[i]).column,
                self.constants@[i].offset as int,
            ) == Value::Known(self.constants@[i].value@)
    }

    /// A query of an advice cell that holds a known value reads that value.
    pub proof fn lemma_advice_query(self, column: Column, rotation: int, row: int, v: nat)
        requires
            column.kind == ColumnKind::Advice,
            self.value_at(column, row + rotation) == Value::Known(v),
        ensures
            Polynomial::advice(column, rotation).eval(self.grid(), row) == v % modulus(),
    {
        let at = (column.index as int, row + rotation);
        assert(Column { kind: ColumnKind::Advice, index: at.0 as usize } == column);
        assert(self.grid().advice.dom().contains(at));
    }

    /// A query of a selector reads one at the rows where the region enables
    /// a selector of that number, and zero at the others.
    pub proof fn lemma_selector_query(self, selector: Selector, row: int)
        ensures
            Polynomial::Selector(selector).eval(self.grid(), row) == if exists|i: int|
                0 <= i < self.selectors@.len() && (#[trigger] self.selectors@[i]).0.index
                    == selector.index && self.selectors@[i].1 == row {
                1nat
            } else {
                0nat
            },
    {
    }

    /// A region with nothing in it.
    pub fn new(name: &'static str) -> (r: Region)
        ensures
            r.name == name,
            r.selectors@.len() == 0,
            r.cells@.len() == 0,
            r.copies@.len() == 0,
            r.constants@.len() == 0,
    {
        Region {
            name,
            selectors: Vec::new(),
            cells: Vec::new(),
            copies: Vec::new(),
            constants: Vec::new(),
        }
    }

    /// Enables a selector at a row.
    pub fn enable(&mut self, selector: Selector, offset: usize)
        ensures
            final(self).selectors@ == old(self).selectors@.push((selector, offset)),
            final(self).name == old(self).name,
            final(self).cells == old(self).cells,
            final(self).copies == old(self).copies,
            final(self).constants == old(self).constants,
    {
        self.selectors.push((selector, offset));
    }

    /// Whether the cell holds a value already.
    pub fn holds_value(&self, column: Column, offset: usize) -> (r: bool)
        ensures
            r == self.is_assigned(column, offset as int),
    {
        let mut i: usize = 0;
        while i < self.cells.len()
            invariant
                i <= self.cells@.len(),
                forall|j: int|
                    0 <= j < i ==> !((#[trigger] self.cells@[j]).column == column
                        && self.cells@[j].offset == offset),
            decreases self.cells@.len() - i,
        {
            if self.cells[i].column == column && self.cells[i].offset == offset {
                return true;
            }
            i = i + 1;
        }
        false
    }

    /// Gives an advice cell its value. A cell is written once: a second
    /// value for it, or a column that is no advice column, is refused and
    /// leaves the region as it was.
    pub fn assign_advice(&mut self, column: Column, offset: usize, value: Value<FieldElement>) -> (r:
        Result<(), Error>)
        ensures
            r is Err <==> column.kind != ColumnKind::Advice || old(self).is_assigned(
                column,
                offset as int,
            ),
            r is Err ==> r == Err::<(), Error>(Error::Configuration) && *final(self) == *old(self),
            r is Ok ==> final(self).cells@ == old(self).cells@.push(
                Assignment { column, offset, value },
            ),
            final(self).name == old(self).name,
            final(self).selectors == old(self).selectors,
            final(self).copies == old(self).copies,
            final(self).constants == old(self).constants,
    {
        if column.kind != ColumnKind::Advice || self.holds_value(column, offset) {
            return Err(Error::Configuration);
        }
        self.cells.push(Assignment { column, offset, value });
        Ok(())
    }

    /// Gives an advice cell the value of a cell assigned earlier and demands
    /// that the two stay equal. Refused as [`Region::assign_advice`] is.
    pub fn copy_advice(&mut self, source: &AssignedCell, column: Column, offset: usize) -> (r:
        Result<(), Error>)
        ensures
            r is Err <==> column.kind != ColumnKind::Advice || old(self).is_assigned(
                column,
                offset as int,
            ),
            r is Err ==> r == Err::<(), Error>(Error::Configuration) && *final(self) == *old(self),
            r is Ok ==> final(self).cells@ == old(self).cells@.push(
                Assignment { column, offset, value: source.value },
            ) && final(self).copies@ == old(self).copies@.push(
                CopyConstraint { from: source.cell, column, offset },
            ),
            final(self).name == old(self).name,
            final(self).selectors == old(self).selectors,
            final(self).constants == old(self).constants,
    {
        if column.kind != ColumnKind::Advice || self.holds_value(column, offset) {
            return Err(Error::Configuration);
        }
        self.cells.push(Assignment { column, offset, value: source.value });
        self.copies.push(CopyConstraint { from: source.cell, column, offset });
        Ok(())
    }

    /// Demands that a cell equal a constant.
    pub fn constrain_constant(&mut self, column: Column, offset: usize, value: FieldElement)
        ensures
            final(self).constants@ == old(self).constants@.push(
                ConstantConstraint { column, offset, value },
            ),
            final(self).name == old(self).name,
            final(self).selectors == old(self).selectors,
            final(self).cells == old(self).cells,
            final(self).copies == old(self).copies,
    {
        self.constants.push(ConstantConstraint { column, offset, value });
    }
}

/// The values of one column of a lookup table, from row zero on.
#[derive(Clone, Debug, PartialEq, Eq)]
pub struct TableColumnValues {
    pub column: TableColumn,
    pub values: Vec<FieldElement>,
}

/// What the loaded columns hold, by column number. Where a column occurs
/// twice the later entry counts.
pub open spec fn tables_of(columns: Seq<TableColumnValues>) -> Tables
    decreases columns.len(),
{
    if columns.len() == 0 {
        Map::empty()
    } else {
        tables_of(columns.drop_last()).insert(
            columns.last().column.index as int,
            columns.last().values@.map_values(|e: FieldElement| e@),
        )
    }
}

/// Whether one of the loaded columns is the given one.
pub open spec fn loaded_in(columns: Seq<TableColumnValues>, column: TableColumn) -> bool {
    exists|i: int| 0 <= i < columns.len() && (#[trigger] columns[i]).column == column
}

/// Everything assigned for one proof instance.
#[derive(Clone, Debug, PartialEq, Eq)]
pub struct Layouter {
    /// The regions, in the order in which they were assigned.
    pub regions: Vec<Region>,
    /// The table columns that have been loaded.
    pub tables: Vec<TableColumnValues>,
}

impl Layouter {
    /// What the lookup tables hold.
    pub open spec fn table_contents(self) -> Tables {
        tables_of(self.tables@)
    }

    /// Whether the table column has been loaded.
    pub open spec fn is_loaded(self, column: TableColumn) -> bool {
        loaded_in(self.tables@, column)
    }

    /// A layouter with no region and no table.
    pub fn new() -> (r: Layouter)
        ensures
            r.regions@.len() == 0,
            r.tables@.len() == 0,
    {
        Layouter { regions: Vec::new(), tables: Vec::new() }
    }

    /// Takes a filled region in and returns its number.
    pub fn assign_region(&mut self, region: Region) -> (index: usize)
        ensures
            index == old(self).regions@.len(),
            final(self).regions@ == old(self).regions@.push(region),
            final(self).tables == old(self).tables,
    {
        let index = self.regions.len();
        self.regions.push(region);
        index
    }

    /// Whether the table column has been loaded.
    pub fn has_table_column(&self, column: TableColumn) -> (r: bool)
        ensures
            r == self.is_loaded(column),
    {
        let mut i: usize = 0;
        while i < self.tables.len()
            invariant
                i <= self.tables@.len(),
                forall|j: int| 0 <= j < i ==> (#[trigger] self.tables@[j]).column != column,
            decreases self.tables@.len() - i,
        {
            if self.tables[i].column == column {
                return true;
            }
            i = i + 1;
        }
        false
    }

    /// Loads one column of a table. A column is loaded once: a second load is
    /// refused and leaves the layouter as it was.
    pub fn assign_table_column(&mut self, column: TableColumn, values: Vec<FieldElement>) -> (r:
        Result<(), Error>)
        ensures
            r is Err <==> old(self).is_loaded(column),
            r is Err ==> r == Err::<(), Error>(Error::Configuration) && *final(self) == *old(self),
            r is Ok ==> final(self).tables@ == old(self).tables@.push(
                TableColumnValues { column, values },
            ),
            final(self).regions == old(self).regions,
    {
        if self.has_table_column(column) {
            return Err(Error::Configuration);
        }
        self.tables.push(TableColumnValues { column, values });
        Ok(())
    }
}

} // verus!
