//! The lookup table of the numbers below a range, each tagged with its bit
//! width.

use crate::bits::bit_width;
use crate::bits::lemma_bit_width_range;
use crate::circuit::Layouter;
use crate::circuit::TableColumnValues;
use crate::field::FieldElement;
use crate::plonk::ConstraintSystem;
use crate::plonk::Error;
use crate::plonk::FixedRole;
use crate::plonk::TableColumn;
use crate::plonk::Tables;
use crate::range_check::lookup::table::lemma_column_loaded;
use crate::range_check::lookup::table::value_column;
use vstd::arithmetic::power2::lemma2_to64;
use vstd::arithmetic::power2::lemma_pow2_strictly_increases;
use vstd::arithmetic::power2::lemma_pow2_unfold;
use vstd::arithmetic::power2::pow2;
use vstd::prelude::*;

verus! {

/// The bit widths of the numbers below `range`, in order: what the bits
/// column of a tagged table holds. Zero is tagged with one bit.
pub open spec fn width_column(range: nat) -> Seq<nat> {
    Seq::new(range, |i: int| bit_width(i as nat))
}

/// A table with two columns: the numbers below a range and, beside each, the
/// number of bits of its binary representation.
#[derive(Clone, Copy, Debug, PartialEq, Eq)]
pub struct RangeCheckTable {
    pub value: TableColumn,
    pub bits: TableColumn,
    pub lookup_range: usize,
}

impl RangeCheckTable {
    /// The tables hold this table: the value column holds the numbers below
    /// the range and the bits column their widths.
    pub open spec fn loaded_in(self, tables: Tables) -> bool {
        &&& self.value != self.bits
        &&& tables.dom().contains(self.value.index as int)
        &&& tables.dom().contains(self.bits.index as int)
        &&& tables[self.value.index as int] == value_column(self.lookup_range as nat)
        &&& tables[self.bits.index as int] == width_column(self.lookup_range as nat)
    }

    /// Reserves the two columns of a table of `lookup_range` rows.
    pub fn configure(meta: &mut ConstraintSystem, lookup_range: usize) -> (table: Self)
        ensures
            table.value.index == old(meta).fixed@.len(),
            table.bits.index == old(meta).fixed@.len() + 1,
            table.lookup_range == lookup_range,
            final(meta).fixed@ == old(meta).fixed@.push(FixedRole::Table).push(FixedRole::Table),
            final(meta).advice == old(meta).advice,
            final(meta).selectors == old(meta).selectors,
            final(meta).gates == old(meta).gates,
            final(meta).lookups == old(meta).lookups,
    {
        let value = meta.lookup_table_column();
        let bits = meta.lookup_table_column();
        RangeCheckTable { value, bits, lookup_range }
    }

    /// Fills the table: row `i` holds `i` and the bit width of `i`, for each
    /// `i` below the range. A table is loaded once for each proof: a second
    /// load, or a table whose two columns are one, is refused and changes
    /// nothing.
    pub fn load(&self, layouter: &mut Layouter) -> (r: Result<(), Error>)
        ensures
            r is Err <==> self.value == self.bits || old(layouter).is_loaded(self.value) || old(
                layouter,
            ).is_loaded(self.bits),
            r is Err ==> r == Err::<(), Error>(Error::Configuration) && *final(layouter) == *old(
                layouter,
            ),
            r is Ok ==> {
                &&& final(layouter).tables@.len() == old(layouter).tables@.len() + 2
                &&& final(layouter).tables@.drop_last().drop_last() == old(layouter).tables@
                &&& final(layouter).table_contents() == old(layouter).table_contents().insert(
                    self.value.index as int,
                    value_column(self.lookup_range as nat),
                ).insert(self.bits.index as int, width_column(self.lookup_range as nat))
                &&& self.loaded_in(final(layouter).table_contents())
            },
            final(layouter).regions == old(layouter).regions,
    {
        if self.value == self.bits || layouter.has_table_column(self.value)
            || layouter.has_table_column(self.bits) {
            return Err(Error::Configuration);
        }
        let mut values: Vec<FieldElement> = Vec::new();
        let mut widths: Vec<FieldElement> = Vec::new();
        let mut bits: u64 = 1;
        let mut pow_of_two: u128 = 2;
        let mut i: usize = 0;
        proof {
            lemma2_to64();
        }
        while i < self.lookup_range
            invariant
                i <= self.lookup_range,
                values@.len() == i,
                widths@.len() == i,
                forall|j: int| 0 <= j < i ==> (#[trigger] values@[j])@ == j as nat,
                forall|j: int| 0 <= j < i ==> (#[trigger] widths@[j])@ == bit_width(j as nat),
                1 <= bits <= 64,
                pow_of_two == pow2(bits as nat),
                i <= pow_of_two,
                i < 2 ==> bits == 1,
                i >= 2 ==> pow2((bits - 1) as nat) < i,
            decreases self.lookup_range - i,
        {
            if i as u128 == pow_of_two {
                proof {
                    lemma2_to64();
                    if bits >= 64 {
                        if bits > 64 {
                            lemma_pow2_strictly_increases(64, bits as nat);
                        }
                        assert(false);
                    }
                    lemma_pow2_unfold((bits + 1) as nat);
                }
                pow_of_two = pow_of_two * 2;
                bits = bits + 1;
            }
            proof {
                lemma2_to64();
                if i >= 2 {
                    lemma_bit_width_range(i as nat, bits as nat);
                }
            }
            values.push(FieldElement::from_u64(i as u64));
            widths.push(FieldElement::from_u64(bits));
            i = i + 1;
        }
        proof {
            let range = self.lookup_range as nat;
            assert(values@.map_values(|e: FieldElement| e@) =~= value_column(range));
            assert(widths@.map_values(|e: FieldElement| e@) =~= width_column(range));
            let first = TableColumnValues { column: self.value, values };
            lemma_column_loaded(layouter.tables@, first);
            lemma_column_loaded(
                layouter.tables@.push(first),
                TableColumnValues { column: self.bits, values: widths },
            );
        }
        let loaded = layouter.assign_table_column(self.value, values);
        assert(loaded is Ok);
        proof {
            assert(!layouter.is_loaded(self.bits)) by {
                if layouter.is_loaded(self.bits) {
                    let k = choose|k: int|
                        0 <= k < layouter.tables@.len() && (#[trigger] layouter.tables@[k]).column
                            == self.bits;
                    if k < old(layouter).tables@.len() {
                        assert(old(layouter).tables@[k].column == self.bits);
                    }
                }
            }
        }
        let loaded = layouter.assign_table_column(self.bits, widths);
        proof {
            assert(layouter.tables@.drop_last().drop_last() =~= old(layouter).tables@);
        }
        loaded
    }
}

} // verus!
