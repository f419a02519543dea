//! Range checks and decomposition for PLONK-style circuits over the Pallas
//! base field.
//!
//! A circuit author describes a circuit to a [`plonk::ConstraintSystem`]:
//! columns, selectors, gates and lookups. For each proof the author then fills
//! regions of cells and loads tables into a [`circuit::Layouter`]. This crate
//! holds the gadgets that declare and fill
//!
//! - a range check by polynomial identity ([`range_check::expression_check`]),
//! - a range check by lookup ([`range_check::lookup`]) and by lookup tagged
//!   with bit widths ([`range_check::lookup_with_bits`]),
//! - the decomposition of a value into chunks by a running sum
//!   ([`range_check::decompose`]),
//! - the zero test ([`gadgets::is_zero`]),
//!
//! and states, as proved properties, what their constraints demand of the
//! cells. Proving and verifying are left to a proving system, to which the
//! description and the cells are handed as plain data.

pub mod bits;
pub mod circuit;
pub mod field;
pub mod gadgets;
pub mod plonk;
pub mod range_check;
