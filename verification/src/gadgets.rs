//! Gadgets that other gates build on: the zero test and the tagged lookup.

pub mod is_zero;
pub mod range_check_with_bits;
