//! Range checks: by a polynomial identity, by a lookup, by a lookup tagged
//! with bit widths, and the decomposition into chunks that builds on them.

pub mod decompose;
pub mod expression_check;
pub mod lookup;
pub mod lookup_with_bits;
pub mod running_sum;
