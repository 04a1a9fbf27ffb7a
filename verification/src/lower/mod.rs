//! From the high tier to the low tier.

pub mod count;
pub mod expression;
pub mod program;
pub mod smt_context;
pub mod versions;
