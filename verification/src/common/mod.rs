//! What the tiers share: the model of expressions and statements, and the
//! graphs of basic blocks with their walks.

pub mod cfg;
pub mod expression;
pub mod order;
pub mod statement;
