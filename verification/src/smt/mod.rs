//! The language of the solver: queries, models, and their text.

pub mod context;
pub mod declaration;
pub mod expression;
pub mod ident;
pub mod model;
pub mod parse;
pub mod print;
pub mod query;
pub mod sort;

pub use crate::smt::context::{
    FunctionSymbol, IdentSymbol, LabelSymbol, UninterpretedSortSymbol, UninterpretedSortValue,
    VariableSymbol,
};
pub use crate::smt::declaration::{
    Declarations, FunctionDeclaration, LabelDeclaration, UninterpretedSortDeclaration,
    VariableDeclaration,
};
pub use crate::smt::expression::{
    BinaryOperation, BinaryOperationKind, BoundedVariableDecl, Conditional, Constant, Expression,
    FunctionApplication, LabelPositivity, LabelledExpression, Quantifier, QuantifierKind, Trigger,
    UnaryOperation, UnaryOperationKind, Variable,
};
pub use crate::smt::model::{Model, ModelItem, ModelItemArg, Value};
pub use crate::smt::query::{Assertions, Query};
pub use crate::smt::sort::Sort;
