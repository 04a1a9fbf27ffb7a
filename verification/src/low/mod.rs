//! The low tier: programs over versions of variables, in which nothing is
//! assigned and everything is asserted or assumed.

pub mod context;
pub mod declaration;
pub mod expression;
pub mod program;
pub mod sort;
pub mod statement;

pub use crate::low::context::{
    AxiomNameSymbol, FunctionSymbol, LabelSymbol, UninterpretedSortSymbol, VariableSymbol,
};
pub use crate::low::declaration::{
    AxiomDeclaration, FunctionDeclaration, UninterpretedSortDeclaration, VariableDeclaration,
};
pub use crate::low::expression::{
    BinaryOperation, BinaryOperationKind, BoundedVariableDecl, Conditional, Constant, Expression,
    FunctionApplication, Quantifier, QuantifierKind, Trigger, UnaryOperation, UnaryOperationKind,
    Variable,
};
pub use crate::low::program::{BasicBlock, BasicBlockId, ProgramFragment};
pub use crate::low::sort::Sort;
pub use crate::low::statement::{Assert, Assume, Statement};
