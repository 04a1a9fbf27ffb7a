//! The high tier: programs over variables that are assigned to.

pub mod context;
pub mod declaration;
pub mod expression;
pub mod parse;
pub mod program;
pub mod statement;
pub mod typ;

pub use crate::high::context::{
    AdtNameSymbol, AxiomNameSymbol, FieldNameSymbol, FunctionSymbol, LabelSymbol,
    UninterpretedSortSymbol, VariableSymbol,
};
pub use crate::high::declaration::{
    AxiomDeclaration, FunctionDeclaration, UninterpretedSortDeclaration, VariableDeclaration,
};
pub use crate::high::expression::{
    BinaryOperation, BinaryOperationKind, BoundedVariableDecl, Conditional, Constant, Expression,
    FunctionApplication, Quantifier, QuantifierKind, Trigger, UnaryOperation, UnaryOperationKind,
    Variable,
};
pub use crate::high::program::{
    BasicBlock, BasicBlockId, ProcedureDeclaration, ProgramFragment, VariableId,
};
pub use crate::high::statement::{Assert, Assign, Assume, Havoc, Statement};
pub use crate::high::typ::{DomainType, Type};
