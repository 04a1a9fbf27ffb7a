//! The declarations of the high tier.

use crate::common::statement::VariableDeclView;
use crate::high::context::{AxiomNameSymbol, FunctionSymbol, UninterpretedSortSymbol, VariableSymbol};
use crate::high::expression::Expression;
use crate::high::typ::Type;
use vstd::prelude::*;

verus! {

/// The declaration of an uninterpreted sort.
#[derive(Debug, Clone, PartialEq, Eq)]
pub struct UninterpretedSortDeclaration {
    pub name: UninterpretedSortSymbol,
}

/// The declaration of a variable with its sort.
#[derive(Debug, Clone, PartialEq, Eq)]
pub struct VariableDeclaration {
    pub name: VariableSymbol,
    pub sort: Type,
}

/// The declaration of a function with its parameters and the sort of its
/// result.
#[derive(Debug, Clone, PartialEq, Eq)]
pub struct FunctionDeclaration {
    pub name: FunctionSymbol,
    pub parameters: Vec<VariableDeclaration>,
    pub return_sort: Type,
}

impl View for VariableDeclaration {
    type V = VariableDeclView;

    open spec fn view(&self) -> VariableDeclView {
        VariableDeclView { name: self.name@, sort: self.sort@ }
    }
}

/// The models of the declarations of `decls`, in order.
pub open spec fn declarations_of(decls: Seq<VariableDeclaration>) -> Seq<VariableDeclView> {
    Seq::new(decls.len(), |i: int| decls[i]@)
}

/// A formula that is taken for granted, under a name.
#[derive(Debug, Clone, PartialEq, Eq)]
pub struct AxiomDeclaration {
    pub name: AxiomNameSymbol,
    pub body: Expression,
}

} // verus!
