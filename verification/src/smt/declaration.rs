//! The declarations of the smt tier.

use crate::common::statement::VariableDeclView;
use crate::smt::context::{FunctionSymbol, LabelSymbol, UninterpretedSortSymbol, VariableSymbol};
use crate::smt::sort::Sort;
use vstd::prelude::*;

verus! {

/// The declaration of an uninterpreted sort.
#[derive(Debug, Clone, PartialEq, Eq)]
pub struct UninterpretedSortDeclaration {
    pub name: UninterpretedSortSymbol,
}

/// The declaration of a variable with its sort.
#[derive(Debug, Clone, PartialEq, Eq)]
pub struct VariableDeclaration {
    pub name: VariableSymbol,
    pub sort: Sort,
}

/// The declaration of a function with its parameters and the sort of its
/// result.
#[derive(Debug, Clone, PartialEq, Eq)]
pub struct FunctionDeclaration {
    pub name: FunctionSymbol,
    pub parameters: Vec<VariableDeclaration>,
    pub return_sort: Sort,
}

impl View for VariableDeclaration {
    type V = VariableDeclView;

    open spec fn view(&self) -> VariableDeclView {
        VariableDeclView { name: self.name@, sort: self.sort@ }
    }
}

/// The models of the declarations of `decls`, in order.
pub open spec fn declarations_of(decls: Seq<VariableDeclaration>) -> Seq<VariableDeclView> {
    Seq::new(decls.len(), |i: int| decls[i]@)
}

/// The declaration of a label.
#[derive(Debug, Clone, PartialEq, Eq)]
pub struct LabelDeclaration {
    pub name: LabelSymbol,
}

/// The names of the labels of `decls`, in order.
pub open spec fn label_names_of(decls: Seq<LabelDeclaration>) -> Seq<Seq<char>> {
    Seq::new(decls.len(), |i: int| decls[i].name@)
}

/// All that a query declares before it asserts anything.
#[derive(Debug, Clone, PartialEq, Eq)]
pub struct Declarations {
    pub sorts: Vec<UninterpretedSortDeclaration>,
    pub variables: Vec<VariableDeclaration>,
    pub functions: Vec<FunctionDeclaration>,
    pub labels: Vec<LabelDeclaration>,
}

impl UninterpretedSortDeclaration {
    /// A copy of the declaration.
    pub fn duplicate(&self) -> (r: Self)
        ensures
            r.name@ == self.name@,
    {
        UninterpretedSortDeclaration { name: self.name.clone() }
    }
}

impl VariableDeclaration {
    /// A copy of the declaration.
    pub fn duplicate(&self) -> (r: Self)
        ensures
            r@ == self@,
    {
        VariableDeclaration { name: self.name.clone(), sort: self.sort.duplicate() }
    }
}

impl LabelDeclaration {
    /// A copy of the declaration.
    pub fn duplicate(&self) -> (r: Self)
        ensures
            r.name@ == self.name@,
    {
        LabelDeclaration { name: self.name.clone() }
    }
}

impl FunctionDeclaration {
    /// A copy of the declaration.
    pub fn duplicate(&self) -> (r: Self)
        ensures
            r.name@ == self.name@,
            declarations_of(r.parameters@) == declarations_of(self.parameters@),
            r.return_sort@ == self.return_sort@,
    {
        let mut parameters: Vec<VariableDeclaration> = Vec::new();
        let mut i: usize = 0;
        while i < self.parameters.len()
            invariant
                i <= self.parameters@.len(),
                parameters@.len() == i,
                forall|k: int| 0 <= k < i ==> (#[trigger] parameters@[k])@ == self.parameters@[k]@,
            decreases self.parameters@.len() - i,
        {
            parameters.push(self.parameters[i].duplicate());
            i += 1;
        }
        assert(declarations_of(parameters@) =~= declarations_of(self.parameters@));
        FunctionDeclaration {
            name: self.name.clone(),
            parameters,
            return_sort: self.return_sort.duplicate(),
        }
    }
}

} // verus!
