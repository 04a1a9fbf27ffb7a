//! The sorts of the solver's language.
use crate::common::expression::SortView;
use crate::smt::context::UninterpretedSortSymbol;
use vstd::prelude::*;

verus! {

/// A sort of the smt tier.
#[derive(Debug, Clone, PartialEq, Eq)]
pub enum Sort {
    Bool,
    Int,
    Real,
    Uninterpreted { name: UninterpretedSortSymbol },
}

impl View for Sort {
    type V = SortView;

    open spec fn view(&self) -> SortView {
        match self {
            Sort::Bool => SortView::Bool,
            Sort::Int => SortView::Int,
            Sort::Real => SortView::Real,
            Sort::Uninterpreted { name } => SortView::Uninterpreted(name@),
        }
    }
}

impl Sort {
    /// A copy of the sort.
    pub fn duplicate(&self) -> (r: Sort)
        ensures
            r@ == self@,
    {
        match self {
            Sort::Bool => Sort::Bool,
            Sort::Int => Sort::Int,
            Sort::Real => Sort::Real,
            Sort::Uninterpreted { name } => Sort::Uninterpreted { name: name.clone() },
        }
    }
}

} // verus!
