//! The types of the high tier.
use crate::common::expression::SortView;
use crate::high::context::UninterpretedSortSymbol;
use vstd::prelude::*;

verus! {

/// A type that the program declares by name and nothing more is known of.
#[derive(Debug, Clone, PartialEq, Eq)]
pub struct DomainType {
    pub name: UninterpretedSortSymbol,
}

/// A type of the high tier.
#[derive(Debug, Clone, PartialEq, Eq)]
pub enum Type {
    Int,
    Bool,
    Real,
    Domain(DomainType),
}

impl View for Type {
    type V = SortView;

    open spec fn view(&self) -> SortView {
        match self {
            Type::Int => SortView::Int,
            Type::Bool => SortView::Bool,
            Type::Real => SortView::Real,
            Type::Domain(domain) => SortView::Uninterpreted(domain.name@),
        }
    }
}

impl Type {
    /// A copy of the type.
    pub fn duplicate(&self) -> (r: Type)
        ensures
            r@ == self@,
    {
        match self {
            Type::Int => Type::Int,
            Type::Bool => Type::Bool,
            Type::Real => Type::Real,
            Type::Domain(domain) => Type::Domain(DomainType { name: domain.name.clone() }),
        }
    }
}

} // verus!
