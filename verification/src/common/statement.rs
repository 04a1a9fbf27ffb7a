//! The mathematical model of statements and declarations, shared by the
//! tiers.

use crate::common::expression::{Name, SortView, Term};
use vstd::prelude::*;

verus! {

/// The model of a statement. The low tier has only the first two forms.
pub enum StatementView {
    Assume { assertion: Term, label: Option<Name> },
    Assert { assertion: Term, label: Option<Name> },
    Havoc { variable: Name },
    Assign { variable: Name, expression: Term },
}

/// The model of the declaration of a variable.
pub struct VariableDeclView {
    pub name: Name,
    pub sort: SortView,
}

impl StatementView {
    /// The label of the statement, if it has one.
    pub open spec fn label(self) -> Option<Name> {
        match self {
            StatementView::Assume { label, .. } => label,
            StatementView::Assert { label, .. } => label,
            _ => None,
        }
    }

    /// Whether the statement gives a variable a new value.
    pub open spec fn is_write(self) -> bool {
        self is Havoc || self is Assign
    }
}

} // verus!
