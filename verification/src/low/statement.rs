//! The statements of the low tier: assertions and assumptions only.

use crate::common::statement::StatementView;
use crate::low::context::LabelSymbol;
use crate::low::expression::Expression;
use vstd::prelude::*;

verus! {

/// `assertion` has to hold here.
#[derive(Debug, Clone, PartialEq, Eq)]
pub struct Assert {
    pub assertion: Expression,
    pub label: Option<LabelSymbol>,
}

/// Take `assertion` for granted from here on.
#[derive(Debug, Clone, PartialEq, Eq)]
pub struct Assume {
    pub assertion: Expression,
    pub label: Option<LabelSymbol>,
}

/// A statement of the low tier.
#[derive(Debug, Clone, PartialEq, Eq)]
pub enum Statement {
    Assert(Assert),
    Assume(Assume),
}

/// The model of an optional label.
pub open spec fn label_view(label: Option<LabelSymbol>) -> Option<Seq<char>> {
    match label {
        Some(l) => Some(l@),
        None => None,
    }
}

impl View for Statement {
    type V = StatementView;

    open spec fn view(&self) -> StatementView {
        match self {
            Statement::Assert(s) => StatementView::Assert {
                assertion: s.assertion@,
                label: label_view(s.label),
            },
            Statement::Assume(s) => StatementView::Assume {
                assertion: s.assertion@,
                label: label_view(s.label),
            },
        }
    }
}

/// The models of the statements of `statements`, in order.
pub open spec fn statements_of(statements: Seq<Statement>) -> Seq<StatementView> {
    Seq::new(statements.len(), |i: int| statements[i]@)
}

impl Statement {
    /// The label of the statement, if it has one.
    pub fn get_label(&self) -> (r: Option<&LabelSymbol>)
        ensures
            r is Some <==> self@.label() is Some,
            r is Some ==> r->0@ == self@.label()->0,
    {
        match self {
            Statement::Assert(Assert { label, .. }) => label.as_ref(),
            Statement::Assume(Assume { label, .. }) => label.as_ref(),
        }
    }

    /// An assumption without a label.
    pub fn assume_that(assertion: Expression) -> (r: Statement)
        ensures
            r@ == (StatementView::Assume { assertion: assertion@, label: None }),
    {
        Statement::Assume(Assume { assertion, label: None })
    }

    /// An assumption under `label`.
    pub fn assume_with_label(assertion: Expression, label: LabelSymbol) -> (r: Statement)
        ensures
            r@ == (StatementView::Assume { assertion: assertion@, label: Some(label@) }),
    {
        Statement::Assume(Assume { assertion, label: Some(label) })
    }

    /// An assertion without a label.
    pub fn assert_that(assertion: Expression) -> (r: Statement)
        ensures
            r@ == (StatementView::Assert { assertion: assertion@, label: None }),
    {
        Statement::Assert(Assert { assertion, label: None })
    }

    /// An assertion under `label`.
    pub fn assert_with_label(assertion: Expression, label: LabelSymbol) -> (r: Statement)
        ensures
            r@ == (StatementView::Assert { assertion: assertion@, label: Some(label@) }),
    {
        Statement::Assert(Assert { assertion, label: Some(label) })
    }
}

} // verus!
