//! The statements of the high tier.

use crate::common::statement::StatementView;
use crate::high::context::LabelSymbol;
use crate::high::expression::{Expression, Variable};
use vstd::prelude::*;

verus! {

/// Take `assertion` for granted from here on.
#[derive(Debug, Clone, PartialEq, Eq)]
pub struct Assume {
    pub assertion: Expression,
    pub label: Option<LabelSymbol>,
}

/// `assertion` has to hold here.
#[derive(Debug, Clone, PartialEq, Eq)]
pub struct Assert {
    pub assertion: Expression,
    pub label: Option<LabelSymbol>,
}

/// Forget what is known of `variable`.
#[derive(Debug, Clone, PartialEq, Eq)]
pub struct Havoc {
    pub variable: Variable,
}

/// Give `variable` the value of `expression`.
#[derive(Debug, Clone, PartialEq, Eq)]
pub struct Assign {
    pub variable: Variable,
    pub expression: Expression,
}

/// A statement of the high tier.
#[derive(Debug, Clone, PartialEq, Eq)]
pub enum Statement {
    Assume(Assume),
    Assert(Assert),
    Havoc(Havoc),
    Assign(Assign),
}

/// The model of an optional label.
pub open spec fn label_view(label: Option<LabelSymbol>) -> Option<Seq<char>> {
    match label {
        Some(l) => Some(l@),
        None => None,
    }
}

impl View for Statement {
    type V = StatementView;

    open spec fn view(&self) -> StatementView {
        match self {
            Statement::Assume(s) => StatementView::Assume {
                assertion: s.assertion@,
                label: label_view(s.label),
            },
            Statement::Assert(s) => StatementView::Assert {
                assertion: s.assertion@,
                label: label_view(s.label),
            },
            Statement::Havoc(s) => StatementView::Havoc { variable: s.variable.name@ },
            Statement::Assign(s) => StatementView::Assign {
                variable: s.variable.name@,
                expression: s.expression@,
            },
        }
    }
}

/// The models of the statements of `statements`, in order.
pub open spec fn statements_of(statements: Seq<Statement>) -> Seq<StatementView> {
    Seq::new(statements.len(), |i: int| statements[i]@)
}

impl Statement {
    /// An assumption without a label.
    pub fn assume_that(assertion: Expression) -> (r: Statement)
        ensures
            r@ == (StatementView::Assume { assertion: assertion@, label: None }),
    {
        Statement::Assume(Assume { assertion, label: None })
    }

    /// An assumption under `label`.
    pub fn assume_with_label(assertion: Expression, label: LabelSymbol) -> (r: Statement)
        ensures
            r@ == (StatementView::Assume { assertion: assertion@, label: Some(label@) }),
    {
        Statement::Assume(Assume { assertion, label: Some(label) })
    }

    /// An assertion without a label.
    pub fn assert_that(assertion: Expression) -> (r: Statement)
        ensures
            r@ == (StatementView::Assert { assertion: assertion@, label: None }),
    {
        Statement::Assert(Assert { assertion, label: None })
    }

    /// An assertion under `label`.
    pub fn assert_with_label(assertion: Expression, label: LabelSymbol) -> (r: Statement)
        ensures
            r@ == (StatementView::Assert { assertion: assertion@, label: Some(label@) }),
    {
        Statement::Assert(Assert { assertion, label: Some(label) })
    }

    /// The statement that forgets the value of `variable`.
    pub fn havoc(variable: Variable) -> (r: Statement)
        ensures
            r@ == (StatementView::Havoc { variable: variable.name@ }),
    {
        Statement::Havoc(Havoc { variable })
    }

    /// The statement that gives `variable` the value of `expression`.
    pub fn assign(variable: Variable, expression: Expression) -> (r: Statement)
        ensures
            r@ == (StatementView::Assign { variable: variable.name@, expression: expression@ }),
    {
        Statement::Assign(Assign { variable, expression })
    }
}

} // verus!
