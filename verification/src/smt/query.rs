//! What is handed to the solver: declarations, then assertions.

use crate::common::expression::{Name, Term};
use crate::common::statement::VariableDeclView;
use crate::smt::declaration::{declarations_of, label_names_of, Declarations};
use crate::smt::expression::{terms_of, Expression};
use vstd::prelude::*;

verus! {

pub type Assertions = Vec<Expression>;

/// A query: the solver is to say whether the assertions can hold together.
#[derive(Debug, Clone, PartialEq, Eq)]
pub struct Query {
    pub declarations: Declarations,
    pub assertions: Assertions,
}

/// The model of a query. A query that encodes a program declares no sort and
/// no function.
pub struct QueryView {
    pub variables: Seq<VariableDeclView>,
    pub labels: Seq<Name>,
    pub assertions: Seq<Term>,
}

impl View for Query {
    type V = QueryView;

    open spec fn view(&self) -> QueryView {
        QueryView {
            variables: declarations_of(self.declarations.variables@),
            labels: label_names_of(self.declarations.labels@),
            assertions: terms_of(self.assertions@),
        }
    }
}

} // verus!
