//! What can go wrong between a program and its list of failures.

use crate::high;
use crate::smt;
use vstd::prelude::*;

verus! {

/// An error of the solver or of the dialogue with it.
#[derive(Debug)]
pub enum SmtSolverError {
    GenericSolverError { source: String },
}

/// An error of the verifier that drives the solver.
#[derive(Debug)]
pub enum VerifierError {
    SmtSolverError(SmtSolverError),
}

/// What an error is about.
#[derive(Debug)]
pub enum SvirptiErrorKind {
    /// The verifier that drives the solver failed.
    Verifier(VerifierError),
    /// An expression reads a variable that the procedure does not declare.
    UnknownVariable(high::VariableSymbol),
    /// The solver reported a label that the program does not have.
    UnknownLabel(smt::LabelSymbol),
    /// The solver reported a failure and no label with it.
    NoFailingLabel,
    /// No path through the program passes the reported labels in order.
    UntraceableFailure(smt::LabelSymbol),
    /// The model gives one variable two values.
    DuplicateModelEntry(smt::VariableSymbol),
}

/// An error of this library.
#[derive(Debug)]
pub struct SvirptiError {
    pub kind: SvirptiErrorKind,
}

pub type SmtSolverResult<T = ()> = Result<T, SmtSolverError>;

pub type VerifierResult<T = ()> = Result<T, VerifierError>;

pub type SvirptiResult<T = ()> = Result<T, SvirptiError>;

impl SmtSolverError {
    /// What the solver or the dialogue with it reported.
    pub fn message(&self) -> (r: String)
        ensures
            r@ == self->source@,
    {
        match self {
            SmtSolverError::GenericSolverError { source } => source.clone(),
        }
    }
}

impl SvirptiError {
    /// The error for a variable that is read and not declared.
    pub fn unknown_variable(name: high::VariableSymbol) -> (r: SvirptiError)
        ensures
            r.kind == SvirptiErrorKind::UnknownVariable(name),
    {
        SvirptiError { kind: SvirptiErrorKind::UnknownVariable(name) }
    }
}

impl From<SmtSolverError> for VerifierError {
    fn from(error: SmtSolverError) -> (r: Self) {
        VerifierError::SmtSolverError(error)
    }
}

impl vstd::std_specs::convert::FromSpecImpl<SmtSolverError> for VerifierError {
    open spec fn obeys_from_spec() -> bool {
        true
    }

    open spec fn from_spec(error: SmtSolverError) -> Self {
        VerifierError::SmtSolverError(error)
    }
}

impl From<VerifierError> for SvirptiError {
    fn from(error: VerifierError) -> (r: Self) {
        SvirptiError { kind: SvirptiErrorKind::Verifier(error) }
    }
}

impl vstd::std_specs::convert::FromSpecImpl<VerifierError> for SvirptiError {
    open spec fn obeys_from_spec() -> bool {
        true
    }

    open spec fn from_spec(error: VerifierError) -> Self {
        SvirptiError { kind: SvirptiErrorKind::Verifier(error) }
    }
}

} // verus!
