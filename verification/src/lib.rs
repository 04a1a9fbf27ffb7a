//! A verifier for programs that are graphs of basic blocks of assertions,
//! assumptions and assignments.
//!
//! A program of the high tier is lowered to a program of the low tier, in
//! which every write of a variable has made a new version of it. The low
//! program is encoded as a verification condition: a query that a solver
//! finds unsatisfiable exactly if no run of the program fails. Where the
//! solver finds it satisfiable, the labels that it reports name a failure, and
//! a search asks the solver again until it has named every failure. Each is
//! reported with the path of basic blocks that leads to it and the values of
//! the variables.
//!
//! The library decides what the solver is told and what is made of its
//! answers. It does not run a solver.

pub mod common;
pub mod condition;
pub mod context;
pub mod errors;
pub mod high;
pub mod low;
pub mod lower;
pub mod smt;
pub mod solvers;
pub mod verification_result;
pub mod wp;

pub use crate::condition::verification_condition;
pub use crate::context::{Context, StringContext};
pub use crate::errors::{
    SmtSolverError, SvirptiError, SvirptiErrorKind, SvirptiResult, VerifierError,
};
pub use crate::lower::program::lower_program as lower;
pub use crate::verification_result::{VerificationError, VerificationFailure, VerificationResult};
pub use crate::wp::encode_wp::encode;
