//! The names under which the solver's tier knows its symbols.
use vstd::prelude::*;

pub use crate::smt::ident::IdentSymbol;

verus! {

pub type UninterpretedSortSymbol = IdentSymbol;

pub type UninterpretedSortValue = String;

pub type VariableSymbol = IdentSymbol;

pub type LabelSymbol = IdentSymbol;

pub type FunctionSymbol = IdentSymbol;

} // verus!
