//! What is known of a verification condition while the solver works on it.

use crate::common::expression::{Name, SortView};
use crate::context::Context;
use crate::low;
use crate::smt;
use vstd::prelude::*;

verus! {

/// The program that a verification condition was made from, with the sorts
/// of the symbols that the condition declares.
pub struct SmtContext<'a, C: Context> {
    pub context: &'a C,
    pub vir: low::ProgramFragment,
    pub variable_sorts: Vec<(smt::VariableSymbol, smt::Sort)>,
    pub function_sorts: Vec<(smt::FunctionSymbol, smt::Sort)>,
}

/// The sort that the last entry of `entries` for `name` gives, among the
/// first `upto`.
pub open spec fn sort_in(entries: Seq<(smt::IdentSymbol, smt::Sort)>, name: Name, upto: int) -> Option<
    SortView,
>
    decreases upto,
{
    if upto <= 0 {
        None
    } else if upto <= entries.len() && entries[upto - 1].0@ == name {
        Some(entries[upto - 1].1@)
    } else {
        sort_in(entries, name, upto - 1)
    }
}

fn find_sort<'b>(entries: &'b Vec<(smt::IdentSymbol, smt::Sort)>, name: &smt::IdentSymbol) -> (r:
    Option<&'b smt::Sort>)
    ensures
        match r {
            Some(sort) => sort_in(entries@, name@, entries@.len() as int) == Some(sort@),
            None => sort_in(entries@, name@, entries@.len() as int) is None,
        },
{
    let mut i: usize = entries.len();
    while i > 0
        invariant
            i <= entries@.len(),
            sort_in(entries@, name@, entries@.len() as int) == sort_in(entries@, name@, i as int),
        decreases i,
    {
        if entries[i - 1].0 == *name {
            return Some(&entries[i - 1].1);
        }
        i -= 1;
    }
    None
}

impl<'a, C: Context> SmtContext<'a, C> {
    /// The context of the condition that `declarations` belong to, made from
    /// the program `vir`.
    pub fn new(context: &'a C, vir: low::ProgramFragment, declarations: &smt::Declarations) -> (r:
        Self)
        ensures
            r.vir == vir,
            r.context == context,
            r.variable_sorts@.len() == declarations.variables@.len(),
            forall|i: int|
                0 <= i < declarations.variables@.len() ==> (#[trigger] r.variable_sorts@[i]).0@
                    == declarations.variables@[i].name@ && r.variable_sorts@[i].1@
                    == declarations.variables@[i].sort@,
            r.function_sorts@.len() == declarations.functions@.len(),
            forall|i: int|
                0 <= i < declarations.functions@.len() ==> (#[trigger] r.function_sorts@[i]).0@
                    == declarations.functions@[i].name@ && r.function_sorts@[i].1@
                    == declarations.functions@[i].return_sort@,
    {
        let mut variable_sorts: Vec<(smt::VariableSymbol, smt::Sort)> = Vec::new();
        let mut i: usize = 0;
        while i < declarations.variables.len()
            invariant
                i <= declarations.variables@.len(),
                variable_sorts@.len() == i,
                forall|k: int|
                    0 <= k < i ==> (#[trigger] variable_sorts@[k]).0@
                        == declarations.variables@[k].name@ && variable_sorts@[k].1@
                        == declarations.variables@[k].sort@,
            decreases declarations.variables@.len() - i,
        {
            let variable = &declarations.variables[i];
            variable_sorts.push((variable.name.clone(), variable.sort.duplicate()));
            i += 1;
        }
        let mut function_sorts: Vec<(smt::FunctionSymbol, smt::Sort)> = Vec::new();
        let mut j: usize = 0;
        while j < declarations.functions.len()
            invariant
                j <= declarations.functions@.len(),
                function_sorts@.len() == j,
                forall|k: int|
                    0 <= k < j ==> (#[trigger] function_sorts@[k]).0@
                        == declarations.functions@[k].name@ && function_sorts@[k].1@
                        == declarations.functions@[k].return_sort@,
            decreases declarations.functions@.len() - j,
        {
            let function = &declarations.functions[j];
            function_sorts.push((function.name.clone(), function.return_sort.duplicate()));
            j += 1;
        }
        SmtContext { context, vir, variable_sorts, function_sorts }
    }

    /// The sort of the variable `variable`, if the condition declares it.
    pub fn get_variable_sort<'b>(&'b self, variable: &smt::VariableSymbol) -> (r: Option<
        &'b smt::Sort,
    >)
        ensures
            match r {
                Some(sort) => sort_in(
                    self.variable_sorts@,
                    variable@,
                    self.variable_sorts@.len() as int,
                ) == Some(sort@),
                None => sort_in(self.variable_sorts@, variable@, self.variable_sorts@.len() as int)
                    is None,
            },
    {
        find_sort(&self.variable_sorts, variable)
    }

    /// The sort of the results of the function `function`, if the condition
    /// declares it.
    pub fn get_function_sort<'b>(&'b self, function: &smt::FunctionSymbol) -> (r: Option<
        &'b smt::Sort,
    >)
        ensures
            match r {
                Some(sort) => sort_in(
                    self.function_sorts@,
                    function@,
                    self.function_sorts@.len() as int,
                ) == Some(sort@),
                None => sort_in(self.function_sorts@, function@, self.function_sorts@.len() as int)
                    is None,
            },
    {
        find_sort(&self.function_sorts, function)
    }

    /// The symbol that the solver writes as `ident`.
    pub fn resolve_ident(&self, ident: &str) -> (r: smt::IdentSymbol)
        ensures
            r@ == ident@,
    {
        smt::IdentSymbol::new(ident)
    }
}

} // verus!
