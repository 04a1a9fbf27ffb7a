//! What is said to the solver, and what it answers.
//!
//! The solver is a process of its own. This module decides what it is told
//! and in which order; telling it is left to the caller.

use crate::common::expression::{Name, SortView, Term};
use crate::common::statement::VariableDeclView;
use crate::smt;
use crate::smt::declaration::declarations_of;
use vstd::prelude::*;

verus! {

/// The answer of the solver with the model that it found.
pub enum SatisfiabilityResult<Model> {
    Unsat,
    Unknown(Model),
    Sat(Model),
}

/// The answer of the solver to a check.
#[derive(Debug, Clone, Copy, PartialEq, Eq, Structural)]
pub enum SatResult {
    Unsat,
    Unknown,
    Sat,
}

/// One thing that is said to the solver.
#[derive(Debug)]
pub enum SolverCommand {
    DeclareSort(smt::UninterpretedSortDeclaration),
    DeclareFunction(smt::FunctionDeclaration),
    DeclareLabel(smt::LabelDeclaration),
    DeclareVariable(smt::VariableDeclaration),
    Push,
    Pop,
    Assert(smt::Expression),
    CheckSat,
}

/// The model of a command.
pub enum CommandView {
    DeclareSort(Name),
    DeclareFunction(Name, Seq<VariableDeclView>, SortView),
    DeclareLabel(Name),
    DeclareVariable(VariableDeclView),
    Push,
    Pop,
    Assert(Term),
    CheckSat,
}

impl View for SolverCommand {
    type V = CommandView;

    open spec fn view(&self) -> CommandView {
        match self {
            SolverCommand::DeclareSort(sort) => CommandView::DeclareSort(sort.name@),
            SolverCommand::DeclareFunction(function) => CommandView::DeclareFunction(
                function.name@,
                declarations_of(function.parameters@),
                function.return_sort@,
            ),
            SolverCommand::DeclareLabel(label) => CommandView::DeclareLabel(label.name@),
            SolverCommand::DeclareVariable(variable) => CommandView::DeclareVariable(variable@),
            SolverCommand::Push => CommandView::Push,
            SolverCommand::Pop => CommandView::Pop,
            SolverCommand::Assert(assertion) => CommandView::Assert(assertion@),
            SolverCommand::CheckSat => CommandView::CheckSat,
        }
    }
}

/// The models of the commands of `commands`, in order.
pub open spec fn commands_of(commands: Seq<SolverCommand>) -> Seq<CommandView> {
    Seq::new(commands.len(), |i: int| commands[i]@)
}

/// The declarations of the sorts of `sorts`.
pub open spec fn sort_commands(sorts: Seq<smt::UninterpretedSortDeclaration>) -> Seq<CommandView> {
    Seq::new(sorts.len(), |i: int| CommandView::DeclareSort(sorts[i].name@))
}

/// The declarations of the functions of `functions`.
pub open spec fn function_commands(functions: Seq<smt::FunctionDeclaration>) -> Seq<CommandView> {
    Seq::new(
        functions.len(),
        |i: int|
            CommandView::DeclareFunction(
                functions[i].name@,
                declarations_of(functions[i].parameters@),
                functions[i].return_sort@,
            ),
    )
}

/// The declarations of the labels of `labels`.
pub open spec fn label_commands(labels: Seq<smt::LabelDeclaration>) -> Seq<CommandView> {
    Seq::new(labels.len(), |i: int| CommandView::DeclareLabel(labels[i].name@))
}

/// The declarations of the variables of `variables`.
pub open spec fn variable_commands(variables: Seq<smt::VariableDeclaration>) -> Seq<CommandView> {
    Seq::new(variables.len(), |i: int| CommandView::DeclareVariable(variables[i]@))
}

/// The assertions of `assertions`.
pub open spec fn assert_commands(assertions: Seq<smt::Expression>) -> Seq<CommandView> {
    Seq::new(assertions.len(), |i: int| CommandView::Assert(assertions[i]@))
}

/// What the solver is told to check a verification condition: the sorts,
/// the functions, the labels and the variables are declared, a scope is
/// opened, the assertions are made, and the solver is asked.
pub open spec fn verification_commands(
    declarations: smt::Declarations,
    assertions: Seq<smt::Expression>,
) -> Seq<CommandView> {
    sort_commands(declarations.sorts@) + function_commands(declarations.functions@)
        + label_commands(declarations.labels@) + variable_commands(declarations.variables@)
        + seq![CommandView::Push] + assert_commands(assertions) + seq![CommandView::CheckSat]
}

/// What the solver is told to check the condition again with more
/// assumptions: a scope is opened, the assumptions are made, and the solver
/// is asked. The scope is closed after the answer was read.
pub open spec fn check_commands(assumptions: Seq<smt::Expression>) -> Seq<CommandView> {
    seq![CommandView::Push] + assert_commands(assumptions) + seq![CommandView::CheckSat]
}

fn push_assertions(commands: &mut Vec<SolverCommand>, assertions: &Vec<smt::Expression>)
    ensures
        commands_of(final(commands)@) == commands_of(old(commands)@) + assert_commands(
            assertions@,
        ),
{
    let ghost first = commands_of(commands@);
    let mut i: usize = 0;
    while i < assertions.len()
        invariant
            i <= assertions@.len(),
            commands_of(commands@) == first + assert_commands(assertions@).take(i as int),
        decreases assertions@.len() - i,
    {
        let ghost before = commands_of(commands@);
        let command = SolverCommand::Assert(assertions[i].duplicate());
        commands.push(command);
        assert(commands_of(commands@) =~= before.push(command@));
        i += 1;
    }
}

/// What the solver is told to check the verification condition of
/// `declarations` and `assertions`.
pub fn verification_script(declarations: &smt::Declarations, assertions: &Vec<smt::Expression>) -> (r:
    Vec<SolverCommand>)
    ensures
        commands_of(r@) == verification_commands(*declarations, assertions@),
{
    let mut commands: Vec<SolverCommand> = Vec::new();
    let ghost sorts = sort_commands(declarations.sorts@);
    let ghost functions = function_commands(declarations.functions@);
    let ghost labels = label_commands(declarations.labels@);
    let ghost variables = variable_commands(declarations.variables@);
    let mut i: usize = 0;
    while i < declarations.sorts.len()
        invariant
            i <= declarations.sorts@.len(),
            sorts == sort_commands(declarations.sorts@),
            commands_of(commands@) == sorts.take(i as int),
        decreases declarations.sorts@.len() - i,
    {
        let ghost before = commands_of(commands@);
        let command = SolverCommand::DeclareSort(declarations.sorts[i].duplicate());
        commands.push(command);
        assert(commands_of(commands@) =~= before.push(command@));
        i += 1;
    }
    let mut i: usize = 0;
    while i < declarations.functions.len()
        invariant
            i <= declarations.functions@.len(),
            functions == function_commands(declarations.functions@),
            commands_of(commands@) == sorts + functions.take(i as int),
        decreases declarations.functions@.len() - i,
    {
        let ghost before = commands_of(commands@);
        let command = SolverCommand::DeclareFunction(declarations.functions[i].duplicate());
        commands.push(command);
        assert(commands_of(commands@) =~= before.push(command@));
        i += 1;
    }
    let mut i: usize = 0;
    while i < declarations.labels.len()
        invariant
            i <= declarations.labels@.len(),
            labels == label_commands(declarations.labels@),
            commands_of(commands@) == sorts + functions + labels.take(i as int),
        decreases declarations.labels@.len() - i,
    {
        let ghost before = commands_of(commands@);
        let command = SolverCommand::DeclareLabel(declarations.labels[i].duplicate());
        commands.push(command);
        assert(commands_of(commands@) =~= before.push(command@));
        i += 1;
    }
    let mut i: usize = 0;
    while i < declarations.variables.len()
        invariant
            i <= declarations.variables@.len(),
            variables == variable_commands(declarations.variables@),
            commands_of(commands@) == sorts + functions + labels + variables.take(i as int),
        decreases declarations.variables@.len() - i,
    {
        let ghost before = commands_of(commands@);
        let command = SolverCommand::DeclareVariable(declarations.variables[i].duplicate());
        commands.push(command);
        assert(commands_of(commands@) =~= before.push(command@));
        i += 1;
    }
    assert(variables.take(i as int) =~= variables);
    let ghost declared = commands_of(commands@);
    commands.push(SolverCommand::Push);
    assert(commands_of(commands@) =~= declared + seq![CommandView::Push]);
    push_assertions(&mut commands, assertions);
    commands.push(SolverCommand::CheckSat);
    commands
}

/// What the solver is told to check the condition again under
/// `assumptions`.
pub fn check_script(assumptions: &Vec<smt::Expression>) -> (r: Vec<SolverCommand>)
    ensures
        commands_of(r@) == check_commands(assumptions@),
{
    let mut commands: Vec<SolverCommand> = Vec::new();
    commands.push(SolverCommand::Push);
    assert(commands_of(commands@) =~= seq![CommandView::Push]);
    push_assertions(&mut commands, assumptions);
    commands.push(SolverCommand::CheckSat);
    commands
}

impl SatResult {
    /// Whether the answer shows that the program verifies. An answer that
    /// the solver is not sure of counts as a failure.
    pub fn is_success(&self) -> (r: bool)
        ensures
            r == (*self == SatResult::Unsat),
    {
        match self {
            SatResult::Unsat => true,
            _ => false,
        }
    }
}

} // verus!
