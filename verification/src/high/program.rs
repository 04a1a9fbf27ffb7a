//! The programs of the high tier: one procedure over mutable variables.

use crate::common::cfg::{BasicBlockWithSuccessors, Cfg};
use crate::common::expression::{Name, Term};
use crate::common::statement::{StatementView, VariableDeclView};
use crate::high::context::LabelSymbol;
use crate::high::declaration::{
    declarations_of, AxiomDeclaration, FunctionDeclaration, UninterpretedSortDeclaration,
    VariableDeclaration,
};
use crate::high::expression::Expression;
use crate::high::statement::{statements_of, Statement};
use vstd::prelude::*;

pub use crate::common::cfg::BasicBlockId;

verus! {

/// The position of a variable among the locals of its procedure.
pub type VariableId = usize;

/// A basic block with a guard: control enters it only where the guard
/// holds.
#[derive(Debug, Clone, PartialEq, Eq)]
pub struct BasicBlock {
    pub label: LabelSymbol,
    pub guard: Expression,
    pub statements: Vec<Statement>,
    pub successors: Vec<BasicBlockId>,
}

/// The locals and the basic blocks of a procedure.
#[derive(Debug, Clone, PartialEq, Eq)]
pub struct ProcedureDeclaration {
    pub variables: Vec<VariableDeclaration>,
    pub basic_blocks: Vec<BasicBlock>,
}

/// A program: what it declares, and its one procedure.
#[derive(Debug, Clone, PartialEq, Eq)]
pub struct ProgramFragment {
    pub sorts: Vec<UninterpretedSortDeclaration>,
    pub axioms: Vec<AxiomDeclaration>,
    pub functions: Vec<FunctionDeclaration>,
    pub procedure: ProcedureDeclaration,
}

/// The model of a basic block of the high tier.
pub struct BlockView {
    pub label: Name,
    pub guard: Term,
    pub statements: Seq<StatementView>,
    pub successors: Seq<usize>,
}

/// The model of a procedure.
pub struct ProcedureView {
    pub variables: Seq<VariableDeclView>,
    pub blocks: Seq<BlockView>,
}

impl View for BasicBlock {
    type V = BlockView;

    open spec fn view(&self) -> BlockView {
        BlockView {
            label: self.label@,
            guard: self.guard@,
            statements: statements_of(self.statements@),
            successors: self.successors@,
        }
    }
}

/// The models of the blocks of `blocks`, in order.
pub open spec fn blocks_of(blocks: Seq<BasicBlock>) -> Seq<BlockView> {
    Seq::new(blocks.len(), |i: int| blocks[i]@)
}

impl View for ProcedureDeclaration {
    type V = ProcedureView;

    open spec fn view(&self) -> ProcedureView {
        ProcedureView {
            variables: declarations_of(self.variables@),
            blocks: blocks_of(self.basic_blocks@),
        }
    }
}

impl ProcedureView {
    /// The successor lists of the blocks.
    pub open spec fn graph(self) -> Seq<Seq<usize>> {
        Seq::new(self.blocks.len(), |i: int| self.blocks[i].successors)
    }
}

impl BasicBlockWithSuccessors for BasicBlock {
    open spec fn successors_view(&self) -> Seq<usize> {
        self.successors@
    }

    fn successors(&self) -> (r: &[BasicBlockId]) {
        self.successors.as_slice()
    }
}

impl Cfg for ProcedureDeclaration {
    type BasicBlock = BasicBlock;

    open spec fn blocks_view(&self) -> Seq<BasicBlock> {
        self.basic_blocks@
    }

    fn basic_blocks(&self) -> (r: &Vec<BasicBlock>) {
        &self.basic_blocks
    }
}

} // verus!
