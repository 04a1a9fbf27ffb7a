//! The programs of the low tier: basic blocks of assertions and assumptions
//! over versioned variables.

use crate::common::cfg::{BasicBlockWithSuccessors, Cfg};
use crate::common::statement::{StatementView, VariableDeclView};
use crate::low::declaration::{
    declarations_of, AxiomDeclaration, FunctionDeclaration, UninterpretedSortDeclaration,
    VariableDeclaration,
};
use crate::low::statement::{statements_of, Statement};
use vstd::prelude::*;

pub use crate::common::cfg::BasicBlockId;

verus! {

/// A basic block of the low tier.
#[derive(Debug, Clone, PartialEq, Eq)]
pub struct BasicBlock {
    pub statements: Vec<Statement>,
    pub successors: Vec<BasicBlockId>,
}

/// A program of the low tier. Its blocks stand at the positions that they
/// have in the program that it was made from.
#[derive(Debug, Clone, PartialEq, Eq)]
pub struct ProgramFragment {
    pub uninterpreted_sorts: Vec<UninterpretedSortDeclaration>,
    pub variables: Vec<VariableDeclaration>,
    pub functions: Vec<FunctionDeclaration>,
    pub axioms: Vec<AxiomDeclaration>,
    pub basic_blocks: Vec<BasicBlock>,
}

/// The model of a basic block of the low tier.
pub struct BlockView {
    pub statements: Seq<StatementView>,
    pub successors: Seq<usize>,
}

/// The model of a program of the low tier: its variables and its blocks.
pub struct ProgramView {
    pub variables: Seq<VariableDeclView>,
    pub blocks: Seq<BlockView>,
}

impl View for BasicBlock {
    type V = BlockView;

    open spec fn view(&self) -> BlockView {
        BlockView { statements: statements_of(self.statements@), successors: self.successors@ }
    }
}

/// The models of the blocks of `blocks`, in order.
pub open spec fn blocks_of(blocks: Seq<BasicBlock>) -> Seq<BlockView> {
    Seq::new(blocks.len(), |i: int| blocks[i]@)
}

impl View for ProgramFragment {
    type V = ProgramView;

    open spec fn view(&self) -> ProgramView {
        ProgramView {
            variables: declarations_of(self.variables@),
            blocks: blocks_of(self.basic_blocks@),
        }
    }
}

impl ProgramView {
    /// The successor lists of the blocks.
    pub open spec fn graph(self) -> Seq<Seq<usize>> {
        Seq::new(self.blocks.len(), |i: int| self.blocks[i].successors)
    }
}

impl BasicBlockWithSuccessors for BasicBlock {
    open spec fn successors_view(&self) -> Seq<usize> {
        self.successors@
    }

    fn successors(&self) -> (r: &[BasicBlockId]) {
        self.successors.as_slice()
    }
}

impl Cfg for ProgramFragment {
    type BasicBlock = BasicBlock;

    open spec fn blocks_view(&self) -> Seq<BasicBlock> {
        self.basic_blocks@
    }

    fn basic_blocks(&self) -> (r: &Vec<BasicBlock>) {
        &self.basic_blocks
    }
}

} // verus!
