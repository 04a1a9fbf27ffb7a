//! Procedures as they are written: the blocks name their successors by
//! label, and the entry and the exit are not written.
//!
//! A written procedure becomes a procedure of the high tier when its labels
//! are resolved. The written blocks stand after the entry, in their order, and
//! before the exit. The entry goes on to the first of them. The label `exit`
//! names the exit; every other label names the block that has it.

use crate::common::expression::{Name, Term};
use crate::common::statement::StatementView;
use crate::high::context::LabelSymbol;
use crate::high::declaration::{
    declarations_of, AxiomDeclaration, FunctionDeclaration, UninterpretedSortDeclaration,
    VariableDeclaration,
};
use crate::high::expression::{Constant, Expression};
use crate::high::program::{BlockView, ProcedureView};
use crate::high::statement::{statements_of, Statement};
use vstd::prelude::*;
use vstd::string::StringExecFns;

verus! {

/// A basic block as it is written.
#[derive(Debug, PartialEq, Eq)]
pub struct BasicBlock {
    pub label: LabelSymbol,
    pub guard: Expression,
    pub statements: Vec<Statement>,
    pub successor_labels: Vec<LabelSymbol>,
}

/// A procedure as it is written.
#[derive(Debug, PartialEq, Eq)]
pub struct ProcedureDeclaration {
    pub variables: Vec<VariableDeclaration>,
    pub basic_blocks: Vec<BasicBlock>,
}

/// A program as it is written.
#[derive(Debug, PartialEq, Eq)]
pub struct ProgramFragment {
    pub sorts: Vec<UninterpretedSortDeclaration>,
    pub axioms: Vec<AxiomDeclaration>,
    pub functions: Vec<FunctionDeclaration>,
    pub procedure: ProcedureDeclaration,
}

/// Why the labels of a procedure cannot be resolved.
#[derive(Debug, PartialEq, Eq)]
pub enum ParseError {
    /// Two blocks have this label.
    DuplicateLabel(LabelSymbol),
    /// A block names this label as a successor, and no block has it.
    NoBlockWithLabel(LabelSymbol),
}

/// The names of `labels`, in order.
pub open spec fn names_of(labels: Seq<LabelSymbol>) -> Seq<Name> {
    Seq::new(labels.len(), |i: int| labels[i]@)
}

/// The labels of `blocks`, in order.
pub open spec fn labels_of(blocks: Seq<BasicBlock>) -> Seq<Name> {
    Seq::new(blocks.len(), |i: int| blocks[i].label@)
}

/// The position of the first of `labels` that stands before itself, among
/// the first `upto`.
pub open spec fn first_duplicate(labels: Seq<Name>, upto: int) -> Option<int>
    decreases upto,
{
    if upto <= 0 {
        None
    } else {
        match first_duplicate(labels, upto - 1) {
            Some(position) => Some(position),
            None => if labels.take(upto - 1).contains(labels[upto - 1]) {
                Some(upto - 1)
            } else {
                None
            },
        }
    }
}

/// The first position at or after `i` at which `labels` holds `label`; the
/// length of `labels` where there is none.
pub open spec fn position_from(labels: Seq<Name>, label: Name, i: int) -> int
    decreases labels.len() - i,
{
    if i >= labels.len() {
        labels.len() as int
    } else if i >= 0 && labels[i] == label {
        i
    } else {
        position_from(labels, label, i + 1)
    }
}

/// The block that `label` names among the blocks with the labels `labels`.
/// The written blocks come after the entry, and the exit after them.
pub open spec fn target_of(labels: Seq<Name>, label: Name) -> Option<int> {
    if label == "exit"@ {
        Some(labels.len() as int + 1)
    } else if position_from(labels, label, 0) < labels.len() {
        Some(position_from(labels, label, 0) + 1)
    } else {
        None
    }
}

/// The blocks that the first `k` of `wanted` name; nothing where one of them
/// names none.
pub open spec fn targets_of(labels: Seq<Name>, wanted: Seq<Name>, k: int) -> Option<Seq<usize>>
    decreases k,
{
    if k <= 0 {
        Some(Seq::empty())
    } else {
        match (targets_of(labels, wanted, k - 1), target_of(labels, wanted[k - 1])) {
            (Some(rest), Some(target)) => Some(rest.push(target as usize)),
            _ => None,
        }
    }
}

/// The first of the first `k` of `wanted` that names no block.
pub open spec fn first_unresolved(labels: Seq<Name>, wanted: Seq<Name>, k: int) -> Option<Name>
    decreases k,
{
    if k <= 0 {
        None
    } else {
        match first_unresolved(labels, wanted, k - 1) {
            Some(label) => Some(label),
            None => if target_of(labels, wanted[k - 1]) is None {
                Some(wanted[k - 1])
            } else {
                None
            },
        }
    }
}

/// The block that is written as `block`, where its successors resolve.
pub open spec fn resolved_block(labels: Seq<Name>, block: BasicBlock) -> Option<BlockView> {
    match targets_of(
        labels,
        names_of(block.successor_labels@),
        block.successor_labels@.len() as int,
    ) {
        Some(successors) => Some(
            BlockView {
                label: block.label@,
                guard: block.guard@,
                statements: statements_of(block.statements@),
                successors,
            },
        ),
        None => None,
    }
}

/// The first `k` of `blocks` resolved; nothing where a successor of one of
/// them names no block.
pub open spec fn resolved_blocks(labels: Seq<Name>, blocks: Seq<BasicBlock>, k: int) -> Option<
    Seq<BlockView>,
>
    decreases k,
{
    if k <= 0 {
        Some(Seq::empty())
    } else {
        match (resolved_blocks(labels, blocks, k - 1), resolved_block(labels, blocks[k - 1])) {
            (Some(rest), Some(block)) => Some(rest.push(block)),
            _ => None,
        }
    }
}

/// The first label that a successor list of the first `k` of `blocks` holds
/// and that names no block.
pub open spec fn first_missing(labels: Seq<Name>, blocks: Seq<BasicBlock>, k: int) -> Option<Name>
    decreases k,
{
    if k <= 0 {
        None
    } else {
        match first_missing(labels, blocks, k - 1) {
            Some(label) => Some(label),
            None => first_unresolved(
                labels,
                names_of(blocks[k - 1].successor_labels@),
                blocks[k - 1].successor_labels@.len() as int,
            ),
        }
    }
}

/// The entry of every procedure: it goes on to the block after it.
pub open spec fn entry_view() -> BlockView {
    BlockView {
        label: "entry"@,
        guard: Term::truth(),
        statements: Seq::empty(),
        successors: seq![1usize],
    }
}

/// The exit of every procedure.
pub open spec fn exit_view() -> BlockView {
    BlockView {
        label: "exit"@,
        guard: Term::truth(),
        statements: Seq::empty(),
        successors: Seq::empty(),
    }
}

/// What resolving the labels of a procedure gives.
pub open spec fn resolves_to(
    procedure: ProcedureDeclaration,
    r: Result<crate::high::program::ProcedureDeclaration, ParseError>,
) -> bool {
    let blocks = procedure.basic_blocks@;
    let labels = labels_of(blocks);
    let count = blocks.len() as int;
    match r {
        Ok(resolved) => {
            &&& first_duplicate(labels, count) is None
            &&& resolved_blocks(labels, blocks, count) is Some
            &&& resolved@ == (ProcedureView {
                variables: declarations_of(procedure.variables@),
                blocks: seq![entry_view()] + resolved_blocks(labels, blocks, count)->0 + seq![
                    exit_view(),
                ],
            })
        },
        Err(ParseError::DuplicateLabel(label)) => first_duplicate(labels, count) matches Some(
            position,
        ) && label@ == labels[position],
        Err(ParseError::NoBlockWithLabel(label)) => first_duplicate(labels, count) is None
            && first_missing(labels, blocks, count) == Some(label@),
    }
}

pub proof fn lemma_position_from(labels: Seq<Name>, label: Name, i: int)
    requires
        0 <= i <= labels.len(),
    ensures
        i <= position_from(labels, label, i) <= labels.len(),
        position_from(labels, label, i) < labels.len() ==> labels[position_from(labels, label, i)]
            == label,
        forall|j: int| i <= j < position_from(labels, label, i) ==> labels[j] != label,
    decreases labels.len() - i,
{
    if i < labels.len() && labels[i] != label {
        lemma_position_from(labels, label, i + 1);
    }
}

/// Where a successor names no block, the blocks do not resolve.
pub proof fn lemma_unresolved(labels: Seq<Name>, wanted: Seq<Name>, k: int)
    requires
        0 <= k,
    ensures
        targets_of(labels, wanted, k) is Some <==> first_unresolved(labels, wanted, k) is None,
    decreases k,
{
    if k > 0 {
        lemma_unresolved(labels, wanted, k - 1);
    }
}

/// Where a block does not resolve, the blocks do not.
pub proof fn lemma_missing(labels: Seq<Name>, blocks: Seq<BasicBlock>, k: int)
    requires
        0 <= k,
    ensures
        resolved_blocks(labels, blocks, k) is Some <==> first_missing(labels, blocks, k) is None,
    decreases k,
{
    if k > 0 {
        lemma_missing(labels, blocks, k - 1);
        lemma_unresolved(
            labels,
            names_of(blocks[k - 1].successor_labels@),
            blocks[k - 1].successor_labels@.len() as int,
        );
    }
}

pub proof fn lemma_missing_stays(labels: Seq<Name>, blocks: Seq<BasicBlock>, k: int, later: int)
    requires
        0 <= k <= later,
        first_missing(labels, blocks, k) is Some,
    ensures
        first_missing(labels, blocks, later) == first_missing(labels, blocks, k),
    decreases later - k,
{
    if k < later {
        lemma_missing_stays(labels, blocks, k, later - 1);
    }
}

pub proof fn lemma_duplicate_stays(labels: Seq<Name>, k: int, later: int)
    requires
        0 <= k <= later,
        first_duplicate(labels, k) is Some,
    ensures
        first_duplicate(labels, later) == first_duplicate(labels, k),
    decreases later - k,
{
    if k < later {
        lemma_duplicate_stays(labels, k, later - 1);
    }
}

/// The block that `label` names among the blocks with the labels `labels`.
fn find_target(labels: &Vec<LabelSymbol>, label: &LabelSymbol) -> (r: Option<usize>)
    requires
        labels@.len() < usize::MAX,
    ensures
        match r {
            Some(target) => target_of(names_of(labels@), label@) == Some(target as int),
            None => target_of(names_of(labels@), label@) is None,
        },
{
    let ghost names = names_of(labels@);
    if label.0 == String::from_str("exit") {
        return Some(labels.len() + 1);
    }
    proof {
        lemma_position_from(names, label@, 0);
    }
    let mut i: usize = 0;
    while i < labels.len()
        invariant
            i <= labels@.len(),
            labels@.len() < usize::MAX,
            names == names_of(labels@),
            label@ != "exit"@,
            forall|j: int| 0 <= j < i ==> names[j] != label@,
            0 <= position_from(names, label@, 0) <= names.len(),
            position_from(names, label@, 0) < names.len() ==> names[position_from(
                names,
                label@,
                0,
            )] == label@,
            forall|j: int| 0 <= j < position_from(names, label@, 0) ==> names[j] != label@,
        decreases labels@.len() - i,
    {
        if labels[i] == *label {
            assert(names[i as int] == label@);
            assert(position_from(names, label@, 0) == i);
            return Some(i + 1);
        }
        i += 1;
    }
    assert(position_from(names, label@, 0) == names.len());
    None
}

impl ProcedureDeclaration {
    /// The procedure with its labels resolved, between its entry and its
    /// exit; or the first label that two blocks have; or, where there is
    /// none, the first label that names no block.
    pub fn resolve(self) -> (r: Result<crate::high::program::ProcedureDeclaration, ParseError>)
        requires
            self.basic_blocks@.len() + 2 <= usize::MAX,
        ensures
            resolves_to(self, r),
    {
        let ghost blocks = self.basic_blocks@;
        let ghost names = labels_of(blocks);
        let count = self.basic_blocks.len();
        let mut labels: Vec<LabelSymbol> = Vec::new();
        let mut k: usize = 0;
        while k < count
            invariant
                k <= count,
                count == self.basic_blocks@.len(),
                blocks == self.basic_blocks@,
                names == labels_of(blocks),
                labels@.len() == k,
                names_of(labels@) == names.take(k as int),
                first_duplicate(names, k as int) is None,
            decreases count - k,
        {
            let label = &self.basic_blocks[k].label;
            let mut i: usize = 0;
            while i < k
                invariant
                    i <= k,
                    k < count,
                    count == names.len(),
                    blocks == self.basic_blocks@,
                    names == labels_of(blocks),
                    labels@.len() == k,
                    names_of(labels@) == names.take(k as int),
                    names[k as int] == label@,
                    first_duplicate(names, k as int) is None,
                    forall|j: int| 0 <= j < i ==> names.take(k as int)[j] != label@,
                decreases k - i,
            {
                if labels[i] == *label {
                    proof {
                        assert(names_of(labels@)[i as int] == label@);
                        lemma_duplicate_stays(names, k + 1, count as int);
                    }
                    return Err(ParseError::DuplicateLabel(label.clone()));
                }
                i += 1;
            }
            labels.push(label.clone());
            k += 1;
        }
        let mut successors: Vec<Vec<usize>> = Vec::new();
        let mut b: usize = 0;
        while b < count
            invariant
                b <= count,
                count == self.basic_blocks@.len(),
                count + 2 <= usize::MAX,
                blocks == self.basic_blocks@,
                names == labels_of(blocks),
                names_of(labels@) == names,
                labels@.len() == count,
                first_duplicate(names, count as int) is None,
                first_missing(names, blocks, b as int) is None,
                successors@.len() == b,
                forall|i: int|
                    0 <= i < b ==> targets_of(
                        names,
                        names_of(blocks[i].successor_labels@),
                        blocks[i].successor_labels@.len() as int,
                    ) == Some((#[trigger] successors@[i])@),
            decreases count - b,
        {
            let wanted = &self.basic_blocks[b].successor_labels;
            let mut targets: Vec<usize> = Vec::new();
            let mut j: usize = 0;
            while j < wanted.len()
                invariant
                    j <= wanted@.len(),
                    b < count,
                    count + 2 <= usize::MAX,
                    count == blocks.len(),
                    blocks == self.basic_blocks@,
                    names == labels_of(blocks),
                    first_duplicate(names, count as int) is None,
                    wanted == &blocks[b as int].successor_labels,
                    names_of(labels@) == names,
                    labels@.len() == count,
                    first_missing(names, blocks, b as int) is None,
                    first_unresolved(names, names_of(wanted@), j as int) is None,
                    targets_of(names, names_of(wanted@), j as int) == Some(targets@),
                decreases wanted@.len() - j,
            {
                match find_target(&labels, &wanted[j]) {
                    Some(target) => {
                        targets.push(target);
                    },
                    None => {
                        proof {
                            lemma_unresolved_stays(
                                names,
                                names_of(wanted@),
                                j + 1,
                                wanted@.len() as int,
                            );
                            lemma_missing_stays(names, blocks, b + 1, count as int);
                        }
                        return Err(ParseError::NoBlockWithLabel(wanted[j].clone()));
                    },
                }
                j += 1;
            }
            successors.push(targets);
            b += 1;
        }
        proof {
            lemma_missing(names, blocks, count as int);
            lemma_resolved_len(names, blocks, count as int);
        }
        let ProcedureDeclaration { variables, basic_blocks: mut written } = self;
        let ghost wanted = resolved_blocks(names, blocks, count as int)->0;
        let mut reversed: Vec<crate::high::program::BasicBlock> = Vec::new();
        let exit = crate::high::program::BasicBlock {
            label: LabelSymbol::new("exit"),
            guard: Expression::Constant(Constant::Bool(true)),
            statements: Vec::new(),
            successors: Vec::new(),
        };
        assert(exit@.statements =~= Seq::<StatementView>::empty());
        reversed.push(exit);
        let mut left: usize = count;
        while left > 0
            invariant
                left <= count,
                count == blocks.len(),
                written@ == blocks.take(left as int),
                successors@.len() == left,
                forall|i: int|
                    0 <= i < left ==> targets_of(
                        names,
                        names_of(blocks[i].successor_labels@),
                        blocks[i].successor_labels@.len() as int,
                    ) == Some((#[trigger] successors@[i])@),
                resolved_blocks(names, blocks, count as int) == Some(wanted),
                wanted.len() == count,
                reversed@.len() == count - left + 1,
                reversed@[0]@ == exit_view(),
                forall|i: int|
                    1 <= i < reversed@.len() ==> (#[trigger] reversed@[i])@ == wanted[count - i],
            decreases left,
        {
            proof {
                lemma_resolved_at(names, blocks, count as int, left - 1);
            }
            let block = written.pop().unwrap();
            let targets = successors.pop().unwrap();
            left -= 1;
            let resolved = crate::high::program::BasicBlock {
                label: block.label,
                guard: block.guard,
                statements: block.statements,
                successors: targets,
            };
            reversed.push(resolved);
        }
        let entry_successors: Vec<usize> = vec![1];
        let entry = crate::high::program::BasicBlock {
            label: LabelSymbol::new("entry"),
            guard: Expression::Constant(Constant::Bool(true)),
            statements: Vec::new(),
            successors: entry_successors,
        };
        assert(entry@.successors =~= seq![1usize]);
        let mut basic_blocks: Vec<crate::high::program::BasicBlock> = Vec::new();
        basic_blocks.push(entry);
        let ghost backwards = reversed@;
        let mut i: usize = reversed.len();
        while i > 0
            invariant
                i <= backwards.len(),
                reversed@ == backwards.take(i as int),
                basic_blocks@.len() == backwards.len() - i + 1,
                basic_blocks@[0]@ == entry_view(),
                forall|j: int|
                    1 <= j < basic_blocks@.len() ==> (#[trigger] basic_blocks@[j])
                        == backwards[backwards.len() - j],
            decreases i,
        {
            let block = reversed.pop().unwrap();
            i -= 1;
            basic_blocks.push(block);
        }
        let resolved = crate::high::program::ProcedureDeclaration { variables, basic_blocks };
        proof {
            let expected = seq![entry_view()] + wanted + seq![exit_view()];
            assert(resolved@.blocks =~= expected);
        }
        Ok(resolved)
    }
}

pub proof fn lemma_unresolved_stays(labels: Seq<Name>, wanted: Seq<Name>, k: int, later: int)
    requires
        0 <= k <= later,
        first_unresolved(labels, wanted, k) is Some,
    ensures
        first_unresolved(labels, wanted, later) == first_unresolved(labels, wanted, k),
    decreases later - k,
{
    if k < later {
        lemma_unresolved_stays(labels, wanted, k, later - 1);
    }
}

/// Each of the resolved blocks is the block that was written at its place.
pub proof fn lemma_resolved_at(labels: Seq<Name>, blocks: Seq<BasicBlock>, k: int, i: int)
    requires
        0 <= i < k,
        resolved_blocks(labels, blocks, k) is Some,
    ensures
        resolved_blocks(labels, blocks, k)->0.len() == k,
        resolved_block(labels, blocks[i]) == Some(resolved_blocks(labels, blocks, k)->0[i]),
    decreases k,
{
    lemma_resolved_len(labels, blocks, k);
    if i < k - 1 {
        lemma_resolved_at(labels, blocks, k - 1, i);
    }
}

pub proof fn lemma_resolved_len(labels: Seq<Name>, blocks: Seq<BasicBlock>, k: int)
    requires
        0 <= k,
        resolved_blocks(labels, blocks, k) is Some,
    ensures
        resolved_blocks(labels, blocks, k)->0.len() == k,
    decreases k,
{
    if k > 0 {
        lemma_resolved_len(labels, blocks, k - 1);
    }
}

impl ProgramFragment {
    /// The program with the labels of its procedure resolved.
    pub fn resolve(self) -> (r: Result<crate::high::program::ProgramFragment, ParseError>)
        requires
            self.procedure.basic_blocks@.len() + 2 <= usize::MAX,
        ensures
            match r {
                Ok(program) => resolves_to(self.procedure, Ok(program.procedure)) && program.sorts
                    == self.sorts && program.axioms == self.axioms && program.functions
                    == self.functions,
                Err(error) => resolves_to(self.procedure, Err(error)),
            },
    {
        let ProgramFragment { sorts, axioms, functions, procedure } = self;
        match procedure.resolve() {
            Ok(procedure) => Ok(
                crate::high::program::ProgramFragment { sorts, axioms, functions, procedure },
            ),
            Err(error) => Err(error),
        }
    }
}

} // verus!
