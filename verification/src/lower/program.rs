//! Lowering of programs: every write of a variable makes a new version of
//! it, and what the program does becomes what it assumes of the versions.
//!
//! The blocks are lowered in the order of the forward walk, so that the
//! versions that a block starts with are known when its turn comes. A block
//! with one predecessor starts with the versions that the predecessor ended
//! with. A block with several starts, for each variable, with the highest
//! version that any of them ended with, and assumes of each predecessor that
//! ended with a lower one that the two versions are equal.

use crate::common::cfg::{
    edges_in_range, graph_of, has_edge, predecessors, rows_of, walk_order, well_formed, Cfg,
};
use crate::common::expression::{lemma_first_outside, or_else, Name, SortView, Term};
use crate::common::order::{before, lemma_predecessors, lemma_walk_order, seq_has, topological};
use crate::common::statement::{StatementView, VariableDeclView};
use crate::context::Context;
use crate::errors::SvirptiResult;
use crate::high;
use crate::high::declaration::declarations_of;
use crate::high::program::{BlockView, ProcedureView};
use crate::low;
use crate::lower::count::{lemma_lowered_graph, lemma_lowered_variable_count, write_count};
use crate::lower::expression::{lower_expression, reports};
use crate::lower::versions::{
    declared, find_last_variable, find_variable, index_of, known, last_index_below,
    lemma_index_from, names_of, reading,
};
use vstd::prelude::*;

verus! {

/// What lowering has in hand inside a block.
pub struct BodyState {
    /// The current version of each variable.
    pub versions: Seq<usize>,
    /// The last version that was made of each variable.
    pub counters: Seq<usize>,
    /// Every version that was made, in the order of its making.
    pub variables: Seq<VariableDeclView>,
    /// The statements of the lowered block so far.
    pub statements: Seq<StatementView>,
}

/// What lowering has in hand between two blocks.
pub struct LoweringState {
    /// The last version that was made of each variable.
    pub counters: Seq<usize>,
    /// For each block that was lowered, the versions at its end.
    pub after: Seq<Seq<usize>>,
    /// Every version that was made, in the order of its making.
    pub variables: Seq<VariableDeclView>,
    /// The lowered blocks, each at the position of the block it was made from.
    pub blocks: Seq<low::program::BlockView>,
}

/// `n` times zero.
pub open spec fn zeros(n: nat) -> Seq<usize> {
    Seq::new(n, |i: int| 0usize)
}

/// The sort of a declaration, lowered.
pub open spec fn lower_sort<C: Context>(sort: SortView) -> SortView {
    match sort {
        SortView::Uninterpreted(name) => SortView::Uninterpreted(C::low_domain_name(name)),
        other => other,
    }
}

/// Version 0 of each declared variable.
pub open spec fn first_versions<C: Context>(decls: Seq<VariableDeclView>) -> Seq<
    VariableDeclView,
> {
    Seq::new(
        decls.len(),
        |i: int|
            VariableDeclView {
                name: C::versioned_name(decls[i].name, 0),
                sort: lower_sort::<C>(decls[i].sort),
            },
    )
}

/// The sort that a new version of `x` gets: that of the last declaration of
/// `x`.
pub open spec fn sort_of(decls: Seq<VariableDeclView>, x: Name) -> SortView {
    decls[last_index_below(names_of(decls), x, decls.len() as int)].sort
}

/// The highest version of the variable at `index` that one of the first `k`
/// of `preds` ends with.
pub open spec fn max_version(preds: Seq<usize>, after: Seq<Seq<usize>>, index: int, k: int) -> usize
    decreases k,
{
    if k <= 0 {
        0
    } else {
        let rest = max_version(preds, after, index, k - 1);
        let version = after[preds[k - 1] as int][index];
        if version > rest {
            version
        } else {
            rest
        }
    }
}

/// The assumption that two versions of `name` are equal.
pub open spec fn equality<C: Context>(name: Name, version1: usize, version2: usize) -> StatementView {
    StatementView::Assume {
        assertion: Term::equals(
            Term::Variable(C::versioned_name(name, version1 as nat)),
            Term::Variable(C::versioned_name(name, version2 as nat)),
        ),
        label: None,
    }
}

/// The equalities for the variable `name` at `index` and the first `k` of
/// `preds`: one for each that ends with another version than `version`.
pub open spec fn joins_for<C: Context>(
    name: Name,
    index: int,
    preds: Seq<usize>,
    after: Seq<Seq<usize>>,
    version: usize,
    k: int,
) -> Seq<StatementView>
    decreases k,
{
    if k <= 0 {
        Seq::empty()
    } else {
        let rest = joins_for::<C>(name, index, preds, after, version, k - 1);
        let mine = after[preds[k - 1] as int][index];
        if mine != version {
            rest.push(equality::<C>(name, mine, version))
        } else {
            rest
        }
    }
}

/// The equalities for the first `i` declarations at a block with the
/// predecessors `preds`.
pub open spec fn joins<C: Context>(
    names: Seq<Name>,
    preds: Seq<usize>,
    after: Seq<Seq<usize>>,
    i: int,
) -> Seq<StatementView>
    decreases i,
{
    if i <= 0 {
        Seq::empty()
    } else {
        let index = index_of(names, names[i - 1]);
        joins::<C>(names, preds, after, i - 1) + joins_for::<C>(
            names[i - 1],
            index,
            preds,
            after,
            max_version(preds, after, index, preds.len() as int),
            preds.len() as int,
        )
    }
}

/// The versions after the first `i` declarations were merged at a block
/// with the predecessors `preds`.
pub open spec fn merged(names: Seq<Name>, preds: Seq<usize>, after: Seq<Seq<usize>>, i: int) -> Seq<
    usize,
>
    decreases i,
{
    if i <= 0 {
        zeros(names.len())
    } else {
        let index = index_of(names, names[i - 1]);
        merged(names, preds, after, i - 1).update(
            index,
            max_version(preds, after, index, preds.len() as int),
        )
    }
}

/// The versions with which a block with the predecessors `preds` starts.
pub open spec fn entry_versions(names: Seq<Name>, preds: Seq<usize>, after: Seq<Seq<usize>>) -> Seq<
    usize,
> {
    if preds.len() == 0 {
        zeros(names.len())
    } else if preds.len() == 1 {
        after[preds[0] as int]
    } else {
        merged(names, preds, after, names.len() as int)
    }
}

/// The statements with which the lowering of a block with the predecessors
/// `preds` starts.
pub open spec fn entry_statements<C: Context>(
    names: Seq<Name>,
    preds: Seq<usize>,
    after: Seq<Seq<usize>>,
) -> Seq<StatementView> {
    if preds.len() >= 2 {
        joins::<C>(names, preds, after, names.len() as int)
    } else {
        Seq::empty()
    }
}

/// The label of a statement, lowered.
pub open spec fn lower_label<C: Context>(label: Option<Name>) -> Option<Name> {
    match label {
        Some(name) => Some(C::low_label_name(name)),
        None => None,
    }
}

/// The state after a new version of `x` was made.
pub open spec fn bump<C: Context>(decls: Seq<VariableDeclView>, s: BodyState, x: Name) -> BodyState {
    let index = index_of(names_of(decls), x);
    let version = (s.counters[index] + 1) as usize;
    BodyState {
        versions: s.versions.update(index, version),
        counters: s.counters.update(index, version),
        variables: s.variables.push(
            VariableDeclView {
                name: C::versioned_name(x, version as nat),
                sort: lower_sort::<C>(sort_of(decls, x)),
            },
        ),
        statements: s.statements,
    }
}

/// The state after `statement` was lowered. An assignment reads its right
/// side before it makes the new version of its left side.
pub open spec fn lower_statement_spec<C: Context>(
    decls: Seq<VariableDeclView>,
    s: BodyState,
    statement: StatementView,
) -> BodyState {
    let names = names_of(decls);
    match statement {
        StatementView::Assert { assertion, label } => BodyState {
            statements: s.statements.push(
                StatementView::Assert {
                    assertion: assertion.rename(reading::<C>(names, s.versions)),
                    label: lower_label::<C>(label),
                },
            ),
            ..s
        },
        StatementView::Assume { assertion, label } => BodyState {
            statements: s.statements.push(
                StatementView::Assume {
                    assertion: assertion.rename(reading::<C>(names, s.versions)),
                    label: lower_label::<C>(label),
                },
            ),
            ..s
        },
        StatementView::Havoc { variable } => bump::<C>(decls, s, variable),
        StatementView::Assign { variable, expression } => {
            let value = expression.rename(reading::<C>(names, s.versions));
            let bumped = bump::<C>(decls, s, variable);
            let version = bumped.versions[index_of(names, variable)];
            BodyState {
                statements: bumped.statements.push(
                    StatementView::Assume {
                        assertion: Term::equals(
                            Term::Variable(C::versioned_name(variable, version as nat)),
                            value,
                        ),
                        label: None,
                    },
                ),
                ..bumped
            }
        },
    }
}

/// The state after the first `k` of `statements` were lowered.
pub open spec fn lower_statements_spec<C: Context>(
    decls: Seq<VariableDeclView>,
    s: BodyState,
    statements: Seq<StatementView>,
    k: int,
) -> BodyState
    decreases k,
{
    if k <= 0 {
        s
    } else {
        lower_statement_spec::<C>(
            decls,
            lower_statements_spec::<C>(decls, s, statements, k - 1),
            statements[k - 1],
        )
    }
}

/// The state in which the statements of the block `b` are lowered: the
/// block starts with the equalities of its join, and then assumes its guard
/// under its own label, unless the guard is the literal `true`.
pub open spec fn enter_block<C: Context>(p: ProcedureView, s: LoweringState, b: int) -> BodyState {
    let names = names_of(p.variables);
    let preds = predecessors(p.graph())[b];
    let versions = entry_versions(names, preds, s.after);
    let first = entry_statements::<C>(names, preds, s.after);
    BodyState {
        versions,
        counters: s.counters,
        variables: s.variables,
        statements: if p.blocks[b].guard == Term::truth() {
            first
        } else {
            first.push(
                StatementView::Assume {
                    assertion: p.blocks[b].guard.rename(reading::<C>(names, versions)),
                    label: Some(C::low_label_name(p.blocks[b].label)),
                },
            )
        },
    }
}

/// The state after the block `b` was lowered.
pub open spec fn lower_block<C: Context>(p: ProcedureView, s: LoweringState, b: int) -> LoweringState {
    let body = lower_statements_spec::<C>(
        p.variables,
        enter_block::<C>(p, s, b),
        p.blocks[b].statements,
        p.blocks[b].statements.len() as int,
    );
    LoweringState {
        counters: body.counters,
        after: s.after.update(b, body.versions),
        variables: body.variables,
        blocks: s.blocks.update(
            b,
            low::program::BlockView {
                statements: body.statements,
                successors: p.blocks[b].successors,
            },
        ),
    }
}

/// The state before any block was lowered.
pub open spec fn lowering_start<C: Context>(p: ProcedureView) -> LoweringState {
    LoweringState {
        counters: zeros(p.variables.len()),
        after: Seq::new(p.blocks.len(), |b: int| Seq::<usize>::empty()),
        variables: first_versions::<C>(p.variables),
        blocks: Seq::new(
            p.blocks.len(),
            |b: int|
                low::program::BlockView { statements: Seq::empty(), successors: Seq::empty() },
        ),
    }
}

/// The state after the first `k` blocks of `order` were lowered.
pub open spec fn lower_along<C: Context>(p: ProcedureView, order: Seq<usize>, k: int) -> LoweringState
    decreases k,
{
    if k <= 0 {
        lowering_start::<C>(p)
    } else {
        lower_block::<C>(p, lower_along::<C>(p, order, k - 1), order[k - 1] as int)
    }
}

/// The program that `p` is lowered to.
pub open spec fn lowered<C: Context>(p: ProcedureView) -> low::program::ProgramView {
    let order = walk_order(p.graph());
    let s = lower_along::<C>(p, order, order.len() as int);
    low::program::ProgramView { variables: s.variables, blocks: s.blocks }
}

/// Whether the variable that `statement` writes, if it writes one, is
/// declared.
pub open spec fn write_declared(names: Seq<Name>, statement: StatementView) -> bool {
    match statement {
        StatementView::Havoc { variable } => declared(names, variable),
        StatementView::Assign { variable, .. } => declared(names, variable),
        _ => true,
    }
}

/// The first variable that `statement` reads and that is not declared.
pub open spec fn statement_first_undeclared(names: Seq<Name>, statement: StatementView) -> Option<
    Name,
> {
    match statement {
        StatementView::Assert { assertion, .. } => assertion.first_outside(known(names)),
        StatementView::Assume { assertion, .. } => assertion.first_outside(known(names)),
        StatementView::Assign { expression, .. } => expression.first_outside(known(names)),
        StatementView::Havoc { .. } => None,
    }
}

/// Whether every variable that `statement` reads is declared.
pub open spec fn reads_declared(names: Seq<Name>, statement: StatementView) -> bool {
    statement_first_undeclared(names, statement) is None
}

/// The first variable that the first `k` of `statements` read and that is
/// not declared.
pub open spec fn statements_first_undeclared(
    names: Seq<Name>,
    statements: Seq<StatementView>,
    k: int,
) -> Option<Name>
    decreases k,
{
    if k <= 0 {
        None
    } else {
        or_else(
            statements_first_undeclared(names, statements, k - 1),
            statement_first_undeclared(names, statements[k - 1]),
        )
    }
}

/// The first variable that the guard of `block` reads and that is not
/// declared. A guard that is the literal `true` is not read.
pub open spec fn guard_first_undeclared(names: Seq<Name>, block: BlockView) -> Option<Name> {
    if block.guard == Term::truth() {
        None
    } else {
        block.guard.first_outside(known(names))
    }
}

/// The first variable that `block` reads and that is not declared: the
/// guard is read before the statements.
pub open spec fn block_first_undeclared(names: Seq<Name>, block: BlockView) -> Option<Name> {
    or_else(
        guard_first_undeclared(names, block),
        statements_first_undeclared(names, block.statements, block.statements.len() as int),
    )
}

/// Whether every variable that the block reads is declared.
pub open spec fn block_reads_declared(names: Seq<Name>, block: BlockView) -> bool {
    block_first_undeclared(names, block) is None
}

/// The first variable that the first `k` blocks of `order` read and that is
/// not declared.
pub open spec fn first_undeclared_along(p: ProcedureView, order: Seq<usize>, k: int) -> Option<Name>
    decreases k,
{
    if k <= 0 {
        None
    } else {
        or_else(
            first_undeclared_along(p, order, k - 1),
            block_first_undeclared(names_of(p.variables), p.blocks[order[k - 1] as int]),
        )
    }
}

/// The first variable that `p` reads and that is not declared, in the order
/// in which `p` is lowered.
pub open spec fn first_undeclared(p: ProcedureView) -> Option<Name> {
    first_undeclared_along(p, walk_order(p.graph()), walk_order(p.graph()).len() as int)
}

pub proof fn lemma_statements_first(names: Seq<Name>, statements: Seq<StatementView>, k: int)
    requires
        0 <= k <= statements.len(),
    ensures
        statements_first_undeclared(names, statements, k) matches Some(name) ==> !declared(
            names,
            name,
        ),
    decreases k,
{
    if k > 0 {
        lemma_statements_first(names, statements, k - 1);
        match statements[k - 1] {
            StatementView::Assert { assertion, .. } => {
                lemma_first_outside(assertion, known(names));
            },
            StatementView::Assume { assertion, .. } => {
                lemma_first_outside(assertion, known(names));
            },
            StatementView::Assign { expression, .. } => {
                lemma_first_outside(expression, known(names));
            },
            StatementView::Havoc { .. } => {},
        }
    }
}

pub proof fn lemma_first_undeclared_along(p: ProcedureView, order: Seq<usize>, k: int)
    requires
        0 <= k <= order.len(),
    ensures
        first_undeclared_along(p, order, k) is None <==> forall|j: int|
            0 <= j < k ==> block_reads_declared(
                names_of(p.variables),
                #[trigger] p.blocks[order[j] as int],
            ),
        first_undeclared_along(p, order, k) matches Some(name) ==> !declared(
            names_of(p.variables),
            name,
        ),
    decreases k,
{
    if k > 0 {
        lemma_first_undeclared_along(p, order, k - 1);
        let names = names_of(p.variables);
        let block = p.blocks[order[k - 1] as int];
        lemma_first_outside(block.guard, known(names));
        lemma_statements_first(names, block.statements, block.statements.len() as int);
    }
}

/// A well-formed procedure reads only declared variables exactly if it has
/// no first variable that it reads and that is not declared; and the first
/// one that is not, is not.
pub proof fn lemma_first_undeclared(p: ProcedureView)
    requires
        well_formed(p.graph()),
    ensures
        first_undeclared(p) is None <==> procedure_reads_declared(p),
        first_undeclared(p) matches Some(name) ==> !declared(names_of(p.variables), name),
{
    let order = walk_order(p.graph());
    let names = names_of(p.variables);
    lemma_walk_order(p.graph());
    lemma_first_undeclared_along(p, order, order.len() as int);
    if first_undeclared(p) is None {
        assert forall|b: int| 0 <= b < p.blocks.len() implies block_reads_declared(
            names,
            #[trigger] p.blocks[b],
        ) by {
            assert(seq_has(order, b));
        }
    }
    if procedure_reads_declared(p) {
        assert forall|j: int| 0 <= j < order.len() implies block_reads_declared(
            names,
            #[trigger] p.blocks[order[j] as int],
        ) by {}
    }
}

pub proof fn lemma_statements_first_stays(
    names: Seq<Name>,
    statements: Seq<StatementView>,
    k: int,
    later: int,
)
    requires
        0 <= k <= later,
        statements_first_undeclared(names, statements, k) is Some,
    ensures
        statements_first_undeclared(names, statements, later) == statements_first_undeclared(
            names,
            statements,
            k,
        ),
    decreases later - k,
{
    if k < later {
        lemma_statements_first_stays(names, statements, k, later - 1);
    }
}

pub proof fn lemma_first_undeclared_stays(p: ProcedureView, order: Seq<usize>, k: int, later: int)
    requires
        0 <= k <= later,
        first_undeclared_along(p, order, k) is Some,
    ensures
        first_undeclared_along(p, order, later) == first_undeclared_along(p, order, k),
    decreases later - k,
{
    if k < later {
        lemma_first_undeclared_stays(p, order, k, later - 1);
    }
}

/// Whether every variable that the procedure reads is declared.
pub open spec fn procedure_reads_declared(p: ProcedureView) -> bool {
    forall|b: int|
        0 <= b < p.blocks.len() ==> block_reads_declared(names_of(p.variables), #[trigger] p.blocks[b])
}

/// What a procedure has to be for it to be lowered: its graph is
/// well-formed and every variable that it writes is declared.
pub open spec fn valid(p: ProcedureView) -> bool {
    &&& well_formed(p.graph())
    &&& forall|b: int, j: int|
        0 <= b < p.blocks.len() && 0 <= j < p.blocks[b].statements.len() ==> write_declared(
            names_of(p.variables),
            #[trigger] p.blocks[b].statements[j],
        )
}

/// The versions and the counters are as many as the declarations, and no
/// counter is above the number of versions that were made after the first.
pub open spec fn body_fits(count: nat, s: BodyState) -> bool {
    &&& s.versions.len() == count
    &&& s.counters.len() == count
    &&& forall|i: int| 0 <= i < count ==> (#[trigger] s.counters[i]) + count <= s.variables.len()
}

fn lower_type<C: Context>(context: &mut C, typ: &high::Type) -> (r: low::Sort)
    ensures
        r@ == lower_sort::<C>(typ@),
{
    match typ {
        high::Type::Int => low::Sort::Int,
        high::Type::Bool => low::Sort::Bool,
        high::Type::Real => low::Sort::Real,
        high::Type::Domain(high::DomainType { name }) => low::Sort::Uninterpreted {
            name: context.lower_domain_name(name),
        },
    }
}

fn assume_var_eq<C: Context>(
    context: &mut C,
    name: &high::VariableSymbol,
    version1: usize,
    version2: usize,
) -> (r: low::Statement)
    ensures
        r@ == equality::<C>(name@, version1, version2),
{
    let left = low::Expression::variable(context.create_versioned_variable_symbol(name, version1));
    let right = low::Expression::variable(context.create_versioned_variable_symbol(name, version2));
    low::Statement::assume_that(low::Expression::equals(left, right))
}

fn lower_optional_label<C: Context>(context: &mut C, label: &Option<high::LabelSymbol>) -> (r:
    Option<low::LabelSymbol>)
    ensures
        low::statement::label_view(r) == lower_label::<C>(high::statement::label_view(*label)),
{
    match label {
        Some(label) => Some(context.lower_label(label)),
        None => None,
    }
}

fn make_zeros(n: usize) -> (r: Vec<usize>)
    ensures
        r@ == zeros(n as nat),
{
    let mut r: Vec<usize> = Vec::new();
    let mut i: usize = 0;
    while i < n
        invariant
            i <= n,
            r@.len() == i,
            forall|k: int| 0 <= k < i ==> r@[k] == 0,
        decreases n - i,
    {
        r.push(0);
        i += 1;
    }
    r
}

fn copy_of(list: &Vec<usize>) -> (r: Vec<usize>)
    ensures
        r@ == list@,
{
    let mut r: Vec<usize> = Vec::new();
    let mut i: usize = 0;
    while i < list.len()
        invariant
            i <= list@.len(),
            r@.len() == i,
            forall|k: int| 0 <= k < i ==> r@[k] == list@[k],
        decreases list@.len() - i,
    {
        r.push(list[i]);
        i += 1;
    }
    r
}

/// Version 0 of each variable of `variables`.
fn declare_first_versions<C: Context>(
    context: &mut C,
    variables: &Vec<high::VariableDeclaration>,
) -> (r: Vec<low::VariableDeclaration>)
    ensures
        low::declaration::declarations_of(r@) == first_versions::<C>(declarations_of(variables@)),
{
    let mut r: Vec<low::VariableDeclaration> = Vec::new();
    let mut i: usize = 0;
    while i < variables.len()
        invariant
            i <= variables@.len(),
            r@.len() == i,
            forall|k: int|
                0 <= k < i ==> (#[trigger] r@[k])@ == first_versions::<C>(
                    declarations_of(variables@),
                )[k],
        decreases variables@.len() - i,
    {
        let variable = &variables[i];
        let name = context.create_versioned_variable_symbol(&variable.name, 0);
        let sort = lower_type(context, &variable.sort);
        r.push(low::VariableDeclaration { name, sort });
        i += 1;
    }
    r
}

/// The highest version of the variable at `index` that one of
/// `predecessor_blocks` ends with.
fn highest_version(predecessor_blocks: &Vec<usize>, after: &Vec<Vec<usize>>, index: usize) -> (r:
    usize)
    requires
        forall|k: int|
            0 <= k < predecessor_blocks@.len() ==> (#[trigger] predecessor_blocks@[k]) < after@.len()
                && index < after@[predecessor_blocks@[k] as int]@.len(),
    ensures
        r == max_version(
            predecessor_blocks@,
            rows_of(after@),
            index as int,
            predecessor_blocks@.len() as int,
        ),
{
    let mut r: usize = 0;
    let mut k: usize = 0;
    while k < predecessor_blocks.len()
        invariant
            k <= predecessor_blocks@.len(),
            forall|j: int|
                0 <= j < predecessor_blocks@.len() ==> (#[trigger] predecessor_blocks@[j])
                    < after@.len() && index < after@[predecessor_blocks@[j] as int]@.len(),
            r == max_version(predecessor_blocks@, rows_of(after@), index as int, k as int),
        decreases predecessor_blocks@.len() - k,
    {
        let version = after[predecessor_blocks[k]][index];
        if version > r {
            r = version;
        }
        k += 1;
    }
    r
}

/// The versions with which a block with several predecessors starts. The
/// equalities of the join go to the end of `statements`.
fn merge_versions<C: Context>(
    context: &mut C,
    variables: &Vec<high::VariableDeclaration>,
    predecessor_blocks: &Vec<usize>,
    after: &Vec<Vec<usize>>,
    statements: &mut Vec<low::Statement>,
) -> (r: Vec<usize>)
    requires
        forall|k: int|
            0 <= k < predecessor_blocks@.len() ==> (#[trigger] predecessor_blocks@[k]) < after@.len()
                && after@[predecessor_blocks@[k] as int]@.len() == variables@.len(),
    ensures
        r@.len() == variables@.len(),
        r@ == merged(
            names_of(declarations_of(variables@)),
            predecessor_blocks@,
            rows_of(after@),
            variables@.len() as int,
        ),
        low::statement::statements_of(final(statements)@) == low::statement::statements_of(
            old(statements)@,
        ) + joins::<C>(
            names_of(declarations_of(variables@)),
            predecessor_blocks@,
            rows_of(after@),
            variables@.len() as int,
        ),
{
    let ghost names = names_of(declarations_of(variables@));
    let ghost preds = predecessor_blocks@;
    let ghost rows = rows_of(after@);
    let ghost first = low::statement::statements_of(statements@);
    let mut merged_variables = make_zeros(variables.len());
    let mut i: usize = 0;
    while i < variables.len()
        invariant
            i <= variables@.len(),
            names == names_of(declarations_of(variables@)),
            preds == predecessor_blocks@,
            rows == rows_of(after@),
            forall|k: int|
                0 <= k < predecessor_blocks@.len() ==> (#[trigger] predecessor_blocks@[k])
                    < after@.len() && after@[predecessor_blocks@[k] as int]@.len()
                    == variables@.len(),
            merged_variables@ == merged(names, preds, rows, i as int),
            merged_variables@.len() == variables@.len(),
            low::statement::statements_of(statements@) == first + joins::<C>(
                names,
                preds,
                rows,
                i as int,
            ),
        decreases variables@.len() - i,
    {
        let variable = &variables[i];
        let index = match find_variable(variables, &variable.name) {
            Some(index) => index,
            None => {
                proof {
                    lemma_index_from(names, variable.name@, 0);
                }
                i
            },
        };
        let max = highest_version(predecessor_blocks, after, index);
        let ghost before_variable = low::statement::statements_of(statements@);
        let mut k: usize = 0;
        while k < predecessor_blocks.len()
            invariant
                k <= predecessor_blocks@.len(),
                index < variables@.len(),
                preds == predecessor_blocks@,
                rows == rows_of(after@),
                forall|j: int|
                    0 <= j < predecessor_blocks@.len() ==> (#[trigger] predecessor_blocks@[j])
                        < after@.len() && after@[predecessor_blocks@[j] as int]@.len()
                        == variables@.len(),
                low::statement::statements_of(statements@) == before_variable + joins_for::<C>(
                    variable.name@,
                    index as int,
                    preds,
                    rows,
                    max,
                    k as int,
                ),
            decreases predecessor_blocks@.len() - k,
        {
            let version = after[predecessor_blocks[k]][index];
            if version != max {
                let ghost previous = low::statement::statements_of(statements@);
                let statement = assume_var_eq(context, &variable.name, version, max);
                statements.push(statement);
                assert(low::statement::statements_of(statements@) =~= previous.push(
                    equality::<C>(variable.name@, version, max),
                ));
            }
            k += 1;
        }
        merged_variables[index] = max;
        i += 1;
    }
    merged_variables
}

/// Makes a new version of `variable`, which is current from here on.
fn inc_var_version<C: Context>(
    context: &mut C,
    variable: &high::Variable,
    variables: &Vec<high::VariableDeclaration>,
    variable_counters: &mut Vec<usize>,
    all_variables: &mut Vec<low::VariableDeclaration>,
    variable_versions: &mut Vec<usize>,
    Ghost(statements): Ghost<Seq<StatementView>>,
) -> (r: low::Variable)
    requires
        declared(names_of(declarations_of(variables@)), variable.name@),
        body_fits(
            variables@.len(),
            BodyState {
                versions: old(variable_versions)@,
                counters: old(variable_counters)@,
                variables: low::declaration::declarations_of(old(all_variables)@),
                statements,
            },
        ),
    ensures
        (BodyState {
            versions: final(variable_versions)@,
            counters: final(variable_counters)@,
            variables: low::declaration::declarations_of(final(all_variables)@),
            statements,
        }) == bump::<C>(
            declarations_of(variables@),
            BodyState {
                versions: old(variable_versions)@,
                counters: old(variable_counters)@,
                variables: low::declaration::declarations_of(old(all_variables)@),
                statements,
            },
            variable.name@,
        ),
        body_fits(
            variables@.len(),
            BodyState {
                versions: final(variable_versions)@,
                counters: final(variable_counters)@,
                variables: low::declaration::declarations_of(final(all_variables)@),
                statements,
            },
        ),
        r.name@ == C::versioned_name(
            variable.name@,
            final(variable_versions)@[index_of(
                names_of(declarations_of(variables@)),
                variable.name@,
            )] as nat,
        ),
{
    let ghost names = names_of(declarations_of(variables@));
    let ghost previous = low::declaration::declarations_of(all_variables@);
    proof {
        lemma_index_from(names, variable.name@, 0);
    }
    let index = match find_variable(variables, &variable.name) {
        Some(index) => index,
        None => 0,
    };
    let sort_index = match find_last_variable(variables, &variable.name) {
        Some(sort_index) => sort_index,
        None => {
            index
        },
    };
    proof {
        lemma_last_index(names, variable.name@, names.len() as int);
    }
    let total = all_variables.len();
    let version = variable_counters[index] + 1;
    variable_counters[index] = version;
    variable_versions[index] = version;
    let name = context.create_versioned_variable_symbol(&variable.name, version);
    let sort = lower_type(context, &variables[sort_index].sort);
    all_variables.push(low::VariableDeclaration { name: name.clone(), sort });
    proof {
        assert(low::declaration::declarations_of(all_variables@) =~= previous.push(
            VariableDeclView {
                name: C::versioned_name(variable.name@, version as nat),
                sort: lower_sort::<C>(sort_of(declarations_of(variables@), variable.name@)),
            },
        ));
    }
    low::Variable { name }
}

/// Where a name is declared, its last declaration is found.
pub proof fn lemma_last_index(names: Seq<Name>, x: Name, upto: int)
    requires
        0 <= upto <= names.len(),
    ensures
        -1 <= last_index_below(names, x, upto) < upto,
        last_index_below(names, x, upto) >= 0 ==> names[last_index_below(names, x, upto)] == x,
        forall|j: int| 0 <= j < upto && names[j] == x ==> last_index_below(names, x, upto) >= j,
    decreases upto,
{
    if upto > 0 && names[upto - 1] != x {
        lemma_last_index(names, x, upto - 1);
    }
}

/// Lowers `statement` at the end of `statements`.
fn lower_statement<C: Context>(
    context: &mut C,
    variables: &Vec<high::VariableDeclaration>,
    statement: &high::Statement,
    variable_versions: &mut Vec<usize>,
    variable_counters: &mut Vec<usize>,
    all_variables: &mut Vec<low::VariableDeclaration>,
    statements: &mut Vec<low::Statement>,
) -> (r: SvirptiResult<()>)
    requires
        write_declared(names_of(declarations_of(variables@)), statement@),
        body_fits(
            variables@.len(),
            BodyState {
                versions: old(variable_versions)@,
                counters: old(variable_counters)@,
                variables: low::declaration::declarations_of(old(all_variables)@),
                statements: low::statement::statements_of(old(statements)@),
            },
        ),
    ensures
        match r {
            Ok(_) => {
                let s = BodyState {
                    versions: final(variable_versions)@,
                    counters: final(variable_counters)@,
                    variables: low::declaration::declarations_of(final(all_variables)@),
                    statements: low::statement::statements_of(final(statements)@),
                };
                &&& reads_declared(names_of(declarations_of(variables@)), statement@)
                &&& s == lower_statement_spec::<C>(
                    declarations_of(variables@),
                    BodyState {
                        versions: old(variable_versions)@,
                        counters: old(variable_counters)@,
                        variables: low::declaration::declarations_of(old(all_variables)@),
                        statements: low::statement::statements_of(old(statements)@),
                    },
                    statement@,
                )
                &&& body_fits(variables@.len(), s)
            },
            Err(error) => statement_first_undeclared(
                names_of(declarations_of(variables@)),
                statement@,
            ) is Some && reports(
                error,
                statement_first_undeclared(names_of(declarations_of(variables@)), statement@)->0,
            ),
        },
{
    let ghost previous = low::statement::statements_of(statements@);
    match statement {
        high::Statement::Assert(statement) => {
            let label = lower_optional_label(context, &statement.label);
            let assertion = match lower_expression(
                context,
                variables,
                variable_versions,
                &statement.assertion,
            ) {
                Ok(assertion) => assertion,
                Err(error) => {
                    return Err(error);
                },
            };
            let lowered = low::Statement::Assert(low::Assert { assertion, label });
            statements.push(lowered);
            assert(low::statement::statements_of(statements@) =~= previous.push(lowered@));
            Ok(())
        },
        high::Statement::Assume(statement) => {
            let label = lower_optional_label(context, &statement.label);
            let assertion = match lower_expression(
                context,
                variables,
                variable_versions,
                &statement.assertion,
            ) {
                Ok(assertion) => assertion,
                Err(error) => {
                    return Err(error);
                },
            };
            let lowered = low::Statement::Assume(low::Assume { assertion, label });
            statements.push(lowered);
            assert(low::statement::statements_of(statements@) =~= previous.push(lowered@));
            Ok(())
        },
        high::Statement::Havoc(statement) => {
            inc_var_version(
                context,
                &statement.variable,
                variables,
                variable_counters,
                all_variables,
                variable_versions,
                Ghost(previous),
            );
            Ok(())
        },
        high::Statement::Assign(statement) => {
            let expression = match lower_expression(
                context,
                variables,
                variable_versions,
                &statement.expression,
            ) {
                Ok(expression) => expression,
                Err(error) => {
                    return Err(error);
                },
            };
            let variable = inc_var_version(
                context,
                &statement.variable,
                variables,
                variable_counters,
                all_variables,
                variable_versions,
                Ghost(previous),
            );
            let lowered = low::Statement::assume_that(
                low::Expression::equals(low::Expression::Variable(variable), expression),
            );
            statements.push(lowered);
            assert(low::statement::statements_of(statements@) =~= previous.push(lowered@));
            Ok(())
        },
    }
}

/// The state of a lowering that holds these lists.
pub open spec fn state_of(
    counters: Seq<usize>,
    after: Seq<Vec<usize>>,
    all_variables: Seq<low::VariableDeclaration>,
    basic_blocks: Seq<low::BasicBlock>,
) -> LoweringState {
    LoweringState {
        counters,
        after: rows_of(after),
        variables: low::declaration::declarations_of(all_variables),
        blocks: low::program::blocks_of(basic_blocks),
    }
}

/// The lists of a lowering are as long as they have to be, and no counter is
/// above the number of versions that were made after the first.
pub open spec fn state_fits(p: ProcedureView, s: LoweringState) -> bool {
    &&& s.counters.len() == p.variables.len()
    &&& s.after.len() == p.blocks.len()
    &&& s.blocks.len() == p.blocks.len()
    &&& forall|i: int|
        0 <= i < p.variables.len() ==> (#[trigger] s.counters[i]) + p.variables.len()
            <= s.variables.len()
}

/// Lowers the block `id` of `procedure` into `basic_blocks`.
fn lower_basic_block<C: Context>(
    context: &mut C,
    procedure: &high::ProcedureDeclaration,
    predecessors: &Vec<Vec<usize>>,
    id: usize,
    after: &mut Vec<Vec<usize>>,
    variable_counters: &mut Vec<usize>,
    all_variables: &mut Vec<low::VariableDeclaration>,
    basic_blocks: &mut Vec<low::BasicBlock>,
) -> (r: SvirptiResult<()>)
    requires
        id < procedure.basic_blocks@.len(),
        rows_of(predecessors@) == self::predecessors(procedure@.graph()),
        predecessors@.len() == procedure.basic_blocks@.len(),
        state_fits(
            procedure@,
            state_of(
                old(variable_counters)@,
                old(after)@,
                old(all_variables)@,
                old(basic_blocks)@,
            ),
        ),
        forall|k: int|
            0 <= k < predecessors@[id as int]@.len() ==> (#[trigger] predecessors@[id as int]@[k])
                < old(after)@.len() && old(after)@[predecessors@[id as int]@[k] as int]@.len()
                == procedure.variables@.len(),
        forall|j: int|
            0 <= j < procedure@.blocks[id as int].statements.len() ==> write_declared(
                names_of(procedure@.variables),
                #[trigger] procedure@.blocks[id as int].statements[j],
            ),
    ensures
        match r {
            Ok(_) => {
                let s = state_of(
                    final(variable_counters)@,
                    final(after)@,
                    final(all_variables)@,
                    final(basic_blocks)@,
                );
                &&& block_reads_declared(
                    names_of(procedure@.variables),
                    procedure@.blocks[id as int],
                )
                &&& s == lower_block::<C>(
                    procedure@,
                    state_of(
                        old(variable_counters)@,
                        old(after)@,
                        old(all_variables)@,
                        old(basic_blocks)@,
                    ),
                    id as int,
                )
                &&& state_fits(procedure@, s)
                &&& final(after)@.len() == old(after)@.len()
                &&& final(after)@[id as int]@.len() == procedure.variables@.len()
                &&& forall|b: int|
                    0 <= b < old(after)@.len() && b != id ==> final(after)@[b] == old(after)@[b]
            },
            Err(error) => block_first_undeclared(
                names_of(procedure@.variables),
                procedure@.blocks[id as int],
            ) is Some && reports(
                error,
                block_first_undeclared(
                    names_of(procedure@.variables),
                    procedure@.blocks[id as int],
                )->0,
            ),
        },
{
    let ghost p = procedure@;
    let ghost names = names_of(p.variables);
    let ghost first = state_of(variable_counters@, after@, all_variables@, basic_blocks@);
    let variables = &procedure.variables;
    let block = &procedure.basic_blocks[id];
    let predecessor_blocks = &predecessors[id];
    assert(predecessor_blocks@ == self::predecessors(p.graph())[id as int]);
    let mut statements: Vec<low::Statement> = Vec::new();
    let mut versions = if predecessor_blocks.len() == 0 {
        make_zeros(variables.len())
    } else if predecessor_blocks.len() == 1 {
        copy_of(&after[predecessor_blocks[0]])
    } else {
        merge_versions(context, variables, predecessor_blocks, after, &mut statements)
    };
    assert(low::statement::statements_of(statements@) == entry_statements::<C>(
        names,
        predecessor_blocks@,
        first.after,
    ));
    if !block.guard.is_true() {
        let lowered_guard = match lower_expression(context, variables, &versions, &block.guard) {
            Ok(lowered_guard) => lowered_guard,
            Err(error) => {
                return Err(error);
            },
        };
        let ghost previous = low::statement::statements_of(statements@);
        let statement = low::Statement::assume_with_label(
            lowered_guard,
            context.lower_label(&block.label),
        );
        statements.push(statement);
        assert(low::statement::statements_of(statements@) =~= previous.push(statement@));
    }
    let ghost entered = enter_block::<C>(p, first, id as int);
    let ghost high_statements = p.blocks[id as int].statements;
    let mut j: usize = 0;
    while j < block.statements.len()
        invariant
            j <= block.statements@.len(),
            p == procedure@,
            names == names_of(p.variables),
            variables == &procedure.variables,
            id < procedure.basic_blocks@.len(),
            block == &procedure.basic_blocks@[id as int],
            high_statements == p.blocks[id as int].statements,
            high_statements.len() == block.statements@.len(),
            forall|i: int|
                0 <= i < high_statements.len() ==> write_declared(
                    names,
                    #[trigger] high_statements[i],
                ),
            guard_first_undeclared(names, p.blocks[id as int]) is None,
            statements_first_undeclared(names, high_statements, j as int) is None,
            body_fits(
                variables@.len(),
                BodyState {
                    versions: versions@,
                    counters: variable_counters@,
                    variables: low::declaration::declarations_of(all_variables@),
                    statements: low::statement::statements_of(statements@),
                },
            ),
            (BodyState {
                versions: versions@,
                counters: variable_counters@,
                variables: low::declaration::declarations_of(all_variables@),
                statements: low::statement::statements_of(statements@),
            }) == lower_statements_spec::<C>(p.variables, entered, high_statements, j as int),
            after@ == old(after)@,
            basic_blocks@ == old(basic_blocks)@,
        decreases block.statements@.len() - j,
    {
        assert(high_statements[j as int] == block.statements@[j as int]@);
        match lower_statement(
            context,
            variables,
            &block.statements[j],
            &mut versions,
            variable_counters,
            all_variables,
            &mut statements,
        ) {
            Ok(_) => {},
            Err(error) => {
                proof {
                    lemma_statements_first_stays(
                        names,
                        high_statements,
                        j + 1,
                        high_statements.len() as int,
                    );
                }
                return Err(error);
            },
        }
        j += 1;
    }
    let lowered = low::BasicBlock { statements, successors: copy_of(&block.successors) };
    let ghost blocks_before = low::program::blocks_of(basic_blocks@);
    let ghost after_before = rows_of(after@);
    basic_blocks[id] = lowered;
    after[id] = versions;
    proof {
        assert(low::program::blocks_of(basic_blocks@) =~= blocks_before.update(
            id as int,
            lowered@,
        ));
        assert(rows_of(after@) =~= after_before.update(id as int, versions@));
    }
    Ok(())
}

/// Lowers `program`: the result has a version of each variable for each of
/// its writes, and in each block only assertions and assumptions.
pub fn lower_program<C: Context>(program: &high::ProgramFragment, context: &mut C) -> (r:
    SvirptiResult<low::ProgramFragment>)
    requires
        valid(program.procedure@),
    ensures
        match r {
            Ok(lowered_program) => {
                &&& first_undeclared(program.procedure@) is None
                &&& procedure_reads_declared(program.procedure@)
                &&& lowered_program@ == lowered::<C>(program.procedure@)
                &&& lowered_program.variables@.len() == program.procedure.variables@.len()
                    + write_count(program.procedure@)
                &&& lowered_program@.graph() == program.procedure@.graph()
                &&& lowered_program.uninterpreted_sorts@.len() == 0
                &&& lowered_program.functions@.len() == 0
                &&& lowered_program.axioms@.len() == 0
            },
            Err(error) => first_undeclared(program.procedure@) is Some && reports(
                error,
                first_undeclared(program.procedure@)->0,
            ),
        },
{
    let procedure = &program.procedure;
    let ghost p = procedure@;
    let ghost g = p.graph();
    let ghost order = walk_order(g);
    let ghost names = names_of(p.variables);
    proof {
        assert(graph_of(procedure.basic_blocks@) =~= g);
        lemma_walk_order(g);
        lemma_predecessors(g);
    }
    let count = procedure.basic_blocks.len();
    let predecessors = procedure.compute_predecessors();
    let mut all_variables = declare_first_versions(context, &procedure.variables);
    let mut variable_counters = make_zeros(procedure.variables.len());
    let mut after: Vec<Vec<usize>> = Vec::new();
    let mut basic_blocks: Vec<low::BasicBlock> = Vec::new();
    let mut b: usize = 0;
    while b < count
        invariant
            b <= count,
            after@.len() == b,
            basic_blocks@.len() == b,
            forall|i: int| 0 <= i < b ==> (#[trigger] after@[i])@ == Seq::<usize>::empty(),
            forall|i: int|
                0 <= i < b ==> (#[trigger] basic_blocks@[i])@ == (low::program::BlockView {
                    statements: Seq::empty(),
                    successors: Seq::empty(),
                }),
        decreases count - b,
    {
        after.push(Vec::new());
        let empty = low::BasicBlock { statements: Vec::new(), successors: Vec::new() };
        assert(empty@.statements =~= Seq::<StatementView>::empty());
        basic_blocks.push(empty);
        b += 1;
    }
    proof {
        let s = state_of(variable_counters@, after@, all_variables@, basic_blocks@);
        assert(s.after =~= lowering_start::<C>(p).after);
        assert(s.blocks =~= lowering_start::<C>(p).blocks);
    }
    let mut walker = procedure.walk();
    loop
        invariant
            valid(p),
            p == procedure@,
            p == program.procedure@,
            g == p.graph(),
            g == graph_of(procedure.basic_blocks@),
            order == walk_order(g),
            names == names_of(p.variables),
            count == procedure.basic_blocks@.len(),
            topological(g, 0, order),
            rows_of(predecessors@) == self::predecessors(g),
            self::predecessors(g).len() == g.len(),
            forall|u: int, v: int|
                0 <= u < g.len() && 0 <= v < g.len() ==> (#[trigger] has_edge(
                    self::predecessors(g),
                    v,
                    u,
                ) <==> has_edge(g, u, v)),
            edges_in_range(self::predecessors(g)),
            walker.wf(),
            walker.blocks() == procedure.basic_blocks@,
            walker.yielded().len() <= order.len(),
            walker.yielded() == order.take(walker.yielded().len() as int),
            state_of(variable_counters@, after@, all_variables@, basic_blocks@) == lower_along::<C>(
                p,
                order,
                walker.yielded().len() as int,
            ),
            state_fits(p, state_of(variable_counters@, after@, all_variables@, basic_blocks@)),
            forall|j: int|
                0 <= j < walker.yielded().len() ==> (#[trigger] after@[order[j] as int])@.len()
                    == p.variables.len(),
            forall|j: int|
                0 <= j < walker.yielded().len() ==> block_reads_declared(
                    names,
                    #[trigger] p.blocks[order[j] as int],
                ),
            first_undeclared_along(p, order, walker.yielded().len() as int) is None,
        ensures
            walker.yielded() == order,
        decreases order.len() - walker.yielded().len(),
    {
        let ghost done = walker.yielded().len() as int;
        match walker.next() {
            Some((id, _)) => {
                proof {
                    let row = self::predecessors(g)[id as int];
                    assert(row == predecessors@[id as int]@);
                    assert forall|k: int| 0 <= k < row.len() implies (#[trigger] row[k])
                        < after@.len() && after@[row[k] as int]@.len() == p.variables.len() by {
                        let u = row[k] as int;
                        assert(has_edge(self::predecessors(g), id as int, u));
                    }
                }
                match lower_basic_block(
                    context,
                    procedure,
                    &predecessors,
                    id,
                    &mut after,
                    &mut variable_counters,
                    &mut all_variables,
                    &mut basic_blocks,
                ) {
                    Ok(_) => {},
                    Err(error) => {
                        proof {
                            lemma_first_undeclared_stays(p, order, done + 1, order.len() as int);
                        }
                        return Err(error);
                    },
                }
                proof {
                    assert forall|j: int| 0 <= j < done + 1 implies (
                    #[trigger] after@[order[j] as int])@.len() == p.variables.len() by {}
                }
            },
            None => {
                break ;
            },
        }
    }
    proof {
        lemma_lowered_variable_count::<C>(p);
        lemma_lowered_graph::<C>(p);
        assert forall|v: int| 0 <= v < p.blocks.len() implies block_reads_declared(
            names,
            #[trigger] p.blocks[v],
        ) by {
            assert(seq_has(order, v));
        }
    }
    Ok(
        low::ProgramFragment {
            uninterpreted_sorts: Vec::new(),
            variables: all_variables,
            functions: Vec::new(),
            axioms: Vec::new(),
            basic_blocks,
        },
    )
}

/// Whether `program` can be lowered: its graph is well-formed and every
/// variable that it writes is declared.
pub fn validate(program: &high::ProgramFragment) -> (r: bool)
    ensures
        r == valid(program.procedure@),
{
    let procedure = &program.procedure;
    let ghost p = procedure@;
    let ghost names = names_of(p.variables);
    assert(graph_of(procedure.basic_blocks@) =~= p.graph());
    if !procedure.validate() {
        return false;
    }
    let mut b: usize = 0;
    while b < procedure.basic_blocks.len()
        invariant
            b <= procedure.basic_blocks@.len(),
            p == procedure@,
            procedure == &program.procedure,
            names == names_of(p.variables),
            well_formed(p.graph()),
            forall|i: int, j: int|
                0 <= i < b && 0 <= j < p.blocks[i].statements.len() ==> write_declared(
                    names,
                    #[trigger] p.blocks[i].statements[j],
                ),
        decreases procedure.basic_blocks@.len() - b,
    {
        let block = &procedure.basic_blocks[b];
        let mut j: usize = 0;
        while j < block.statements.len()
            invariant
                j <= block.statements@.len(),
                b < procedure.basic_blocks@.len(),
                p == procedure@,
                procedure == &program.procedure,
                names == names_of(p.variables),
                p.blocks[b as int] == block@,
                forall|i: int|
                    0 <= i < j ==> write_declared(names, #[trigger] p.blocks[b as int].statements[i]),
            decreases block.statements@.len() - j,
        {
            assert(p.blocks[b as int].statements[j as int] == block.statements@[j as int]@);
            let found = match &block.statements[j] {
                high::Statement::Havoc(statement) => find_variable(
                    &procedure.variables,
                    &statement.variable.name,
                ).is_some(),
                high::Statement::Assign(statement) => find_variable(
                    &procedure.variables,
                    &statement.variable.name,
                ).is_some(),
                _ => true,
            };
            if !found {
                return false;
            }
            j += 1;
        }
        b += 1;
    }
    true
}

} // verus!
