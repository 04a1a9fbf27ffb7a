//! How many variables a lowered program has.

use crate::common::cfg::{walk_order, well_formed};
use crate::common::order::{lemma_nodup_covers, lemma_walk_order, seq_has};
use crate::common::statement::{StatementView, VariableDeclView};
use crate::context::Context;
use crate::high::program::ProcedureView;
use crate::lower::program::{
    enter_block, joins, joins_for, lower_along, lower_statements_spec, lowered, max_version,
    BodyState,
};
use crate::lower::versions::index_of;
use vstd::prelude::*;

verus! {

/// How many of the first `k` of `statements` write a variable: assignments
/// and havocs.
pub open spec fn writes_in(statements: Seq<StatementView>, k: int) -> nat
    decreases k,
{
    if k <= 0 {
        0
    } else {
        writes_in(statements, k - 1) + if statements[k - 1].is_write() {
            1nat
        } else {
            0nat
        }
    }
}

/// For each block of `p`, the number of its assignments and havocs.
pub open spec fn block_writes(p: ProcedureView) -> Seq<nat> {
    Seq::new(
        p.blocks.len(),
        |b: int| writes_in(p.blocks[b].statements, p.blocks[b].statements.len() as int),
    )
}

/// The sum of the first `upto` of `weights`.
pub open spec fn sum_below(weights: Seq<nat>, upto: int) -> nat
    decreases upto,
{
    if upto <= 0 {
        0
    } else {
        sum_below(weights, upto - 1) + weights[upto - 1]
    }
}

/// The sum of the weights of the members of `order`.
pub open spec fn sum_along(weights: Seq<nat>, order: Seq<usize>) -> nat
    decreases order.len(),
{
    if order.len() == 0 {
        0
    } else {
        sum_along(weights, order.drop_last()) + weights[order.last() as int]
    }
}

/// The number of assignments and havocs of `p`.
pub open spec fn write_count(p: ProcedureView) -> nat {
    sum_below(block_writes(p), p.blocks.len() as int)
}

pub proof fn lemma_sum_without(weights: Seq<nat>, order: Seq<usize>, i: int)
    requires
        0 <= i < order.len(),
    ensures
        sum_along(weights, order) == sum_along(weights, order.remove(i)) + weights[order[i] as int],
    decreases order.len(),
{
    if !(i == order.len() - 1) {
        lemma_sum_without(weights, order.drop_last(), i);
        assert(order.drop_last().remove(i) =~= order.remove(i).drop_last());
    }
}

/// The weights of a list that holds each position once add up to the weights
/// of all positions.
pub proof fn lemma_sum_rearranged(weights: Seq<nat>, order: Seq<usize>, n: int)
    requires
        order.no_duplicates(),
        order.len() == n,
        forall|i: int| 0 <= i < order.len() ==> (#[trigger] order[i]) < n,
    ensures
        sum_along(weights, order) == sum_below(weights, n),
    decreases n,
{
    if n > 0 {
        lemma_nodup_covers(order, n as nat);
        assert(seq_has(order, n - 1));
        let i = choose|i: int| 0 <= i < order.len() && order[i] == n - 1;
        let rest = order.remove(i);
        lemma_sum_without(weights, order, i);
        assert forall|a: int| 0 <= a < rest.len() implies (#[trigger] rest[a]) < n - 1 by {}
        lemma_sum_rearranged(weights, rest, n - 1);
    }
}

pub proof fn lemma_statements_count<C: Context>(
    decls: Seq<VariableDeclView>,
    s: BodyState,
    statements: Seq<StatementView>,
    k: int,
)
    ensures
        lower_statements_spec::<C>(decls, s, statements, k).variables.len() == s.variables.len()
            + writes_in(statements, k),
    decreases k,
{
    if k > 0 {
        lemma_statements_count::<C>(decls, s, statements, k - 1);
    }
}

pub proof fn lemma_along_count<C: Context>(p: ProcedureView, order: Seq<usize>, k: int)
    requires
        0 <= k <= order.len(),
        forall|i: int| 0 <= i < order.len() ==> (#[trigger] order[i]) < p.blocks.len(),
    ensures
        lower_along::<C>(p, order, k).variables.len() == p.variables.len() + sum_along(
            block_writes(p),
            order.take(k),
        ),
    decreases k,
{
    if k > 0 {
        lemma_along_count::<C>(p, order, k - 1);
        let b = order[k - 1] as int;
        let s = lower_along::<C>(p, order, k - 1);
        lemma_statements_count::<C>(
            p.variables,
            enter_block::<C>(p, s, b),
            p.blocks[b].statements,
            p.blocks[b].statements.len() as int,
        );
        assert(order.take(k).drop_last() =~= order.take(k - 1));
    }
}

/// A lowered program has a variable for each variable of the procedure that
/// it was made from, and one more for each of its assignments and havocs.
pub proof fn lemma_lowered_variable_count<C: Context>(p: ProcedureView)
    requires
        well_formed(p.graph()),
    ensures
        lowered::<C>(p).variables.len() == p.variables.len() + write_count(p),
{
    let order = walk_order(p.graph());
    lemma_walk_order(p.graph());
    lemma_along_count::<C>(p, order, order.len() as int);
    assert(order.take(order.len() as int) =~= order);
    lemma_sum_rearranged(block_writes(p), order, p.blocks.len() as int);
}

pub proof fn lemma_along_successors<C: Context>(p: ProcedureView, order: Seq<usize>, k: int)
    requires
        0 <= k <= order.len(),
        forall|i: int| 0 <= i < order.len() ==> (#[trigger] order[i]) < p.blocks.len(),
    ensures
        lower_along::<C>(p, order, k).blocks.len() == p.blocks.len(),
        forall|j: int|
            0 <= j < k ==> (#[trigger] lower_along::<C>(p, order, k).blocks[order[j] as int]).successors
                == p.blocks[order[j] as int].successors,
    decreases k,
{
    if k > 0 {
        lemma_along_successors::<C>(p, order, k - 1);
        assert forall|j: int| 0 <= j < k implies (#[trigger] lower_along::<C>(
            p,
            order,
            k,
        ).blocks[order[j] as int]).successors == p.blocks[order[j] as int].successors by {}
    }
}

/// A lowered program has the graph of the procedure that it was made from.
pub proof fn lemma_lowered_graph<C: Context>(p: ProcedureView)
    requires
        well_formed(p.graph()),
    ensures
        lowered::<C>(p).graph() == p.graph(),
{
    let order = walk_order(p.graph());
    lemma_walk_order(p.graph());
    lemma_along_successors::<C>(p, order, order.len() as int);
    let low = lowered::<C>(p);
    assert forall|b: int| 0 <= b < p.blocks.len() implies low.blocks[b].successors
        == p.blocks[b].successors by {
        assert(seq_has(order, b));
    }
}

/// None of `statements` is an assertion.
pub open spec fn no_assertion(statements: Seq<StatementView>) -> bool {
    forall|j: int| 0 <= j < statements.len() ==> !(#[trigger] statements[j] is Assert)
}

pub proof fn lemma_joins_for_assume<C: Context>(
    name: Seq<char>,
    index: int,
    preds: Seq<usize>,
    after: Seq<Seq<usize>>,
    version: usize,
    k: int,
)
    ensures
        no_assertion(joins_for::<C>(name, index, preds, after, version, k)),
    decreases k,
{
    if k > 0 {
        lemma_joins_for_assume::<C>(name, index, preds, after, version, k - 1);
    }
}

pub proof fn lemma_joins_assume<C: Context>(
    names: Seq<Seq<char>>,
    preds: Seq<usize>,
    after: Seq<Seq<usize>>,
    i: int,
)
    ensures
        no_assertion(joins::<C>(names, preds, after, i)),
    decreases i,
{
    if i > 0 {
        lemma_joins_assume::<C>(names, preds, after, i - 1);
        let index = index_of(names, names[i - 1]);
        lemma_joins_for_assume::<C>(
            names[i - 1],
            index,
            preds,
            after,
            max_version(preds, after, index, preds.len() as int),
            preds.len() as int,
        );
    }
}

pub proof fn lemma_statements_assume<C: Context>(
    decls: Seq<VariableDeclView>,
    s: BodyState,
    statements: Seq<StatementView>,
    k: int,
)
    requires
        0 <= k <= statements.len(),
        no_assertion(s.statements),
        no_assertion(statements),
    ensures
        no_assertion(lower_statements_spec::<C>(decls, s, statements, k).statements),
    decreases k,
{
    if k > 0 {
        lemma_statements_assume::<C>(decls, s, statements, k - 1);
    }
}

pub proof fn lemma_along_assume<C: Context>(p: ProcedureView, order: Seq<usize>, k: int)
    requires
        0 <= k <= order.len(),
        forall|i: int| 0 <= i < order.len() ==> (#[trigger] order[i]) < p.blocks.len(),
        forall|b: int| 0 <= b < p.blocks.len() ==> no_assertion((#[trigger] p.blocks[b]).statements),
    ensures
        lower_along::<C>(p, order, k).blocks.len() == p.blocks.len(),
        forall|b: int|
            0 <= b < p.blocks.len() ==> no_assertion(
                (#[trigger] lower_along::<C>(p, order, k).blocks[b]).statements,
            ),
    decreases k,
{
    if k > 0 {
        lemma_along_assume::<C>(p, order, k - 1);
        let s = lower_along::<C>(p, order, k - 1);
        let b = order[k - 1] as int;
        let names = crate::lower::versions::names_of(p.variables);
        lemma_joins_assume::<C>(
            names,
            crate::common::cfg::predecessors(p.graph())[b],
            s.after,
            names.len() as int,
        );
        let entered = enter_block::<C>(p, s, b);
        lemma_statements_assume::<C>(
            p.variables,
            entered,
            p.blocks[b].statements,
            p.blocks[b].statements.len() as int,
        );
    }
}

/// A procedure without assertions is lowered to a program without
/// assertions.
pub proof fn lemma_lowered_without_assertions<C: Context>(p: ProcedureView)
    requires
        well_formed(p.graph()),
        forall|b: int| 0 <= b < p.blocks.len() ==> no_assertion((#[trigger] p.blocks[b]).statements),
    ensures
        forall|b: int|
            0 <= b < lowered::<C>(p).blocks.len() ==> no_assertion(
                (#[trigger] lowered::<C>(p).blocks[b]).statements,
            ),
{
    let order = walk_order(p.graph());
    lemma_walk_order(p.graph());
    lemma_along_assume::<C>(p, order, order.len() as int);
}

} // verus!
