//! Why a reconstructed trace is a path of the program from its entry to
//! the block of the failing assertion.

use crate::common::cfg::{has_edge, in_degree, walk_order, well_formed, Graph};
use crate::common::expression::Name;
use crate::common::order::{
    before, lemma_occurrences_some, lemma_some_predecessor, lemma_walk_order, topological,
};
use crate::common::statement::StatementView;
use crate::low::program::{BlockView, ProgramView};
use crate::wp::trace::{
    offer, path_back, reconstructed, scan, trace_start, visit_along, ScanState, TraceState,
};
use vstd::prelude::*;

verus! {

/// One of the statements of `block` has the label `label`.
pub open spec fn has_label(block: BlockView, label: Name) -> bool {
    exists|j: int| 0 <= j < block.statements.len() && (#[trigger] block.statements[j]).label() == Some(label)
}

/// The block that control came from to `t`, if there is one, is one of the
/// first `k` of `order` and has an edge to `t`.
pub open spec fn parent_ok(g: Graph, order: Seq<usize>, k: int, s: TraceState, t: int) -> bool {
    match s.came_from[t] {
        Some(a) => a < g.len() && before(order, k, a as int) && has_edge(g, a as int, t),
        None => true,
    }
}

/// A block that expects control knows where it comes from.
pub open spec fn linked(s: TraceState, t: int) -> bool {
    s.expected[t] is Some ==> s.came_from[t] is Some
}

/// Every successor of the first `m` of `order` knows where control comes
/// from.
pub open spec fn offered_upto(g: Graph, order: Seq<usize>, s: TraceState, m: int) -> bool {
    forall|j: int, t: int|
        0 <= j < m && #[trigger] has_edge(g, order[j] as int, t) ==> s.came_from[t] is Some
}

/// What holds after `k` blocks of `order` were visited.
pub open spec fn trace_inv(
    p: ProgramView,
    failing: Name,
    order: Seq<usize>,
    k: int,
    s: TraceState,
) -> bool {
    let g = p.graph();
    &&& s.expected.len() == g.len()
    &&& s.came_from.len() == g.len()
    &&& s.came_from[0] is None
    &&& forall|t: int| 0 <= t < g.len() ==> #[trigger] parent_ok(g, order, k, s, t)
    &&& forall|t: int| 1 <= t < g.len() ==> #[trigger] linked(s, t)
    &&& match s.final_block {
        Some(last) => exists|at: int|
            0 <= at < k && #[trigger] order[at] == last && has_label(p.blocks[last as int], failing)
                && offered_upto(g, order, s, at),
        None => offered_upto(g, order, s, k),
    }
}

/// Where the failing label is met, a statement has it.
pub proof fn lemma_scan_found(
    trace: Seq<Name>,
    failing: Name,
    s: ScanState,
    statements: Seq<StatementView>,
    k: int,
)
    requires
        0 <= k <= statements.len(),
        !s.found,
        scan(trace, failing, s, statements, k).found,
    ensures
        exists|j: int| 0 <= j < k && (#[trigger] statements[j]).label() == Some(failing),
    decreases k,
{
    if k > 0 {
        let before_last = scan(trace, failing, s, statements, k - 1);
        if before_last.found {
            lemma_scan_found(trace, failing, s, statements, k - 1);
        }
    }
}

/// What an offer changes: a successor may get the offering block as the
/// block that control comes from, and nothing else changes.
pub proof fn lemma_offer(s: TraceState, from: usize, progress: usize, successors: Seq<usize>, k: int)
    requires
        0 <= k <= successors.len(),
        s.expected.len() == s.came_from.len(),
    ensures
        ({
            let r = offer(s, from, progress, successors, k);
            &&& r.expected.len() == s.expected.len()
            &&& r.came_from.len() == s.came_from.len()
            &&& r.final_block == s.final_block
            &&& forall|t: int|
                0 <= t < s.came_from.len() ==> (#[trigger] r.came_from[t]) == s.came_from[t] || (
                r.came_from[t] == Some(from) && r.expected[t] is Some && exists|i: int|
                    0 <= i < k && #[trigger] successors[i] == t)
            &&& forall|t: int|
                0 <= t < s.came_from.len() && s.expected[t] is Some ==> (
                #[trigger] r.expected[t]) is Some
            &&& forall|t: int|
                0 <= t < s.came_from.len() ==> (#[trigger] r.expected[t]) == s.expected[t]
                    || r.came_from[t] == Some(from)
            &&& forall|i: int|
                0 <= i < k && successors[i] < s.expected.len() ==> r.expected[(
                #[trigger] successors[i]) as int] is Some
        }),
    decreases k,
{
    if k > 0 {
        lemma_offer(s, from, progress, successors, k - 1);
        let q = offer(s, from, progress, successors, k - 1);
        let r = offer(s, from, progress, successors, k);
        assert forall|t: int| 0 <= t < s.came_from.len() implies (#[trigger] r.came_from[t])
            == s.came_from[t] || (r.came_from[t] == Some(from) && r.expected[t] is Some && exists|
            i: int,
        | 0 <= i < k && #[trigger] successors[i] == t) by {}
        assert forall|i: int| 0 <= i < k && successors[i] < s.expected.len() implies r.expected[(
        #[trigger] successors[i]) as int] is Some by {}
    }
}

/// Visiting a block keeps `trace_inv`.
pub proof fn lemma_visit_inv(p: ProgramView, trace: Seq<Name>, failing: Name, order: Seq<usize>, k: int)
    requires
        well_formed(p.graph()),
        topological(p.graph(), 0, order),
        0 <= k < order.len(),
        trace_inv(p, failing, order, k, visit_along(p, trace, failing, order, k)),
    ensures
        trace_inv(p, failing, order, k + 1, visit_along(p, trace, failing, order, k + 1)),
{
    let g = p.graph();
    let s = visit_along(p, trace, failing, order, k);
    let b = order[k] as int;
    let r = visit_along(p, trace, failing, order, k + 1);
    assert forall|t: int| 0 <= t < g.len() && parent_ok(g, order, k, s, t) implies parent_ok(
        g,
        order,
        k + 1,
        s,
        t,
    ) by {}
    if s.final_block is Some {
        assert forall|t: int| 0 <= t < g.len() implies #[trigger] parent_ok(g, order, k + 1, r, t) by {
            assert(parent_ok(g, order, k, s, t));
        }
    } else {
        let begin = match s.expected[b] {
            Some(progress) => progress,
            None => 0,
        };
        let statements = p.blocks[b].statements;
        let scanned = scan(
            trace,
            failing,
            ScanState { progress: begin, found: false },
            statements,
            statements.len() as int,
        );
        if scanned.found {
            lemma_scan_found(
                trace,
                failing,
                ScanState { progress: begin, found: false },
                statements,
                statements.len() as int,
            );
            assert forall|t: int| 0 <= t < g.len() implies #[trigger] parent_ok(
                g,
                order,
                k + 1,
                r,
                t,
            ) by {
                assert(parent_ok(g, order, k, s, t));
            }
            assert forall|t: int| 1 <= t < g.len() implies #[trigger] linked(r, t) by {
                assert(linked(s, t));
            }
        } else {
            let successors = p.blocks[b].successors;
            assert(successors == g[b]);
            lemma_offer(s, b as usize, scanned.progress, successors, successors.len() as int);
            assert(r.came_from[0] is None);
            assert forall|t: int| 0 <= t < g.len() implies #[trigger] parent_ok(
                g,
                order,
                k + 1,
                r,
                t,
            ) by {
                assert(parent_ok(g, order, k, s, t));
            }
            assert forall|t: int| 1 <= t < g.len() implies #[trigger] linked(r, t) by {
                assert(linked(s, t));
            }
            assert forall|j: int, t: int|
                0 <= j < k + 1 && #[trigger] has_edge(g, order[j] as int, t) implies r.came_from[t] is Some by {
                if !(j < k) {
                    assert(linked(r, t));
                }
            }
        }
    }
}

/// `trace_inv` holds after any number of blocks.
pub proof fn lemma_visit_along_inv(
    p: ProgramView,
    trace: Seq<Name>,
    failing: Name,
    order: Seq<usize>,
    k: int,
)
    requires
        well_formed(p.graph()),
        topological(p.graph(), 0, order),
        0 <= k <= order.len(),
    ensures
        trace_inv(p, failing, order, k, visit_along(p, trace, failing, order, k)),
    decreases k,
{
    let g = p.graph();
    if k == 0 {
        let s = trace_start(p.blocks.len());
        assert forall|t: int| 0 <= t < g.len() implies #[trigger] parent_ok(g, order, k, s, t) by {}
        assert forall|t: int| 1 <= t < g.len() implies #[trigger] linked(s, t) by {}
    } else {
        lemma_visit_along_inv(p, trace, failing, order, k - 1);
        lemma_visit_inv(p, trace, failing, order, k - 1);
    }
}

/// Each block of `path` but the last came from the next one.
pub open spec fn chained(came_from: Seq<Option<usize>>, path: Seq<usize>) -> bool {
    forall|i: int| 0 <= i < path.len() - 1 ==> came_from[(#[trigger] path[i]) as int] == Some(path[i + 1])
}

/// The way back ends at a block that control came to from nowhere, and each
/// of its steps goes to the block that control came from.
pub proof fn lemma_path_back(
    g: Graph,
    order: Seq<usize>,
    s: TraceState,
    path: Seq<usize>,
    fuel: nat,
    at: int,
)
    requires
        topological(g, 0, order),
        s.came_from.len() == g.len(),
        forall|t: int| 0 <= t < g.len() ==> #[trigger] parent_ok(g, order, order.len() as int, s, t),
        path.len() > 0,
        chained(s.came_from, path),
        0 <= at < fuel,
        at < order.len(),
        order[at] == path.last(),
    ensures
        ({
            let r = path_back(s.came_from, path, fuel);
            &&& r.len() >= path.len()
            &&& r[0] == path[0]
            &&& chained(s.came_from, r)
            &&& s.came_from[r.last() as int] is None
            &&& exists|end: int| 0 <= end <= at && #[trigger] order[end] == r.last()
        }),
    decreases fuel,
{
    let current = path.last() as int;
    match s.came_from[current] {
        Some(block) => {
            assert(parent_ok(g, order, order.len() as int, s, current));
            let earlier = choose|j: int| 0 <= j < at && #[trigger] order[j] == block;
            let longer = path.push(block);
            assert forall|i: int| 0 <= i < longer.len() - 1 implies s.came_from[(
            #[trigger] longer[i]) as int] == Some(longer[i + 1]) by {}
            lemma_path_back(g, order, s, longer, (fuel - 1) as nat, earlier);
        },
        None => {},
    }
}

/// A reconstructed trace is a path of the program: it begins at the entry,
/// each of its steps is an edge, and it ends at a block that has the failing
/// label on one of its statements.
pub proof fn lemma_reconstructed_path(p: ProgramView, trace: Seq<Name>, failing: Name)
    requires
        well_formed(p.graph()),
        reconstructed(p, trace, failing) is Some,
    ensures
        ({
            let path = reconstructed(p, trace, failing)->0;
            &&& path.len() > 0
            &&& path[0] == 0
            &&& forall|i: int| 0 <= i < path.len() ==> (#[trigger] path[i]) < p.blocks.len()
            &&& has_label(p.blocks[path.last() as int], failing)
            &&& forall|i: int|
                0 <= i < path.len() - 1 ==> has_edge(p.graph(), #[trigger] path[i] as int, path[i + 1] as int)
        }),
{
    let g = p.graph();
    let order = walk_order(g);
    let n = order.len() as int;
    lemma_walk_order(g);
    lemma_visit_along_inv(p, trace, failing, order, n);
    let s = visit_along(p, trace, failing, order, n);
    let last = s.final_block->0;
    let at = choose|at: int|
        0 <= at < n && #[trigger] order[at] == last && has_label(p.blocks[last as int], failing)
            && offered_upto(g, order, s, at);
    lemma_path_back(g, order, s, seq![last], p.blocks.len(), at);
    let back = path_back(s.came_from, seq![last], p.blocks.len());
    let path = back.reverse();
    let end = choose|end: int| 0 <= end <= at && #[trigger] order[end] == back.last();
    let first = back.last() as int;
    if first != 0 {
        assert(in_degree(g, first) > 0);
        let u = lemma_some_predecessor(g, first, g.len() as int);
        let i = lemma_occurrences_some(g[u], first);
        assert(has_edge(g, u, order[end] as int));
    }
    assert forall|i: int| 0 <= i < path.len() - 1 implies has_edge(
        g,
        #[trigger] path[i] as int,
        path[i + 1] as int,
    ) by {
        let k = back.len() - 2 - i;
        lemma_chain_in_range(g, order, s, back, k);
        assert(parent_ok(g, order, n, s, back[k] as int));
    }
}

/// Every block of a chain that begins at a block of the graph is a block of
/// the graph.
pub proof fn lemma_chain_in_range(g: Graph, order: Seq<usize>, s: TraceState, path: Seq<usize>, k: int)
    requires
        s.came_from.len() == g.len(),
        forall|t: int| 0 <= t < g.len() ==> #[trigger] parent_ok(g, order, order.len() as int, s, t),
        chained(s.came_from, path),
        0 <= k < path.len(),
        path[0] < g.len(),
    ensures
        path[k] < g.len(),
    decreases k,
{
    if k > 0 {
        lemma_chain_in_range(g, order, s, path, k - 1);
        assert(parent_ok(g, order, order.len() as int, s, path[k - 1] as int));
    }
}

} // verus!
