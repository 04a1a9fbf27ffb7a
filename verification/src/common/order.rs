//! Why a walk of a well-formed graph yields every block once and each block
//! only after the blocks before it.

use crate::common::cfg::{
    acyclic, add_edges, degrees_fit, edges_in_range, has_edge, in_degree, in_degree_below,
    in_degrees, lemma_occurrences_prefix, lemma_run_visited, lemma_step_visited, occurrences,
    out_degrees, predecessors, predecessors_below, ranks, release, reverse_walk_order, run, start,
    step, walk_from, walk_order, well_formed, Graph, WalkState,
};
use vstd::prelude::*;

verus! {

/// `x` is one of `s`.
pub open spec fn seq_has(s: Seq<usize>, x: int) -> bool {
    exists|j: int| 0 <= j < s.len() && #[trigger] s[j] == x
}

/// `u` is among the first `i` of `order`.
pub open spec fn before(order: Seq<usize>, i: int, u: int) -> bool {
    exists|j: int| 0 <= j < i && #[trigger] order[j] == u
}

/// `order` lists every block of `g` once, `first` first, and each block only
/// after all the blocks with an edge to it.
pub open spec fn topological(g: Graph, first: int, order: Seq<usize>) -> bool {
    &&& order.len() == g.len()
    &&& order.no_duplicates()
    &&& forall|i: int| 0 <= i < order.len() ==> (#[trigger] order[i]) < g.len()
    &&& forall|v: int| 0 <= v < g.len() ==> seq_has(order, v)
    &&& order.len() > 0 ==> order[0] == first
    &&& forall|i: int, u: int|
        0 <= i < order.len() && #[trigger] has_edge(g, u, order[i] as int) ==> before(order, i, u)
}

/// What a walk needs of the lists that it follows: `first` is a block that
/// no edge leads to, and every other block has an edge into it.
pub open spec fn walk_ready(a: Graph, first: int) -> bool {
    &&& 0 <= first < a.len() <= usize::MAX
    &&& edges_in_range(a)
    &&& forall|u: int, k: int| 0 <= u < a.len() && 0 <= k < a[u].len() ==> #[trigger] a[u][k] != first
    &&& forall|v: int| 0 <= v < a.len() && v != first ==> #[trigger] in_degree(a, v) > 0
    &&& degrees_fit(a)
}

/// The number of edges into `v` from the blocks below `upto` that are not in
/// `visited`.
pub open spec fn pending_below(a: Graph, v: int, visited: Seq<usize>, upto: int) -> nat
    decreases upto,
{
    if upto <= 0 {
        0
    } else {
        pending_below(a, v, visited, upto - 1) + if seq_has(visited, upto - 1) {
            0nat
        } else {
            occurrences(a[upto - 1], v)
        }
    }
}

/// The number of edges into `v` from blocks that are not in `visited`.
pub open spec fn pending(a: Graph, v: int, visited: Seq<usize>) -> nat {
    pending_below(a, v, visited, a.len() as int)
}

/// What holds of a walk between two blocks.
pub open spec fn walk_inv(a: Graph, s: WalkState) -> bool {
    &&& s.counts.len() == a.len()
    &&& forall|i: int| 0 <= i < s.queue.len() ==> (#[trigger] s.queue[i]) < a.len()
    &&& forall|i: int| 0 <= i < s.visited.len() ==> (#[trigger] s.visited[i]) < a.len()
    &&& (s.visited + s.queue).no_duplicates()
    &&& forall|v: int| 0 <= v < a.len() ==> (#[trigger] s.counts[v]) == pending(a, v, s.visited)
    &&& forall|i: int| 0 <= i < s.queue.len() ==> s.counts[(#[trigger] s.queue[i]) as int] == 0
    &&& forall|v: int|
        0 <= v < a.len() && #[trigger] s.counts[v] == 0 && !seq_has(s.visited, v) ==> seq_has(
            s.queue,
            v,
        )
    &&& forall|i: int, u: int|
        0 <= i < s.visited.len() && #[trigger] has_edge(a, u, s.visited[i] as int) ==> before(
            s.visited,
            i,
            u,
        )
}

/// What holds of a walk while the neighbours of the block `u` that it has
/// just yielded have their counts lowered: `old` is the state before `u` left
/// the queue, `s` the state after `k` neighbours.
pub open spec fn release_inv(a: Graph, old: WalkState, u: int, s: WalkState, k: int) -> bool {
    &&& 0 <= k <= a[u].len()
    &&& s.counts.len() == a.len()
    &&& s.visited == old.visited.push(u as usize)
    &&& forall|i: int| 0 <= i < s.queue.len() ==> (#[trigger] s.queue[i]) < a.len()
    &&& (s.visited + s.queue).no_duplicates()
    &&& forall|v: int|
        0 <= v < a.len() ==> (#[trigger] s.counts[v]) + occurrences(a[u].take(k), v) == pending(
            a,
            v,
            old.visited,
        )
    &&& forall|i: int| 0 <= i < s.queue.len() ==> s.counts[(#[trigger] s.queue[i]) as int] == 0
    &&& forall|v: int|
        0 <= v < a.len() && #[trigger] s.counts[v] == 0 && !seq_has(s.visited, v) ==> seq_has(
            s.queue,
            v,
        )
}

pub proof fn lemma_occurrences_found(s: Seq<usize>, k: int)
    requires
        0 <= k < s.len(),
    ensures
        occurrences(s, s[k] as int) > 0,
    decreases s.len(),
{
    if k < s.len() - 1 {
        lemma_occurrences_found(s.drop_last(), k);
    }
}

pub proof fn lemma_occurrences_none(s: Seq<usize>, v: int)
    requires
        forall|k: int| 0 <= k < s.len() ==> s[k] != v,
    ensures
        occurrences(s, v) == 0,
    decreases s.len(),
{
    if s.len() > 0 {
        lemma_occurrences_none(s.drop_last(), v);
    }
}

pub proof fn lemma_occurrences_step(s: Seq<usize>, k: int, v: int)
    requires
        0 <= k < s.len(),
    ensures
        occurrences(s.take(k + 1), v) == occurrences(s.take(k), v) + if s[k] == v {
            1nat
        } else {
            0nat
        },
{
    assert(s.take(k + 1).drop_last() =~= s.take(k));
}

pub proof fn lemma_pending_none_visited(a: Graph, v: int, upto: int)
    ensures
        pending_below(a, v, Seq::<usize>::empty(), upto) == in_degree_below(a, v, upto),
    decreases upto,
{
    if upto > 0 {
        lemma_pending_none_visited(a, v, upto - 1);
    }
}

/// Yielding a block takes its edges out of what is pending.
pub proof fn lemma_pending_visit(a: Graph, v: int, visited: Seq<usize>, u: usize, upto: int)
    requires
        !seq_has(visited, u as int),
    ensures
        pending_below(a, v, visited.push(u), upto) + (if u < upto {
            occurrences(a[u as int], v)
        } else {
            0nat
        }) == pending_below(a, v, visited, upto),
    decreases upto,
{
    if upto > 0 {
        lemma_pending_visit(a, v, visited, u, upto - 1);
        let w = upto - 1;
        if seq_has(visited, w) {
            let j = choose|j: int| 0 <= j < visited.len() && visited[j] == w;
            assert(visited.push(u)[j] == w);
        }
        if w == u {
            assert(visited.push(u)[visited.len() as int] == u);
        }
    }
}

/// Where nothing is pending for `v`, every block with an edge to `v` was
/// yielded.
pub proof fn lemma_pending_zero(a: Graph, v: int, visited: Seq<usize>, upto: int, u: int)
    requires
        pending_below(a, v, visited, upto) == 0,
        0 <= u < upto,
        !seq_has(visited, u),
    ensures
        occurrences(a[u], v) == 0,
    decreases upto,
{
    if u < upto - 1 {
        lemma_pending_zero(a, v, visited, upto - 1, u);
    }
}

/// Where every block with an edge to `v` was yielded, nothing is pending for
/// `v`.
pub proof fn lemma_pending_all_visited(a: Graph, v: int, visited: Seq<usize>, upto: int)
    requires
        upto <= a.len(),
        forall|u: int| 0 <= u < upto && has_edge(a, u, v) ==> seq_has(visited, u),
    ensures
        pending_below(a, v, visited, upto) == 0,
    decreases upto,
{
    if upto > 0 {
        lemma_pending_all_visited(a, v, visited, upto - 1);
        let w = upto - 1;
        if !seq_has(visited, w) {
            lemma_occurrences_none(a[w], v);
        }
    }
}

/// A walk starts in a state of which `walk_inv` holds.
pub proof fn lemma_start_inv(a: Graph, first: int)
    requires
        walk_ready(a, first),
    ensures
        walk_inv(a, start(in_degrees(a), first as usize)),
{
    let s = start(in_degrees(a), first as usize);
    assert forall|v: int| 0 <= v < a.len() implies (#[trigger] s.counts[v]) == pending(
        a,
        v,
        s.visited,
    ) by {
        lemma_pending_none_visited(a, v, a.len() as int);
    }
    assert(pending(a, first, s.visited) == 0) by {
        assert forall|u: int| 0 <= u < a.len() && has_edge(a, u, first) implies seq_has(
            s.visited,
            u,
        ) by {}
        lemma_pending_all_visited(a, first, s.visited, a.len() as int);
    }
    assert forall|v: int|
        0 <= v < a.len() && #[trigger] s.counts[v] == 0 && !seq_has(s.visited, v) implies seq_has(
        s.queue,
        v,
    ) by {
        assert(s.queue[0] == first);
    }
}

/// Taking the block at the front of the queue begins the lowering of counts.
pub proof fn lemma_release_start(a: Graph, old: WalkState)
    requires
        edges_in_range(a),
        walk_inv(a, old),
        old.queue.len() > 0,
    ensures
        release_inv(
            a,
            old,
            old.queue[0] as int,
            WalkState {
                counts: old.counts,
                queue: old.queue.subrange(1, old.queue.len() as int),
                visited: old.visited.push(old.queue[0]),
            },
            0,
        ),
{
    let u = old.queue[0];
    let s = WalkState {
        counts: old.counts,
        queue: old.queue.subrange(1, old.queue.len() as int),
        visited: old.visited.push(u),
    };
    assert(s.visited + s.queue =~= old.visited + old.queue);
    assert forall|v: int|
        0 <= v < a.len() && #[trigger] s.counts[v] == 0 && !seq_has(s.visited, v) implies seq_has(
        s.queue,
        v,
    ) by {
        if seq_has(old.visited, v) {
            let j = choose|j: int| 0 <= j < old.visited.len() && old.visited[j] == v;
            assert(s.visited[j] == v);
        }
        let j = choose|j: int| 0 <= j < old.queue.len() && old.queue[j] == v;
        if j == 0 {
            assert(s.visited[old.visited.len() as int] == v);
        } else {
            assert(s.queue[j - 1] == v);
        }
    }
}

/// Lowering the count of one more neighbour keeps `release_inv`.
pub proof fn lemma_release_step(a: Graph, old: WalkState, u: int, s: WalkState, k: int)
    requires
        edges_in_range(a),
        degrees_fit(a),
        walk_inv(a, old),
        old.queue.len() > 0,
        u == old.queue[0],
        release_inv(a, old, u, s, k),
        k < a[u].len(),
    ensures
        ({
            let v = a[u][k];
            &&& v < s.counts.len()
            &&& s.counts[v as int] > 0
            &&& release_inv(
                a,
                old,
                u,
                WalkState {
                    counts: s.counts.update(v as int, (s.counts[v as int] - 1) as usize),
                    queue: if s.counts[v as int] == 1 {
                        s.queue.push(v)
                    } else {
                        s.queue
                    },
                    visited: s.visited,
                },
                k + 1,
            )
        }),
{
    let v = a[u][k];
    let row = a[u];
    // `u` is not yielded before this step, so its edges are all pending.
    assert(!seq_has(old.visited, u)) by {
        if seq_has(old.visited, u) {
            let j = choose|j: int| 0 <= j < old.visited.len() && old.visited[j] == u;
            let both = old.visited + old.queue;
            assert(both[j] == u);
            assert(both[old.visited.len() as int] == u);
        }
    }
    assert forall|w: int| 0 <= w < a.len() implies occurrences(row, w) <= pending(
        a,
        w,
        old.visited,
    ) by {
        lemma_pending_visit(a, w, old.visited, u as usize, a.len() as int);
    }
    lemma_occurrences_step(row, k, v as int);
    lemma_occurrences_prefix(row, k + 1, v as int);
    let c = (s.counts[v as int] - 1) as usize;
    let t = WalkState {
        counts: s.counts.update(v as int, c),
        queue: if c == 0 {
            s.queue.push(v)
        } else {
            s.queue
        },
        visited: s.visited,
    };
    assert forall|w: int| 0 <= w < a.len() implies (#[trigger] t.counts[w]) + occurrences(
        row.take(k + 1),
        w,
    ) == pending(a, w, old.visited) by {
        lemma_occurrences_step(row, k, w);
    }
    // `v` is neither yielded nor queued.
    assert(!seq_has(s.queue, v as int));
    assert(!seq_has(s.visited, v as int)) by {
        if seq_has(s.visited, v as int) {
            let j = choose|j: int| 0 <= j < s.visited.len() && s.visited[j] == v;
            if j < old.visited.len() {
                assert(has_edge(a, u, old.visited[j] as int));
            }
        }
    }
    if c == 0 {
        let both = t.visited + t.queue;
        assert(both =~= (s.visited + s.queue).push(v));
    }
    assert forall|w: int|
        0 <= w < a.len() && #[trigger] t.counts[w] == 0 && !seq_has(t.visited, w) implies seq_has(
        t.queue,
        w,
    ) by {
        if w == v {
            assert(t.queue[s.queue.len() as int] == v);
        } else {
            let j = choose|j: int| 0 <= j < s.queue.len() && s.queue[j] == w;
            assert(t.queue[j] == w);
        }
    }
}

/// Lowering the counts of the first `k` neighbours of the block just yielded
/// keeps `release_inv`, and no count is found at zero on the way.
pub proof fn lemma_release_inv(a: Graph, old: WalkState, k: int)
    requires
        edges_in_range(a),
        degrees_fit(a),
        walk_inv(a, old),
        old.queue.len() > 0,
        0 <= k <= a[old.queue[0] as int].len(),
    ensures
        release_inv(
            a,
            old,
            old.queue[0] as int,
            release(
                a[old.queue[0] as int],
                WalkState {
                    counts: old.counts,
                    queue: old.queue.subrange(1, old.queue.len() as int),
                    visited: old.visited.push(old.queue[0]),
                },
                k,
            ),
            k,
        ),
    decreases k,
{
    let u = old.queue[0];
    let popped = WalkState {
        counts: old.counts,
        queue: old.queue.subrange(1, old.queue.len() as int),
        visited: old.visited.push(u),
    };
    if k == 0 {
        lemma_release_start(a, old);
    } else {
        lemma_release_inv(a, old, k - 1);
        lemma_release_step(a, old, u as int, release(a[u as int], popped, k - 1), k - 1);
    }
}

/// Yielding one block keeps `walk_inv`.
pub proof fn lemma_step_inv(a: Graph, old: WalkState)
    requires
        edges_in_range(a),
        degrees_fit(a),
        walk_inv(a, old),
        old.queue.len() > 0,
    ensures
        walk_inv(a, step(a, old)),
{
    let u = old.queue[0];
    let row = a[u as int];
    let s = step(a, old);
    lemma_release_inv(a, old, row.len() as int);
    assert(row.take(row.len() as int) =~= row);
    assert(!seq_has(old.visited, u as int)) by {
        if seq_has(old.visited, u as int) {
            let j = choose|j: int| 0 <= j < old.visited.len() && old.visited[j] == u;
            let both = old.visited + old.queue;
            assert(both[j] == u);
            assert(both[old.visited.len() as int] == u);
        }
    }
    assert forall|v: int| 0 <= v < a.len() implies (#[trigger] s.counts[v]) == pending(
        a,
        v,
        s.visited,
    ) by {
        lemma_pending_visit(a, v, old.visited, u, a.len() as int);
    }
    assert forall|i: int| 0 <= i < s.visited.len() implies (#[trigger] s.visited[i]) < a.len() by {}
    assert forall|i: int, w: int|
        0 <= i < s.visited.len() && #[trigger] has_edge(a, w, s.visited[i] as int) implies before(
        s.visited,
        i,
        w,
    ) by {
        if i < old.visited.len() {
            let j = choose|j: int| 0 <= j < i && old.visited[j] == w;
            assert(s.visited[j] == w);
        } else {
            if !seq_has(old.visited, w) {
                lemma_pending_zero(a, u as int, old.visited, a.len() as int, w);
                let k = choose|k: int| 0 <= k < a[w].len() && a[w][k] == u;
                lemma_occurrences_found(a[w], k);
            }
            let j = choose|j: int| 0 <= j < old.visited.len() && old.visited[j] == w;
            assert(s.visited[j] == w);
        }
    }
}

/// A walk keeps `walk_inv` to its end.
pub proof fn lemma_run_inv(a: Graph, s: WalkState, fuel: nat)
    requires
        edges_in_range(a),
        degrees_fit(a),
        walk_inv(a, s),
    ensures
        walk_inv(a, run(a, s, fuel)),
        run(a, s, fuel).queue.len() == 0 || run(a, s, fuel).visited.len() == s.visited.len() + fuel,
    decreases fuel,
{
    if !(fuel == 0 || s.queue.len() == 0) {
        lemma_step_inv(a, s);
        lemma_step_visited(a, s);
        lemma_run_inv(a, step(a, s), (fuel - 1) as nat);
    }
}

pub proof fn lemma_nodup_covers(s: Seq<usize>, n: nat)
    requires
        s.no_duplicates(),
        forall|i: int| 0 <= i < s.len() ==> (#[trigger] s[i]) < n,
    ensures
        s.len() <= n,
        s.len() == n <==> (forall|v: int| 0 <= v < n ==> seq_has(s, v)),
{
    let m = Seq::new(s.len(), |i: int| s[i] as int);
    m.unique_seq_to_set();
    let range = vstd::set_lib::set_int_range(0, n as int);
    vstd::set_lib::lemma_int_range(0, n as int);
    assert forall|x: int| m.to_set().contains(x) implies range.contains(x) by {}
    vstd::set_lib::lemma_len_subset(m.to_set(), range);
    if s.len() == n {
        vstd::set_lib::lemma_subset_equality(m.to_set(), range);
        assert forall|v: int| 0 <= v < n implies seq_has(s, v) by {
            assert(range.contains(v));
        }
    }
    if forall|v: int| 0 <= v < n ==> seq_has(s, v) {
        assert forall|x: int| range.contains(x) implies m.to_set().contains(x) by {
            assert(seq_has(s, x));
            let j = choose|j: int| 0 <= j < s.len() && s[j] == x;
            assert(m[j] == x);
        }
        assert(m.to_set() =~= range);
    }
}

/// Among the blocks below `upto` that were not yielded, one whose rank is the
/// lowest.
pub proof fn lemma_lowest_unvisited(rank: Seq<int>, visited: Seq<usize>, upto: int, v: int) -> (m:
    int)
    requires
        0 <= v < upto <= rank.len(),
        !seq_has(visited, v),
    ensures
        0 <= m < upto,
        !seq_has(visited, m),
        forall|w: int| 0 <= w < upto && !seq_has(visited, w) ==> rank[m] <= rank[w],
    decreases upto,
{
    if v == upto - 1 {
        if exists|w: int| 0 <= w < upto - 1 && !seq_has(visited, w) {
            let w = choose|w: int| 0 <= w < upto - 1 && !seq_has(visited, w);
            let m = lemma_lowest_unvisited(rank, visited, upto - 1, w);
            if rank[m] <= rank[v] {
                m
            } else {
                v
            }
        } else {
            v
        }
    } else {
        let m = lemma_lowest_unvisited(rank, visited, upto - 1, v);
        if seq_has(visited, upto - 1) || rank[m] <= rank[upto - 1] {
            m
        } else {
            upto - 1
        }
    }
}

/// A walk in a graph without a cycle ends only when every block was yielded.
pub proof fn lemma_walk_complete(a: Graph, s: WalkState)
    requires
        edges_in_range(a),
        acyclic(a),
        walk_inv(a, s),
        s.queue.len() == 0,
    ensures
        forall|v: int| 0 <= v < a.len() ==> seq_has(s.visited, v),
{
    if exists|v: int| 0 <= v < a.len() && !seq_has(s.visited, v) {
        let v = choose|v: int| 0 <= v < a.len() && !seq_has(s.visited, v);
        let rank = choose|rank: Seq<int>| ranks(a, rank);
        let m = lemma_lowest_unvisited(rank, s.visited, a.len() as int, v);
        assert forall|u: int| 0 <= u < a.len() && has_edge(a, u, m) implies seq_has(
            s.visited,
            u,
        ) by {}
        lemma_pending_all_visited(a, m, s.visited, a.len() as int);
        assert(s.counts[m] == 0);
    }
}

/// The walk of a graph without a cycle yields every block once, and each
/// block only after the blocks with an edge to it.
pub proof fn lemma_walk_topological(a: Graph, first: int)
    requires
        walk_ready(a, first),
        acyclic(a),
    ensures
        topological(a, first, walk_from(a, start(in_degrees(a), first as usize))),
{
    let s = start(in_degrees(a), first as usize);
    let n = a.len();
    let f = run(a, s, n);
    lemma_start_inv(a, first);
    lemma_run_inv(a, s, n);
    lemma_run_visited(a, s, n);
    lemma_visited_nodup(f);
    lemma_nodup_covers(f.visited, n);
    if f.queue.len() == 0 {
        lemma_walk_complete(a, f);
    }
}

pub proof fn lemma_visited_nodup(s: WalkState)
    requires
        (s.visited + s.queue).no_duplicates(),
    ensures
        s.visited.no_duplicates(),
{
    let both = s.visited + s.queue;
    assert forall|i: int, j: int|
        0 <= i < s.visited.len() && 0 <= j < s.visited.len() && i != j implies s.visited[i]
        != s.visited[j] by {
        assert(both[i] == s.visited[i]);
        assert(both[j] == s.visited[j]);
    }
}

/// A walk that yields every block shows that the graph has no cycle.
pub proof fn lemma_walk_shows_acyclic(a: Graph, first: int)
    requires
        walk_ready(a, first),
        walk_from(a, start(in_degrees(a), first as usize)).len() == a.len(),
    ensures
        acyclic(a),
{
    let s = start(in_degrees(a), first as usize);
    let n = a.len();
    let f = run(a, s, n);
    lemma_start_inv(a, first);
    lemma_run_inv(a, s, n);
    lemma_visited_nodup(f);
    lemma_nodup_covers(f.visited, n);
    let order = f.visited;
    let rank = Seq::new(n, |v: int| choose|j: int| 0 <= j < order.len() && order[j] == v);
    assert forall|u: int, k: int|
        0 <= u < a.len() && 0 <= k < a[u].len() && a[u][k] < a.len() implies rank[u] < rank[(
    #[trigger] a[u][k]) as int] by {
        let v = a[u][k] as int;
        assert(seq_has(order, v));
        let i = rank[v];
        assert(has_edge(a, u, order[i] as int));
    }
    assert(ranks(a, rank));
}

/// The forward walk of a well-formed graph yields every block once, the
/// entry first and the exit last, and each block only after all its
/// predecessors.
pub proof fn lemma_walk_order(g: Graph)
    requires
        well_formed(g),
    ensures
        topological(g, 0, walk_order(g)),
        walk_order(g).last() == g.len() - 1,
{
    lemma_walk_topological(g, 0);
    let order = walk_order(g);
    let last = order.last() as int;
    if last != g.len() - 1 {
        let w = g[last][0];
        assert(seq_has(order, w as int));
        let i = choose|i: int| 0 <= i < order.len() && order[i] == w;
        assert(has_edge(g, last, order[i] as int));
    }
}

/// `order` lists every block of `g` once, the exit first and the entry last,
/// and each block only after all its successors.
pub open spec fn reverse_topological(g: Graph, order: Seq<usize>) -> bool {
    &&& order.len() == g.len()
    &&& order.no_duplicates()
    &&& forall|i: int| 0 <= i < order.len() ==> (#[trigger] order[i]) < g.len()
    &&& forall|v: int| 0 <= v < g.len() ==> seq_has(order, v)
    &&& order.len() > 0 ==> order[0] == g.len() - 1 && order.last() == 0
    &&& forall|i: int, w: int|
        0 <= i < order.len() && #[trigger] has_edge(g, order[i] as int, w) ==> before(order, i, w)
}

/// How many members of `s`, counted as often as they occur, are below `upto`.
pub open spec fn hits_below(s: Seq<usize>, upto: int) -> nat
    decreases upto,
{
    if upto <= 0 {
        0
    } else {
        hits_below(s, upto - 1) + occurrences(s, upto - 1)
    }
}

pub proof fn lemma_hits_last(s: Seq<usize>, upto: int)
    requires
        s.len() > 0,
    ensures
        hits_below(s, upto) == hits_below(s.drop_last(), upto) + if s.last() < upto {
            1nat
        } else {
            0nat
        },
    decreases upto,
{
    if upto > 0 {
        lemma_hits_last(s, upto - 1);
    }
}

pub proof fn lemma_hits_empty(s: Seq<usize>, upto: int)
    requires
        s.len() == 0,
    ensures
        hits_below(s, upto) == 0,
    decreases upto,
{
    if upto > 0 {
        lemma_hits_empty(s, upto - 1);
    }
}

pub proof fn lemma_hits_all(s: Seq<usize>, upto: int)
    requires
        forall|k: int| 0 <= k < s.len() ==> (#[trigger] s[k]) < upto,
    ensures
        hits_below(s, upto) == s.len(),
    decreases s.len(),
{
    if s.len() == 0 {
        lemma_hits_empty(s, upto);
    } else {
        lemma_hits_last(s, upto);
        lemma_hits_all(s.drop_last(), upto);
    }
}

pub proof fn lemma_occurrences_some(s: Seq<usize>, v: int) -> (k: int)
    requires
        occurrences(s, v) > 0,
    ensures
        0 <= k < s.len(),
        s[k] == v,
    decreases s.len(),
{
    if s.last() == v {
        s.len() - 1
    } else {
        lemma_occurrences_some(s.drop_last(), v)
    }
}

/// What entering the first `k` successors of `u` does to the predecessor
/// lists.
pub proof fn lemma_add_edges(p: Graph, u: usize, successors: Seq<usize>, k: int)
    requires
        0 <= k <= successors.len(),
        forall|j: int| 0 <= j < successors.len() ==> (#[trigger] successors[j]) < p.len(),
    ensures
        add_edges(p, u, successors, k).len() == p.len(),
        forall|v: int, w: int|
            0 <= v < p.len() ==> #[trigger] occurrences(add_edges(p, u, successors, k)[v], w)
                == occurrences(p[v], w) + if w == u {
                occurrences(successors.take(k), v)
            } else {
                0nat
            },
    decreases k,
{
    if k == 0 {
        assert forall|v: int| 0 <= v < p.len() implies occurrences(successors.take(0), v) == 0 by {}
    } else {
        lemma_add_edges(p, u, successors, k - 1);
        let q = add_edges(p, u, successors, k - 1);
        let x = successors[k - 1];
        let r = add_edges(p, u, successors, k);
        assert forall|v: int, w: int| 0 <= v < p.len() implies #[trigger] occurrences(r[v], w)
            == occurrences(p[v], w) + if w == u {
            occurrences(successors.take(k), v)
        } else {
            0nat
        } by {
            lemma_occurrences_step(successors, k - 1, v);
            assert(occurrences(q[v], w) == occurrences(p[v], w) + if w == u {
                occurrences(successors.take(k - 1), v)
            } else {
                0nat
            });
            if v == x {
                crate::common::cfg::lemma_occurrences_push(q[v], u, w);
            }
        }
    }
}

/// The predecessor lists hold each edge once, turned round.
pub proof fn lemma_predecessors_below(g: Graph, upto: int)
    requires
        edges_in_range(g),
        0 <= upto <= g.len() <= usize::MAX,
    ensures
        predecessors_below(g, upto).len() == g.len(),
        forall|v: int, w: int|
            0 <= v < g.len() ==> #[trigger] occurrences(predecessors_below(g, upto)[v], w) == if 0
                <= w < upto {
                occurrences(g[w], v)
            } else {
                0nat
            },
    decreases upto,
{
    if !(upto == 0) {
        lemma_predecessors_below(g, upto - 1);
        let p = predecessors_below(g, upto - 1);
        let u = (upto - 1) as usize;
        let row = g[upto - 1];
        assert forall|j: int| 0 <= j < row.len() implies (#[trigger] row[j]) < p.len() by {}
        lemma_add_edges(p, u, row, row.len() as int);
        assert(row.take(row.len() as int) =~= row);
        let r = predecessors_below(g, upto);
        assert forall|v: int, w: int| 0 <= v < g.len() implies #[trigger] occurrences(r[v], w)
            == if 0 <= w < upto {
            occurrences(g[w], v)
        } else {
            0nat
        } by {
            assert(occurrences(p[v], w) == if 0 <= w < upto - 1 {
                occurrences(g[w], v)
            } else {
                0nat
            });
        }
    }
}

/// The predecessor lists are the graph with every edge turned round.
pub proof fn lemma_predecessors(g: Graph)
    requires
        edges_in_range(g),
        g.len() <= usize::MAX,
    ensures
        predecessors(g).len() == g.len(),
        edges_in_range(predecessors(g)),
        forall|u: int, v: int|
            0 <= u < g.len() && 0 <= v < g.len() ==> (#[trigger] has_edge(predecessors(g), v, u)
                <==> has_edge(g, u, v)),
        forall|v: int, u: int| has_edge(predecessors(g), v, u) ==> 0 <= u < g.len(),
        forall|u: int| 0 <= u < g.len() ==> #[trigger] in_degree(predecessors(g), u) == g[u].len(),
{
    let p = predecessors(g);
    let n = g.len() as int;
    lemma_predecessors_below(g, n);
    assert forall|v: int, k: int| 0 <= v < p.len() && 0 <= k < p[v].len() implies (
    #[trigger] p[v][k]) < p.len() by {
        lemma_occurrences_found(p[v], k);
    }
    assert forall|u: int, v: int| 0 <= u < g.len() && 0 <= v < g.len() implies (
    #[trigger] has_edge(p, v, u) <==> has_edge(g, u, v)) by {
        if has_edge(p, v, u) {
            let k = choose|k: int| 0 <= k < p[v].len() && p[v][k] == u;
            lemma_occurrences_found(p[v], k);
            let j = lemma_occurrences_some(g[u], v);
        }
        if has_edge(g, u, v) {
            let k = choose|k: int| 0 <= k < g[u].len() && g[u][k] == v;
            lemma_occurrences_found(g[u], k);
            let j = lemma_occurrences_some(p[v], u);
        }
    }
    assert forall|v: int, u: int| has_edge(p, v, u) implies 0 <= u < g.len() by {}
    assert forall|u: int| 0 <= u < g.len() implies #[trigger] in_degree(p, u) == g[u].len() by {
        lemma_turned_degree(g, u, n);
        assert forall|k: int| 0 <= k < g[u].len() implies (#[trigger] g[u][k]) < n by {}
        lemma_hits_all(g[u], n);
    }
}

pub proof fn lemma_turned_degree(g: Graph, u: int, upto: int)
    requires
        edges_in_range(g),
        0 <= u < g.len(),
        0 <= upto <= g.len() <= usize::MAX,
    ensures
        in_degree_below(predecessors(g), u, upto) == hits_below(g[u], upto),
    decreases upto,
{
    if upto > 0 {
        lemma_turned_degree(g, u, upto - 1);
        lemma_predecessors_below(g, g.len() as int);
    }
}

/// In a well-formed graph some edge leads to every block but the entry.
pub proof fn lemma_some_predecessor(g: Graph, v: int, upto: int) -> (u: int)
    requires
        in_degree_below(g, v, upto) > 0,
    ensures
        0 <= u < upto,
        occurrences(g[u], v) > 0,
    decreases upto,
{
    if occurrences(g[upto - 1], v) > 0 {
        upto - 1
    } else {
        lemma_some_predecessor(g, v, upto - 1)
    }
}

/// The reverse walk of a well-formed graph yields every block once, the exit
/// first and the entry last, and each block only after all its successors.
pub proof fn lemma_reverse_walk_order(g: Graph)
    requires
        well_formed(g),
    ensures
        reverse_topological(g, reverse_walk_order(g)),
{
    let p = predecessors(g);
    let n = g.len() as int;
    let exit = n - 1;
    lemma_predecessors(g);
    assert(in_degrees(p) =~= out_degrees(g));
    assert(walk_ready(p, exit)) by {
        assert forall|v: int, k: int| 0 <= v < p.len() && 0 <= k < p[v].len() implies #[trigger] p[v][k]
            != exit by {
            if p[v][k] == exit {
                assert(has_edge(p, v, exit));
            }
        }
    }
    assert(acyclic(p)) by {
        let rank = choose|rank: Seq<int>| ranks(g, rank);
        let turned = Seq::new(g.len(), |v: int| -rank[v]);
        assert forall|v: int, k: int|
            0 <= v < p.len() && 0 <= k < p[v].len() && p[v][k] < p.len() implies turned[v] < turned[(
        #[trigger] p[v][k]) as int] by {
            let u = p[v][k] as int;
            assert(has_edge(p, v, u));
        }
        assert(ranks(p, turned));
    }
    lemma_walk_topological(p, exit);
    let order = reverse_walk_order(g);
    assert forall|i: int, w: int|
        0 <= i < order.len() && #[trigger] has_edge(g, order[i] as int, w) implies before(
        order,
        i,
        w,
    ) by {
        assert(has_edge(p, w, order[i] as int));
    }
    let last = order.last() as int;
    if last != 0 {
        assert(in_degree(g, last) > 0);
        let u = lemma_some_predecessor(g, last, n);
        let k = lemma_occurrences_some(g[u], last);
        assert(seq_has(order, u));
        let i = choose|i: int| 0 <= i < order.len() && order[i] == u;
        assert(has_edge(g, order[i] as int, last));
    }
}

} // verus!
