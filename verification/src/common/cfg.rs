//! Control-flow graphs: their shape, the two orders in which they are walked
//! and the predecessors of their blocks.
//!
//! A graph is modelled by the successor lists of its blocks. A walk starts
//! with one block in a queue and a count for every block. It takes the block
//! at the front of the queue, yields it, and lowers the count of each of its
//! neighbours by one; a neighbour whose count reaches zero joins the back of
//! the queue. The forward walk starts at the entry, follows successors and
//! counts predecessors; the reverse walk starts at the exit, follows
//! predecessors and counts successors.

use crate::common::order::{
    lemma_predecessors, lemma_some_predecessor, lemma_occurrences_found, lemma_occurrences_some,
    lemma_walk_shows_acyclic, lemma_walk_topological, walk_ready,
};
use std::collections::VecDeque;
use vstd::prelude::*;

verus! {

/// The position of a basic block in its procedure.
pub type BasicBlockId = usize;

/// The successor lists of the blocks of a graph, by block.
pub type Graph = Seq<Seq<usize>>;

/// A basic block that knows where control goes next.
pub trait BasicBlockWithSuccessors {
    /// The successors of the block, in the order in which it lists them.
    spec fn successors_view(&self) -> Seq<usize>;

    fn successors(&self) -> (r: &[BasicBlockId])
        ensures
            r@ == self.successors_view(),
    ;
}

/// The graph of a list of blocks.
pub open spec fn graph_of<B: BasicBlockWithSuccessors>(blocks: Seq<B>) -> Graph {
    Seq::new(blocks.len(), |i: int| blocks[i].successors_view())
}

/// Every edge of `g` ends at a block of `g`.
pub open spec fn edges_in_range(g: Graph) -> bool {
    forall|u: int, k: int|
        0 <= u < g.len() && 0 <= k < g[u].len() ==> (#[trigger] g[u][k]) < g.len()
}

/// `g` has an edge from `u` to `v`.
pub open spec fn has_edge(g: Graph, u: int, v: int) -> bool {
    0 <= u < g.len() && exists|k: int| 0 <= k < g[u].len() && #[trigger] g[u][k] == v
}

/// How often `v` occurs in `s`.
pub open spec fn occurrences(s: Seq<usize>, v: int) -> nat
    decreases s.len(),
{
    if s.len() == 0 {
        0
    } else {
        occurrences(s.drop_last(), v) + if s.last() == v {
            1nat
        } else {
            0nat
        }
    }
}

/// The number of edges of `g` that end at `v` and start at a block below
/// `upto`. An edge that a block lists twice counts twice.
pub open spec fn in_degree_below(g: Graph, v: int, upto: int) -> nat
    decreases upto,
{
    if upto <= 0 {
        0
    } else {
        in_degree_below(g, v, upto - 1) + occurrences(g[upto - 1], v)
    }
}

/// The number of edges of `g` that end at `v`.
pub open spec fn in_degree(g: Graph, v: int) -> nat {
    in_degree_below(g, v, g.len() as int)
}

/// Numbers for the blocks of `g` that grow along every edge.
pub open spec fn ranks(g: Graph, rank: Seq<int>) -> bool {
    &&& rank.len() == g.len()
    &&& forall|u: int, k: int|
        0 <= u < g.len() && 0 <= k < g[u].len() && g[u][k] < g.len() ==> rank[u] < rank[(
        #[trigger] g[u][k]) as int]
}

/// `g` has no cycle.
pub open spec fn acyclic(g: Graph) -> bool {
    exists|rank: Seq<int>| ranks(g, rank)
}

/// The shape that a control-flow graph has to have: an entry at 0 that no
/// edge leads to, an exit at the end that no edge leaves, at least one edge
/// into every other block and out of every other block, and no cycle. In such
/// a graph every block is reached from the entry and reaches the exit. The
/// number of blocks and the number of edges into each fit in a machine word.
pub open spec fn well_formed(g: Graph) -> bool {
    &&& g.len() >= 2
    &&& sizes_fit(g)
    &&& edges_in_range(g)
    &&& forall|u: int, k: int| 0 <= u < g.len() && 0 <= k < g[u].len() ==> #[trigger] g[u][k] != 0
    &&& g[g.len() - 1].len() == 0
    &&& forall|u: int| 0 <= u < g.len() - 1 ==> (#[trigger] g[u]).len() > 0
    &&& forall|v: int| 1 <= v < g.len() ==> #[trigger] in_degree(g, v) > 0
    &&& degrees_fit(g)
    &&& acyclic(g)
}

/// The number of blocks of `g` and the number of edges out of each fit in a
/// machine word, as they do in every graph that is held in memory.
pub open spec fn sizes_fit(g: Graph) -> bool {
    &&& g.len() <= usize::MAX
    &&& forall|u: int| 0 <= u < g.len() ==> (#[trigger] g[u]).len() <= usize::MAX
}

/// The number of edges into each block of `g` fits in a machine word.
pub open spec fn degrees_fit(g: Graph) -> bool {
    forall|v: int| 0 <= v < g.len() ==> #[trigger] in_degree(g, v) <= usize::MAX
}

/// The lists of `rows`, as a graph.
pub open spec fn rows_of(rows: Seq<Vec<usize>>) -> Graph {
    Seq::new(rows.len(), |i: int| rows[i]@)
}

/// The state of a walk.
pub struct WalkState {
    /// For each block, how many of the blocks before it are still to come.
    pub counts: Seq<usize>,
    /// The blocks that are ready, in the order in which they became so.
    pub queue: Seq<usize>,
    /// The blocks yielded so far, in order.
    pub visited: Seq<usize>,
}

/// The state after the first `k` of `neighbours` have had their counts
/// lowered. A count that is zero already stays so.
pub open spec fn release(neighbours: Seq<usize>, s: WalkState, k: int) -> WalkState
    decreases k,
{
    if k <= 0 {
        s
    } else {
        let p = release(neighbours, s, k - 1);
        let v = neighbours[k - 1];
        if k <= neighbours.len() && v < p.counts.len() && p.counts[v as int] > 0 {
            let c = (p.counts[v as int] - 1) as usize;
            WalkState {
                counts: p.counts.update(v as int, c),
                queue: if c == 0 {
                    p.queue.push(v)
                } else {
                    p.queue
                },
                visited: p.visited,
            }
        } else {
            p
        }
    }
}

/// The state after the block at the front of the queue was yielded.
pub open spec fn step(adjacency: Graph, s: WalkState) -> WalkState
    recommends
        s.queue.len() > 0,
{
    let u = s.queue[0];
    let popped = WalkState {
        counts: s.counts,
        queue: s.queue.subrange(1, s.queue.len() as int),
        visited: s.visited.push(u),
    };
    if u < adjacency.len() {
        release(adjacency[u as int], popped, adjacency[u as int].len() as int)
    } else {
        popped
    }
}

/// The state after at most `fuel` blocks more were yielded: the walk ends
/// when the queue is empty.
pub open spec fn run(adjacency: Graph, s: WalkState, fuel: nat) -> WalkState
    decreases fuel,
{
    if fuel == 0 || s.queue.len() == 0 {
        s
    } else {
        run(adjacency, step(adjacency, s), (fuel - 1) as nat)
    }
}

/// The state in which a walk starts.
pub open spec fn start(counts: Seq<usize>, first: usize) -> WalkState {
    WalkState { counts, queue: seq![first], visited: Seq::empty() }
}

/// The blocks that the walk from `s` yields, `s.visited` first. A walk
/// yields at most as many blocks as the graph has.
pub open spec fn walk_from(adjacency: Graph, s: WalkState) -> Seq<usize> {
    run(adjacency, s, (adjacency.len() - s.visited.len()) as nat).visited
}

/// For each block of `g`, the number of edges that end at it.
pub open spec fn in_degrees(g: Graph) -> Seq<usize> {
    Seq::new(g.len(), |v: int| in_degree(g, v) as usize)
}

/// For each block of `g`, the number of edges that leave it.
pub open spec fn out_degrees(g: Graph) -> Seq<usize> {
    Seq::new(g.len(), |u: int| g[u].len() as usize)
}

/// The predecessor lists after the first `k` successors of `u` were entered.
pub open spec fn add_edges(p: Graph, u: usize, successors: Seq<usize>, k: int) -> Graph
    decreases k,
{
    if k <= 0 {
        p
    } else {
        let q = add_edges(p, u, successors, k - 1);
        let v = successors[k - 1];
        if k <= successors.len() && v < q.len() {
            q.update(v as int, q[v as int].push(u))
        } else {
            q
        }
    }
}

/// The predecessor lists after the edges of the blocks below `upto` were
/// entered.
pub open spec fn predecessors_below(g: Graph, upto: int) -> Graph
    decreases upto,
{
    if upto <= 0 {
        Seq::new(g.len(), |v: int| Seq::<usize>::empty())
    } else {
        add_edges(
            predecessors_below(g, upto - 1),
            (upto - 1) as usize,
            g[upto - 1],
            g[upto - 1].len() as int,
        )
    }
}

/// For each block of `g`, the blocks with an edge to it: in rising order, a
/// block once for each edge.
pub open spec fn predecessors(g: Graph) -> Graph {
    predecessors_below(g, g.len() as int)
}

/// The order in which the forward walk yields the blocks of `g`.
pub open spec fn walk_order(g: Graph) -> Seq<usize> {
    walk_from(g, start(in_degrees(g), 0))
}

/// The order in which the reverse walk yields the blocks of `g`.
pub open spec fn reverse_walk_order(g: Graph) -> Seq<usize> {
    walk_from(predecessors(g), start(out_degrees(g), (g.len() - 1) as usize))
}

/// What a walk has in hand at any moment: a count for every block, blocks of
/// the graph in its queue, and no more blocks yielded than there are.
pub open spec fn walk_state_fits(adjacency: Graph, s: WalkState) -> bool {
    &&& s.counts.len() == adjacency.len()
    &&& s.visited.len() <= adjacency.len()
    &&& forall|i: int| 0 <= i < s.queue.len() ==> (#[trigger] s.queue[i]) < adjacency.len()
}

pub proof fn lemma_release_fits(adjacency: Graph, neighbours: Seq<usize>, s: WalkState, k: int)
    requires
        walk_state_fits(adjacency, s),
    ensures
        walk_state_fits(adjacency, release(neighbours, s, k)),
        release(neighbours, s, k).visited == s.visited,
    decreases k,
{
    if k > 0 {
        lemma_release_fits(adjacency, neighbours, s, k - 1);
    }
}

pub proof fn lemma_release_keeps_visited(neighbours: Seq<usize>, s: WalkState, k: int)
    ensures
        release(neighbours, s, k).visited == s.visited,
    decreases k,
{
    if k > 0 {
        lemma_release_keeps_visited(neighbours, s, k - 1);
    }
}

pub proof fn lemma_step_visited(adjacency: Graph, s: WalkState)
    ensures
        step(adjacency, s).visited == s.visited.push(s.queue[0]),
{
    let u = s.queue[0];
    let popped = WalkState {
        counts: s.counts,
        queue: s.queue.subrange(1, s.queue.len() as int),
        visited: s.visited.push(u),
    };
    if u < adjacency.len() {
        lemma_release_keeps_visited(adjacency[u as int], popped, adjacency[u as int].len() as int);
    }
}

/// The blocks that a walk yields begin with those that it has yielded, and
/// go on with the block at the front of the queue.
pub proof fn lemma_run_visited(adjacency: Graph, s: WalkState, fuel: nat)
    ensures
        s.visited.is_prefix_of(run(adjacency, s, fuel).visited),
        fuel > 0 && s.queue.len() > 0 ==> run(adjacency, s, fuel).visited.len() > s.visited.len()
            && run(adjacency, s, fuel).visited[s.visited.len() as int] == s.queue[0],
        run(adjacency, s, fuel).visited.len() <= s.visited.len() + fuel,
    decreases fuel,
{
    if !(fuel == 0 || s.queue.len() == 0) {
        lemma_step_visited(adjacency, s);
        let next = step(adjacency, s);
        let last = run(adjacency, next, (fuel - 1) as nat);
        lemma_run_visited(adjacency, next, (fuel - 1) as nat);
        assert(last.visited[s.visited.len() as int] == next.visited[s.visited.len() as int]);
    }
}

pub proof fn lemma_occurrences_push(s: Seq<usize>, x: usize, v: int)
    ensures
        occurrences(s.push(x), v) == occurrences(s, v) + if x == v {
            1nat
        } else {
            0nat
        },
{
    assert(s.push(x).drop_last() =~= s);
}

pub proof fn lemma_occurrences_prefix(s: Seq<usize>, k: int, v: int)
    requires
        0 <= k <= s.len(),
    ensures
        occurrences(s.take(k), v) <= occurrences(s, v),
    decreases s.len() - k,
{
    if k < s.len() {
        lemma_occurrences_prefix(s, k + 1, v);
        assert(s.take(k + 1).drop_last() =~= s.take(k));
    } else {
        assert(s.take(k) =~= s);
    }
}

pub proof fn lemma_in_degree_below_grows(g: Graph, v: int, a: int, b: int)
    requires
        a <= b,
    ensures
        in_degree_below(g, v, a) <= in_degree_below(g, v, b),
    decreases b - a,
{
    if a < b {
        lemma_in_degree_below_grows(g, v, a, b - 1);
    }
}

/// For each block, the number of edges that end at it; nothing when an edge
/// leaves the graph or a number does not fit.
fn count_predecessors<B: BasicBlockWithSuccessors>(blocks: &Vec<B>) -> (r: Option<Vec<usize>>)
    ensures
        match r {
            Some(counts) => edges_in_range(graph_of(blocks@)) && degrees_fit(graph_of(blocks@))
                && counts@ == in_degrees(graph_of(blocks@)),
            None => !(edges_in_range(graph_of(blocks@)) && degrees_fit(graph_of(blocks@))),
        },
{
    let ghost g = graph_of(blocks@);
    let n = blocks.len();
    let mut counts: Vec<usize> = Vec::new();
    let mut i: usize = 0;
    while i < n
        invariant
            i <= n,
            counts@.len() == i,
            forall|v: int| 0 <= v < i ==> counts@[v] == 0,
        decreases n - i,
    {
        counts.push(0);
        i += 1;
    }
    let mut u: usize = 0;
    while u < n
        invariant
            u <= n,
            n == blocks@.len(),
            g == graph_of(blocks@),
            counts@.len() == n,
            forall|v: int| 0 <= v < n ==> counts@[v] == #[trigger] in_degree_below(g, v, u as int),
            forall|a: int, k: int| 0 <= a < u && 0 <= k < g[a].len() ==> (#[trigger] g[a][k]) < n,
        decreases n - u,
    {
        let successors = blocks[u].successors();
        let mut k: usize = 0;
        while k < successors.len()
            invariant
                u < n,
                n == blocks@.len(),
                g == graph_of(blocks@),
                successors@ == g[u as int],
                k <= successors@.len(),
                counts@.len() == n,
                forall|v: int|
                    0 <= v < n ==> counts@[v] == #[trigger] in_degree_below(g, v, u as int)
                        + occurrences(successors@.take(k as int), v),
                forall|j: int| 0 <= j < k ==> (#[trigger] successors@[j]) < n,
            decreases successors@.len() - k,
        {
            let v = successors[k];
            if v >= n {
                return None;
            }
            proof {
                assert(successors@.take(k + 1).drop_last() =~= successors@.take(k as int));
                lemma_occurrences_prefix(successors@, k + 1, v as int);
                lemma_in_degree_below_grows(g, v as int, u + 1, n as int);
            }
            if counts[v] == usize::MAX {
                proof {
                    assert(in_degree_below(g, v as int, u + 1) == in_degree_below(
                        g,
                        v as int,
                        u as int,
                    ) + occurrences(g[u as int], v as int));
                    assert(in_degree(g, v as int) > usize::MAX);
                }
                return None;
            }
            counts[v] = counts[v] + 1;
            k += 1;
        }
        proof {
            assert(successors@.take(k as int) =~= successors@);
            assert forall|v: int| 0 <= v < n implies counts@[v] == #[trigger] in_degree_below(
                g,
                v,
                u + 1,
            ) by {
                assert(counts@[v] == in_degree_below(g, v, u as int) + occurrences(
                    successors@.take(k as int),
                    v,
                ));
            }
        }
        u += 1;
    }
    Some(counts)
}

/// For each block, the number of edges that leave it.
fn count_successors<B: BasicBlockWithSuccessors>(blocks: &Vec<B>) -> (r: Vec<usize>)
    ensures
        r@ == out_degrees(graph_of(blocks@)),
{
    let mut counts: Vec<usize> = Vec::new();
    let mut u: usize = 0;
    while u < blocks.len()
        invariant
            u <= blocks@.len(),
            counts@.len() == u,
            forall|i: int| 0 <= i < u ==> counts@[i] == blocks@[i].successors_view().len(),
        decreases blocks@.len() - u,
    {
        counts.push(blocks[u].successors().len());
        u += 1;
    }
    counts
}

/// For each block its predecessors, where every edge ends in the graph.
fn predecessors_of<B: BasicBlockWithSuccessors>(blocks: &Vec<B>) -> (r: Vec<Vec<usize>>)
    requires
        edges_in_range(graph_of(blocks@)),
    ensures
        rows_of(r@) == predecessors(graph_of(blocks@)),
{
    let ghost g = graph_of(blocks@);
    let n = blocks.len();
    let mut rows: Vec<Vec<usize>> = Vec::new();
    let mut i: usize = 0;
    while i < n
        invariant
            i <= n,
            rows@.len() == i,
            forall|v: int| 0 <= v < i ==> (#[trigger] rows@[v])@ == Seq::<usize>::empty(),
        decreases n - i,
    {
        rows.push(Vec::new());
        i += 1;
    }
    let mut u: usize = 0;
    while u < n
        invariant
            u <= n,
            n == blocks@.len(),
            g == graph_of(blocks@),
            edges_in_range(g),
            rows@.len() == n,
            rows_of(rows@) == predecessors_below(g, u as int),
        decreases n - u,
    {
        let successors = blocks[u].successors();
        let ghost before = rows_of(rows@);
        let mut k: usize = 0;
        while k < successors.len()
            invariant
                u < n,
                n == blocks@.len(),
                g == graph_of(blocks@),
                edges_in_range(g),
                successors@ == g[u as int],
                k <= successors@.len(),
                rows@.len() == n,
                rows_of(rows@) == add_edges(before, u, successors@, k as int),
            decreases successors@.len() - k,
        {
            let v = successors[k];
            rows[v].push(u);
            k += 1;
        }
        u += 1;
    }
    rows
}

/// Lowers the count of each of `neighbours` by one and queues those whose
/// count reaches zero.
fn release_all(
    neighbours: &[usize],
    counts: &mut Vec<usize>,
    work_queue: &mut VecDeque<usize>,
    Ghost(visited): Ghost<Seq<usize>>,
)
    requires
        forall|k: int| 0 <= k < neighbours@.len() ==> (#[trigger] neighbours@[k]) < old(counts)@.len(),
    ensures
        (WalkState { counts: final(counts)@, queue: final(work_queue)@, visited }) == release(
            neighbours@,
            WalkState { counts: old(counts)@, queue: old(work_queue)@, visited },
            neighbours@.len() as int,
        ),
        final(counts)@.len() == old(counts)@.len(),
{
    let ghost first = WalkState { counts: counts@, queue: work_queue@, visited };
    let mut k: usize = 0;
    while k < neighbours.len()
        invariant
            k <= neighbours@.len(),
            counts@.len() == first.counts.len(),
            forall|j: int| 0 <= j < neighbours@.len() ==> (#[trigger] neighbours@[j]) < counts@.len(),
            (WalkState { counts: counts@, queue: work_queue@, visited }) == release(
                neighbours@,
                first,
                k as int,
            ),
        decreases neighbours@.len() - k,
    {
        let v = neighbours[k];
        if counts[v] > 0 {
            let c = counts[v] - 1;
            counts[v] = c;
            if c == 0 {
                work_queue.push_back(v);
            }
        }
        k += 1;
    }
}

/// The walk that yields each block only after all its predecessors.
pub struct BasicBlockWalker<'a, BasicBlock: BasicBlockWithSuccessors> {
    basic_blocks: &'a Vec<BasicBlock>,
    /// How many predecessors of each block are still to be yielded.
    basic_block_predecessor_counts: Vec<usize>,
    /// The blocks that are ready to be yielded.
    work_queue: VecDeque<BasicBlockId>,
    /// How many blocks were yielded.
    visited_count: usize,
    visited: Ghost<Seq<usize>>,
}

impl<'a, BasicBlock: BasicBlockWithSuccessors> BasicBlockWalker<'a, BasicBlock> {
    /// The blocks that are walked.
    pub closed spec fn blocks(&self) -> Seq<BasicBlock> {
        self.basic_blocks@
    }

    /// The blocks yielded so far, in order.
    pub closed spec fn yielded(&self) -> Seq<usize> {
        self.visited@
    }

    /// The state of the walk.
    pub closed spec fn state(&self) -> WalkState {
        WalkState {
            counts: self.basic_block_predecessor_counts@,
            queue: self.work_queue@,
            visited: self.visited@,
        }
    }

    /// The walker is a forward walk of its blocks on the way.
    pub closed spec fn wf(&self) -> bool {
        &&& edges_in_range(graph_of(self.blocks()))
        &&& walk_state_fits(graph_of(self.blocks()), self.state())
        &&& self.visited_count == self.visited@.len()
        &&& walk_from(graph_of(self.blocks()), self.state()) == walk_order(graph_of(self.blocks()))
    }

    /// The walk of `basic_blocks` from `entry_block`, before its first block.
    pub fn new(basic_blocks: &'a Vec<BasicBlock>, entry_block: BasicBlockId) -> (r: Self)
        requires
            well_formed(graph_of(basic_blocks@)),
            entry_block == 0,
        ensures
            r.wf(),
            r.blocks() == basic_blocks@,
            r.yielded() == Seq::<usize>::empty(),
    {
        let counts = count_predecessors(basic_blocks);
        Self::with_counts(basic_blocks, counts.unwrap())
    }

    fn with_counts(basic_blocks: &'a Vec<BasicBlock>, counts: Vec<usize>) -> (r: Self)
        requires
            basic_blocks@.len() > 0,
            edges_in_range(graph_of(basic_blocks@)),
            counts@ == in_degrees(graph_of(basic_blocks@)),
        ensures
            r.wf(),
            r.blocks() == basic_blocks@,
            r.yielded() == Seq::<usize>::empty(),
    {
        let mut work_queue = VecDeque::new();
        work_queue.push_back(0);
        BasicBlockWalker {
            basic_blocks,
            basic_block_predecessor_counts: counts,
            work_queue,
            visited_count: 0,
            visited: Ghost(Seq::empty()),
        }
    }

    /// The next block of the walk with its position, if the walk has not
    /// ended.
    pub fn next(&mut self) -> (r: Option<(BasicBlockId, &'a BasicBlock)>)
        requires
            old(self).wf(),
        ensures
            final(self).wf(),
            final(self).blocks() == old(self).blocks(),
            match r {
                Some((id, block)) => {
                    let order = walk_order(graph_of(old(self).blocks()));
                    &&& old(self).yielded().len() < order.len()
                    &&& id == order[old(self).yielded().len() as int]
                    &&& id < old(self).blocks().len()
                    &&& *block == old(self).blocks()[id as int]
                    &&& final(self).yielded() == old(self).yielded().push(id)
                },
                None => {
                    &&& old(self).yielded() == walk_order(graph_of(old(self).blocks()))
                    &&& final(self).yielded() == old(self).yielded()
                },
            },
    {
        let ghost g = graph_of(self.blocks());
        let ghost before = self.state();
        let ghost fuel = (g.len() - before.visited.len()) as nat;
        proof {
            lemma_run_visited(g, before, fuel);
        }
        if self.visited_count >= self.basic_blocks.len() {
            return None;
        }
        match self.work_queue.pop_front() {
            Some(next_id) => {
                let block = &self.basic_blocks[next_id];
                proof {
                    self.visited = Ghost(self.visited@.push(next_id));
                }
                release_all(
                    block.successors(),
                    &mut self.basic_block_predecessor_counts,
                    &mut self.work_queue,
                    Ghost(self.visited@),
                );
                self.visited_count += 1;
                proof {
                    lemma_release_fits(
                        g,
                        g[next_id as int],
                        WalkState {
                            counts: before.counts,
                            queue: before.queue.subrange(1, before.queue.len() as int),
                            visited: before.visited.push(next_id),
                        },
                        g[next_id as int].len() as int,
                    );
                }
                Some((next_id, block))
            },
            None => None,
        }
    }
}

/// The walk that yields each block only after all its successors.
pub struct BasicBlockReverseWalker<'a, BasicBlock: BasicBlockWithSuccessors> {
    basic_blocks: &'a Vec<BasicBlock>,
    predecessors: Vec<Vec<BasicBlockId>>,
    /// How many successors of each block are still to be yielded.
    basic_block_successor_counts: Vec<usize>,
    /// The blocks that are ready to be yielded.
    work_queue: VecDeque<BasicBlockId>,
    /// How many blocks were yielded.
    visited_count: usize,
    visited: Ghost<Seq<usize>>,
}

impl<'a, BasicBlock: BasicBlockWithSuccessors> BasicBlockReverseWalker<'a, BasicBlock> {
    /// The blocks that are walked.
    pub closed spec fn blocks(&self) -> Seq<BasicBlock> {
        self.basic_blocks@
    }

    /// The blocks yielded so far, in order.
    pub closed spec fn yielded(&self) -> Seq<usize> {
        self.visited@
    }

    /// The state of the walk.
    pub closed spec fn state(&self) -> WalkState {
        WalkState {
            counts: self.basic_block_successor_counts@,
            queue: self.work_queue@,
            visited: self.visited@,
        }
    }

    /// The walker is a reverse walk of its blocks on the way.
    pub closed spec fn wf(&self) -> bool {
        let g = graph_of(self.blocks());
        &&& rows_of(self.predecessors@) == predecessors(g)
        &&& predecessors(g).len() == g.len()
        &&& edges_in_range(predecessors(g))
        &&& walk_state_fits(predecessors(g), self.state())
        &&& self.visited_count == self.visited@.len()
        &&& walk_from(predecessors(g), self.state()) == reverse_walk_order(g)
    }

    /// The reverse walk of `basic_blocks` from `exit_block`, before its first
    /// block. `predecessors` holds the predecessors of each block.
    pub fn new(
        basic_blocks: &'a Vec<BasicBlock>,
        predecessors: Vec<Vec<BasicBlockId>>,
        exit_block: BasicBlockId,
    ) -> (r: Self)
        requires
            well_formed(graph_of(basic_blocks@)),
            rows_of(predecessors@) == self::predecessors(graph_of(basic_blocks@)),
            exit_block == basic_blocks@.len() - 1,
        ensures
            r.wf(),
            r.blocks() == basic_blocks@,
            r.yielded() == Seq::<usize>::empty(),
    {
        proof {
            lemma_predecessors(graph_of(basic_blocks@));
        }
        let counts = count_successors(basic_blocks);
        let mut work_queue = VecDeque::new();
        work_queue.push_back(exit_block);
        BasicBlockReverseWalker {
            basic_blocks,
            predecessors,
            basic_block_successor_counts: counts,
            work_queue,
            visited_count: 0,
            visited: Ghost(Seq::empty()),
        }
    }

    /// The next block of the walk with its position, if the walk has not
    /// ended.
    pub fn next(&mut self) -> (r: Option<(BasicBlockId, &'a BasicBlock)>)
        requires
            old(self).wf(),
        ensures
            final(self).wf(),
            final(self).blocks() == old(self).blocks(),
            match r {
                Some((id, block)) => {
                    let order = reverse_walk_order(graph_of(old(self).blocks()));
                    &&& old(self).yielded().len() < order.len()
                    &&& id == order[old(self).yielded().len() as int]
                    &&& id < old(self).blocks().len()
                    &&& *block == old(self).blocks()[id as int]
                    &&& final(self).yielded() == old(self).yielded().push(id)
                },
                None => {
                    &&& old(self).yielded() == reverse_walk_order(graph_of(old(self).blocks()))
                    &&& final(self).yielded() == old(self).yielded()
                },
            },
    {
        let ghost p = predecessors(graph_of(self.blocks()));
        let ghost before = self.state();
        let ghost fuel = (p.len() - before.visited.len()) as nat;
        proof {
            lemma_run_visited(p, before, fuel);
        }
        if self.visited_count >= self.basic_blocks.len() {
            return None;
        }
        match self.work_queue.pop_front() {
            Some(next_id) => {
                let block = &self.basic_blocks[next_id];
                proof {
                    self.visited = Ghost(self.visited@.push(next_id));
                    assert forall|k: int| 0 <= k < p[next_id as int].len() implies (
                    #[trigger] p[next_id as int][k]) < p.len() by {}
                }
                release_all(
                    self.predecessors[next_id].as_slice(),
                    &mut self.basic_block_successor_counts,
                    &mut self.work_queue,
                    Ghost(self.visited@),
                );
                self.visited_count += 1;
                proof {
                    lemma_release_fits(
                        p,
                        p[next_id as int],
                        WalkState {
                            counts: before.counts,
                            queue: before.queue.subrange(1, before.queue.len() as int),
                            visited: before.visited.push(next_id),
                        },
                        p[next_id as int].len() as int,
                    );
                }
                Some((next_id, block))
            },
            None => None,
        }
    }
}

/// An edge into `v` shows in the number of edges into `v`.
pub proof fn lemma_in_degree_counts(g: Graph, u: int, v: int, upto: int)
    requires
        0 <= u < upto,
    ensures
        occurrences(g[u], v) <= in_degree_below(g, v, upto),
    decreases upto,
{
    if u < upto - 1 {
        lemma_in_degree_counts(g, u, v, upto - 1);
    }
}

/// Whether the graph of `blocks` is well-formed.
pub fn validate_blocks<B: BasicBlockWithSuccessors>(blocks: &Vec<B>) -> (r: bool)
    ensures
        r == well_formed(graph_of(blocks@)),
{
    let ghost g = graph_of(blocks@);
    let n = blocks.len();
    if n < 2 {
        return false;
    }
    let counts = match count_predecessors(blocks) {
        Some(counts) => counts,
        None => {
            return false;
        },
    };
    if counts[0] != 0 {
        proof {
            let u = lemma_some_predecessor(g, 0, n as int);
            let k = lemma_occurrences_some(g[u], 0);
        }
        return false;
    }
    proof {
        assert forall|u: int, k: int| 0 <= u < g.len() && 0 <= k < g[u].len() implies #[trigger] g[u][k]
            != 0 by {
            if g[u][k] == 0 {
                lemma_occurrences_found(g[u], k);
                lemma_in_degree_counts(g, u, 0, n as int);
            }
        }
    }
    if blocks[n - 1].successors().len() != 0 {
        return false;
    }
    let mut u: usize = 0;
    while u < n - 1
        invariant
            u <= n - 1,
            n == blocks@.len(),
            g == graph_of(blocks@),
            counts@ == in_degrees(g),
            degrees_fit(g),
            edges_in_range(g),
            g[n - 1].len() == 0,
            forall|a: int, k: int| 0 <= a < g.len() && 0 <= k < g[a].len() ==> #[trigger] g[a][k] != 0,
            forall|i: int| 0 <= i < u ==> 0 < (#[trigger] g[i]).len() <= usize::MAX,
            forall|i: int| 1 <= i <= u ==> #[trigger] in_degree(g, i) > 0,
        decreases n - u,
    {
        assert(g[u as int] == blocks@[u as int].successors_view());
        if blocks[u].successors().len() == 0 {
            return false;
        }
        if counts[u + 1] == 0 {
            return false;
        }
        u += 1;
    }
    proof {
        lemma_run_visited(g, start(in_degrees(g), 0), n as nat);
    }
    let mut walker = BasicBlockWalker::with_counts(blocks, counts);
    let mut yielded: usize = 0;
    loop
        invariant
            n == blocks@.len(),
            n >= 2,
            walk_ready(g, 0),
            sizes_fit(g),
            g[n - 1].len() == 0,
            forall|i: int| 0 <= i < n - 1 ==> (#[trigger] g[i]).len() > 0,
            walker.wf(),
            walker.blocks() == blocks@,
            g == graph_of(blocks@),
            yielded == walker.yielded().len(),
            walker.yielded().len() <= walk_order(g).len() <= n,
        ensures
            walker.yielded() == walk_order(g),
        decreases walk_order(g).len() - yielded,
    {
        match walker.next() {
            Some(_) => {
                yielded += 1;
            },
            None => {
                break ;
            },
        }
    }
    proof {
        if acyclic(g) {
            lemma_walk_topological(g, 0);
        }
        if yielded == n {
            lemma_walk_shows_acyclic(g, 0);
        }
    }
    yielded == n
}

/// A procedure as a graph of basic blocks. Its first block is the entry,
/// its last one the exit.
pub trait Cfg {
    type BasicBlock: BasicBlockWithSuccessors;

    /// The blocks of the procedure, by position.
    spec fn blocks_view(&self) -> Seq<Self::BasicBlock>;

    fn basic_blocks(&self) -> (r: &Vec<Self::BasicBlock>)
        ensures
            r@ == self.blocks_view(),
    ;

    /// The block at which control enters.
    fn entry_block(&self) -> (r: BasicBlockId)
        ensures
            r == 0,
    {
        0
    }

    /// The block at which control leaves.
    fn exit_block(&self) -> (r: BasicBlockId)
        requires
            self.blocks_view().len() > 0,
        ensures
            r == self.blocks_view().len() - 1,
    {
        self.basic_blocks().len() - 1
    }

    /// Whether the graph of the procedure is well-formed.
    fn validate(&self) -> (r: bool)
        ensures
            r == well_formed(graph_of(self.blocks_view())),
    {
        validate_blocks(self.basic_blocks())
    }

    /// The walk that yields a block only after all its predecessors.
    fn walk(&self) -> (r: BasicBlockWalker<'_, Self::BasicBlock>)
        requires
            well_formed(graph_of(self.blocks_view())),
        ensures
            r.wf(),
            r.blocks() == self.blocks_view(),
            r.yielded() == Seq::<usize>::empty(),
    {
        BasicBlockWalker::new(self.basic_blocks(), 0)
    }

    /// The walk that yields a block only after all its successors.
    fn reverse_walk(&self) -> (r: BasicBlockReverseWalker<'_, Self::BasicBlock>)
        requires
            well_formed(graph_of(self.blocks_view())),
        ensures
            r.wf(),
            r.blocks() == self.blocks_view(),
            r.yielded() == Seq::<usize>::empty(),
    {
        let blocks = self.basic_blocks();
        BasicBlockReverseWalker::new(blocks, predecessors_of(blocks), blocks.len() - 1)
    }

    /// For each block the blocks with an edge to it: in rising order, a
    /// block once for each of its edges.
    fn compute_predecessors(&self) -> (r: Vec<Vec<BasicBlockId>>)
        requires
            edges_in_range(graph_of(self.blocks_view())),
        ensures
            rows_of(r@) == predecessors(graph_of(self.blocks_view())),
    {
        predecessors_of(self.basic_blocks())
    }
}

} // verus!
