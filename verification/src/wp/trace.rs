//! The path of basic blocks that leads to a failure.
//!
//! The solver reports the labels that control passed and the label of the
//! assertion that failed. The blocks are walked forward. For each block it is
//! known how many of the passed labels control has met when it enters the
//! block: the most that any path to the block can have met. The statements
//! of the block are held against the labels that are still to come. The
//! block in which the failing label is met after all the others is the last
//! block of the path. On the way each block remembers the block from which
//! the most labels came to it, and the path is read back from there.

use crate::common::cfg::{graph_of, has_edge, walk_order, well_formed, BasicBlockId, Cfg};
use crate::common::expression::Name;
use crate::common::statement::StatementView;
use crate::low;
use crate::low::program::ProgramView;
use crate::wp::path::{has_label, lemma_reconstructed_path};
use vstd::prelude::*;

verus! {

/// What is known after some statements of a block were held against the
/// labels.
pub struct ScanState {
    /// How many of the passed labels were met.
    pub progress: usize,
    /// Whether the failing label was met after all the others.
    pub found: bool,
}

/// What is known after some blocks were visited.
pub struct TraceState {
    /// For each block, how many labels control has met when it enters it;
    /// nothing for a block that no visited block leads to.
    pub expected: Seq<Option<usize>>,
    /// For each block, the block from which control came to it.
    pub came_from: Seq<Option<usize>>,
    /// The block in which the failing label was met.
    pub final_block: Option<usize>,
}

/// The label that is to come after `i` labels were met: the next of `trace`,
/// and after the last of them `failing`.
pub open spec fn target(trace: Seq<Name>, failing: Name, i: int) -> Name {
    if 0 <= i < trace.len() {
        trace[i]
    } else {
        failing
    }
}

/// The state after `statement` was held against the label that is to come.
pub open spec fn scan_statement(
    trace: Seq<Name>,
    failing: Name,
    s: ScanState,
    statement: StatementView,
) -> ScanState {
    if !s.found && statement.label() == Some(target(trace, failing, s.progress as int)) {
        if s.progress >= trace.len() {
            ScanState { progress: s.progress, found: true }
        } else {
            ScanState { progress: (s.progress + 1) as usize, found: false }
        }
    } else {
        s
    }
}

/// The state after the first `k` of `statements`.
pub open spec fn scan(
    trace: Seq<Name>,
    failing: Name,
    s: ScanState,
    statements: Seq<StatementView>,
    k: int,
) -> ScanState
    decreases k,
{
    if k <= 0 {
        s
    } else {
        scan_statement(trace, failing, scan(trace, failing, s, statements, k - 1), statements[k - 1])
    }
}

/// The state after the block `from`, at whose end `progress` labels were
/// met, has offered itself to the first `k` of its successors. A successor
/// takes the offer if it had none, or one with fewer labels.
pub open spec fn offer(
    s: TraceState,
    from: usize,
    progress: usize,
    successors: Seq<usize>,
    k: int,
) -> TraceState
    decreases k,
{
    if k <= 0 {
        s
    } else {
        let p = offer(s, from, progress, successors, k - 1);
        let to = successors[k - 1] as int;
        if k <= successors.len() && to < p.expected.len() && to < p.came_from.len() && (
        p.expected[to] is None || p.expected[to]->0 < progress) {
            TraceState {
                expected: p.expected.update(to, Some(progress)),
                came_from: p.came_from.update(to, Some(from)),
                final_block: p.final_block,
            }
        } else {
            p
        }
    }
}

/// The state after the block `b` was visited. Nothing changes once the last
/// block of the path is known.
pub open spec fn visit(p: ProgramView, trace: Seq<Name>, failing: Name, s: TraceState, b: int) -> TraceState {
    if s.final_block is Some {
        s
    } else {
        let begin = match s.expected[b] {
            Some(progress) => progress,
            None => 0,
        };
        let scanned = scan(
            trace,
            failing,
            ScanState { progress: begin, found: false },
            p.blocks[b].statements,
            p.blocks[b].statements.len() as int,
        );
        if scanned.found {
            TraceState { final_block: Some(b as usize), ..s }
        } else {
            offer(s, b as usize, scanned.progress, p.blocks[b].successors, p.blocks[b].successors.len() as int)
        }
    }
}

/// The state before any block was visited: control enters the entry with no
/// label met.
pub open spec fn trace_start(count: nat) -> TraceState {
    TraceState {
        expected: Seq::new(
            count,
            |b: int|
                if b == 0 {
                    Some(0usize)
                } else {
                    None
                },
        ),
        came_from: Seq::new(count, |b: int| None),
        final_block: None,
    }
}

/// The state after the first `k` blocks of `order` were visited.
pub open spec fn visit_along(
    p: ProgramView,
    trace: Seq<Name>,
    failing: Name,
    order: Seq<usize>,
    k: int,
) -> TraceState
    decreases k,
{
    if k <= 0 {
        trace_start(p.blocks.len())
    } else {
        visit(p, trace, failing, visit_along(p, trace, failing, order, k - 1), order[k - 1] as int)
    }
}

/// The way back from the last block of `path` to the block that control came
/// from first, in at most `fuel` steps, after `path`.
pub open spec fn path_back(came_from: Seq<Option<usize>>, path: Seq<usize>, fuel: nat) -> Seq<usize>
    decreases fuel,
{
    if fuel == 0 || path.len() == 0 {
        path
    } else {
        match came_from[path.last() as int] {
            Some(block) => path_back(came_from, path.push(block), (fuel - 1) as nat),
            None => path,
        }
    }
}

/// The path of basic blocks from the entry to the block in which `failing`
/// is met after the labels of `trace`; nothing where it is not met.
pub open spec fn reconstructed(p: ProgramView, trace: Seq<Name>, failing: Name) -> Option<Seq<usize>> {
    let order = walk_order(p.graph());
    let s = visit_along(p, trace, failing, order, order.len() as int);
    match s.final_block {
        Some(last) => Some(path_back(s.came_from, seq![last], p.blocks.len()).reverse()),
        None => None,
    }
}

/// Visiting more blocks changes nothing once the last block is known.
pub proof fn lemma_visit_settled(
    p: ProgramView,
    trace: Seq<Name>,
    failing: Name,
    order: Seq<usize>,
    k: int,
    later: int,
)
    requires
        0 <= k <= later,
        visit_along(p, trace, failing, order, k).final_block is Some,
    ensures
        visit_along(p, trace, failing, order, later) == visit_along(p, trace, failing, order, k),
    decreases later - k,
{
    if k < later {
        lemma_visit_settled(p, trace, failing, order, k, later - 1);
    }
}

/// The value of `cell`, if it has one, is at most `bound`.
pub open spec fn at_most(cell: Option<usize>, bound: int) -> bool {
    match cell {
        Some(value) => value <= bound,
        None => true,
    }
}

/// The names of `labels`, in order.
pub open spec fn names_of(labels: Seq<low::LabelSymbol>) -> Seq<Name> {
    Seq::new(labels.len(), |i: int| labels[i]@)
}

fn scan_block(
    block: &low::BasicBlock,
    failing_assertion: &low::LabelSymbol,
    trace: &Vec<low::LabelSymbol>,
    begin: usize,
) -> (r: (usize, bool))
    requires
        begin <= trace@.len(),
    ensures
        (ScanState { progress: r.0, found: r.1 }) == scan(
            names_of(trace@),
            failing_assertion@,
            ScanState { progress: begin, found: false },
            block@.statements,
            block@.statements.len() as int,
        ),
        r.0 <= trace@.len(),
{
    let ghost labels = names_of(trace@);
    let ghost statements = block@.statements;
    let mut progress = begin;
    let mut found = false;
    let mut j: usize = 0;
    while j < block.statements.len()
        invariant
            j <= block.statements@.len(),
            labels == names_of(trace@),
            statements == block@.statements,
            progress <= trace@.len(),
            (ScanState { progress, found }) == scan(
                labels,
                failing_assertion@,
                ScanState { progress: begin, found: false },
                statements,
                j as int,
            ),
        decreases block.statements@.len() - j,
    {
        if !found {
            if let Some(label) = block.statements[j].get_label() {
                if progress < trace.len() {
                    if *label == trace[progress] {
                        progress += 1;
                    }
                } else if *label == *failing_assertion {
                    found = true;
                }
            }
        }
        j += 1;
    }
    (progress, found)
}

/// The path of basic blocks from the entry to the block in which
/// `failing_assertion` is met after the labels of `trace`, in their order;
/// nothing where no block meets it so.
pub fn reconstruct_trace(
    program: &low::ProgramFragment,
    failing_assertion: &low::LabelSymbol,
    trace: &Vec<low::LabelSymbol>,
) -> (r: Option<Vec<BasicBlockId>>)
    requires
        well_formed(program@.graph()),
    ensures
        match r {
            Some(path) => {
                &&& reconstructed(program@, names_of(trace@), failing_assertion@) == Some(path@)
                &&& path@.len() > 0
                &&& path@[0] == 0
                &&& forall|i: int|
                    0 <= i < path@.len() ==> (#[trigger] path@[i]) < program.basic_blocks@.len()
                &&& has_label(program@.blocks[path@.last() as int], failing_assertion@)
                &&& forall|i: int|
                    0 <= i < path@.len() - 1 ==> has_edge(
                        program@.graph(),
                        #[trigger] path@[i] as int,
                        path@[i + 1] as int,
                    )
            },
            None => reconstructed(program@, names_of(trace@), failing_assertion@) is None,
        },
{
    let ghost p = program@;
    let ghost g = p.graph();
    let ghost order = walk_order(g);
    let ghost labels = names_of(trace@);
    assert(graph_of(program.basic_blocks@) =~= g);
    let count = program.basic_blocks.len();
    let mut expected: Vec<Option<usize>> = Vec::new();
    let mut came_from: Vec<Option<usize>> = Vec::new();
    let mut b: usize = 0;
    while b < count
        invariant
            b <= count,
            expected@.len() == b,
            came_from@.len() == b,
            forall|i: int|
                0 <= i < b ==> expected@[i] == if i == 0 {
                    Some(0usize)
                } else {
                    None::<usize>
                },
            forall|i: int| 0 <= i < b ==> came_from@[i] == None::<usize>,
        decreases count - b,
    {
        expected.push(
            if b == 0 {
                Some(0)
            } else {
                None
            },
        );
        came_from.push(None);
        b += 1;
    }
    let mut final_block: Option<usize> = None;
    proof {
        let s = TraceState { expected: expected@, came_from: came_from@, final_block };
        assert(s.expected =~= trace_start(p.blocks.len()).expected);
        assert(s.came_from =~= trace_start(p.blocks.len()).came_from);
    }
    let mut walker = program.walk();
    loop
        invariant
            p == program@,
            g == p.graph(),
            g == graph_of(program.basic_blocks@),
            well_formed(g),
            order == walk_order(g),
            labels == names_of(trace@),
            count == program.basic_blocks@.len(),
            walker.wf(),
            walker.blocks() == program.basic_blocks@,
            walker.yielded().len() <= order.len(),
            expected@.len() == count,
            came_from@.len() == count,
            forall|i: int|
                0 <= i < count ==> at_most(#[trigger] expected@[i], trace@.len() as int),
            forall|i: int|
                0 <= i < count ==> at_most(#[trigger] came_from@[i], count - 1),
            at_most(final_block, count - 1),
            (TraceState { expected: expected@, came_from: came_from@, final_block })
                == visit_along(p, labels, failing_assertion@, order, walker.yielded().len() as int),
        ensures
            final_block is Some || walker.yielded() == order,
        decreases order.len() - walker.yielded().len(),
    {
        let ghost before = TraceState { expected: expected@, came_from: came_from@, final_block };
        if final_block.is_some() {
            break ;
        }
        match walker.next() {
            Some((id, block)) => {
                let begin = match expected[id] {
                    Some(progress) => progress,
                    None => 0,
                };
                let (progress, found) = scan_block(block, failing_assertion, trace, begin);
                if found {
                    final_block = Some(id);
                } else {
                    let mut k: usize = 0;
                    while k < block.successors.len()
                        invariant
                            k <= block.successors@.len(),
                            id < count,
                            progress <= trace@.len(),
                            expected@.len() == count,
                            came_from@.len() == count,
                            forall|i: int|
                                0 <= i < count ==> at_most(#[trigger] expected@[i], trace@.len() as int),
                            forall|i: int|
                                0 <= i < count ==> at_most(#[trigger] came_from@[i], count - 1),
                            final_block is None,
                            (TraceState { expected: expected@, came_from: came_from@, final_block })
                                == offer(before, id, progress, block.successors@, k as int),
                        decreases block.successors@.len() - k,
                    {
                        let to = block.successors[k];
                        if to < count {
                            let better = match expected[to] {
                                Some(known) => known < progress,
                                None => true,
                            };
                            if better {
                                expected[to] = Some(progress);
                                came_from[to] = Some(id);
                            }
                        }
                        k += 1;
                    }
                }
            },
            None => {
                break ;
            },
        }
    }
    let ghost settled = visit_along(p, labels, failing_assertion@, order, order.len() as int);
    proof {
        let k = walker.yielded().len() as int;
        if final_block is Some {
            lemma_visit_settled(p, labels, failing_assertion@, order, k, order.len() as int);
        }
    }
    let last = match final_block {
        Some(last) => last,
        None => {
            return None;
        },
    };
    let mut path: Vec<usize> = Vec::new();
    path.push(last);
    let mut steps: usize = 0;
    loop
        invariant
            steps <= count,
            path@.len() > 0,
            came_from@.len() == count,
            came_from@ == settled.came_from,
            settled.final_block == Some(last),
            p == program@,
            labels == names_of(trace@),
            well_formed(p.graph()),
            count == program.basic_blocks@.len(),
            settled == visit_along(
                p,
                labels,
                failing_assertion@,
                walk_order(p.graph()),
                walk_order(p.graph()).len() as int,
            ),
            path@.last() < count,
            forall|i: int|
                0 <= i < count ==> at_most(#[trigger] came_from@[i], count - 1),
            path_back(came_from@, path@, (count - steps) as nat) == path_back(
                came_from@,
                seq![last],
                count as nat,
            ),
        ensures
            path@ == path_back(settled.came_from, seq![last], count as nat),
        decreases count - steps,
    {
        if steps >= count {
            break ;
        }
        let current = path[path.len() - 1];
        match came_from[current] {
            Some(block) => {
                path.push(block);
            },
            None => {
                break ;
            },
        }
        steps += 1;
    }
    let ghost back = path@;
    let mut forward: Vec<usize> = Vec::new();
    let mut i: usize = path.len();
    while i > 0
        invariant
            i <= path@.len(),
            path@ == back,
            p == program@,
            labels == names_of(trace@),
            well_formed(p.graph()),
            count == program.basic_blocks@.len(),
            settled == visit_along(
                p,
                labels,
                failing_assertion@,
                walk_order(p.graph()),
                walk_order(p.graph()).len() as int,
            ),
            settled.final_block == Some(last),
            back == path_back(settled.came_from, seq![last], count as nat),
            forward@.len() == path@.len() - i,
            forall|k: int| 0 <= k < forward@.len() ==> forward@[k] == path@[path@.len() - 1 - k],
        decreases i,
    {
        i -= 1;
        forward.push(path[i]);
    }
    proof {
        lemma_reconstructed_path(p, labels, failing_assertion@);
    }
    Some(forward)
}

} // verus!
