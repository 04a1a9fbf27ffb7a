use svirpti::common::cfg::{
    validate_blocks, BasicBlockReverseWalker, BasicBlockWalker, BasicBlockWithSuccessors, Cfg,
};
use svirpti::low;

fn cfg_block(successors: Vec<usize>) -> low::BasicBlock {
    low::BasicBlock { statements: vec![], successors }
}

fn cfg_blocks(graph: &[&[usize]]) -> Vec<low::BasicBlock> {
    graph.iter().map(|successors| cfg_block(successors.to_vec())).collect()
}

fn cfg_program(graph: &[&[usize]]) -> low::ProgramFragment {
    low::ProgramFragment {
        uninterpreted_sorts: vec![],
        variables: vec![],
        functions: vec![],
        axioms: vec![],
        basic_blocks: cfg_blocks(graph),
    }
}

fn forward_order(program: &low::ProgramFragment) -> Vec<usize> {
    let mut walker = program.walk();
    let mut order = Vec::new();
    while let Some((id, block)) = walker.next() {
        assert_eq!(block.successors(), &program.basic_blocks[id].successors[..]);
        order.push(id);
    }
    assert!(walker.next().is_none());
    order
}

fn backward_order(program: &low::ProgramFragment) -> Vec<usize> {
    let mut walker = program.reverse_walk();
    let mut order = Vec::new();
    while let Some((id, _)) = walker.next() {
        order.push(id);
    }
    order
}

/// Every block once, each only after all the blocks with an edge to it.
fn assert_topological(graph: &[&[usize]], order: &[usize]) {
    assert_eq!(order.len(), graph.len());
    for (block, successors) in graph.iter().enumerate() {
        let position = order.iter().position(|id| *id == block).unwrap();
        for successor in successors.iter() {
            let after = order.iter().position(|id| id == successor).unwrap();
            assert!(position < after, "{} is not before {}", block, successor);
        }
    }
}

#[test]
fn walk_of_a_chain() {
    let graph: &[&[usize]] = &[&[1], &[2], &[]];
    let program = cfg_program(graph);
    assert!(program.validate());
    assert_eq!(program.entry_block(), 0);
    assert_eq!(program.exit_block(), 2);
    assert_eq!(forward_order(&program), vec![0, 1, 2]);
    assert_eq!(backward_order(&program), vec![2, 1, 0]);
}

#[test]
fn walk_of_a_diamond() {
    let graph: &[&[usize]] = &[&[1], &[2, 3], &[4], &[4], &[5], &[]];
    let program = cfg_program(graph);
    assert!(program.validate());
    let order = forward_order(&program);
    assert_eq!(order, vec![0, 1, 2, 3, 4, 5]);
    assert_topological(graph, &order);
    let reverse = backward_order(&program);
    assert_eq!(reverse, vec![5, 4, 2, 3, 1, 0]);
    let mut turned = reverse.clone();
    turned.reverse();
    assert_topological(graph, &turned);
}

#[test]
fn walk_waits_for_every_predecessor() {
    // The block 3 is listed before the block 2, which leads to it.
    let graph: &[&[usize]] = &[&[1], &[3, 2], &[3], &[4], &[]];
    let program = cfg_program(graph);
    assert!(program.validate());
    let order = forward_order(&program);
    assert_eq!(order, vec![0, 1, 2, 3, 4]);
    assert_topological(graph, &order);
    assert_eq!(order[0], 0);
    assert_eq!(*order.last().unwrap(), 4);
    let reverse = backward_order(&program);
    assert_eq!(reverse, vec![4, 3, 2, 1, 0]);
    assert_eq!(reverse[0], 4);
    assert_eq!(*reverse.last().unwrap(), 0);
}

#[test]
fn walk_with_a_doubled_edge() {
    let graph: &[&[usize]] = &[&[1, 1], &[2], &[]];
    let program = cfg_program(graph);
    assert!(program.validate());
    assert_eq!(forward_order(&program), vec![0, 1, 2]);
    assert_eq!(backward_order(&program), vec![2, 1, 0]);
    assert_eq!(program.compute_predecessors(), vec![vec![], vec![0, 0], vec![1]]);
}

#[test]
fn predecessors_of_a_diamond() {
    let program = cfg_program(&[&[1], &[2, 3], &[4], &[4], &[5], &[]]);
    assert_eq!(
        program.compute_predecessors(),
        vec![vec![], vec![0], vec![1], vec![1], vec![2, 3], vec![4]]
    );
}

#[test]
fn walkers_made_by_hand() {
    let blocks = cfg_blocks(&[&[1], &[2], &[]]);
    let mut walker = BasicBlockWalker::new(&blocks, 0);
    assert_eq!(walker.next().map(|(id, _)| id), Some(0));
    assert_eq!(walker.next().map(|(id, _)| id), Some(1));
    assert_eq!(walker.next().map(|(id, _)| id), Some(2));
    assert!(walker.next().is_none());
    let predecessors = vec![vec![], vec![0], vec![1]];
    let mut reverse = BasicBlockReverseWalker::new(&blocks, predecessors, 2);
    assert_eq!(reverse.next().map(|(id, _)| id), Some(2));
    assert_eq!(reverse.next().map(|(id, _)| id), Some(1));
    assert_eq!(reverse.next().map(|(id, _)| id), Some(0));
    assert!(reverse.next().is_none());
}

#[test]
fn validate_wants_two_blocks() {
    assert!(!validate_blocks(&cfg_blocks(&[])));
    assert!(!validate_blocks(&cfg_blocks(&[&[]])));
    assert!(validate_blocks(&cfg_blocks(&[&[1], &[]])));
}

#[test]
fn validate_refuses_an_edge_into_the_entry() {
    assert!(!validate_blocks(&cfg_blocks(&[&[1], &[0, 2], &[]])));
}

#[test]
fn validate_refuses_an_edge_out_of_the_exit() {
    assert!(!validate_blocks(&cfg_blocks(&[&[1], &[2], &[1]])));
}

#[test]
fn validate_refuses_an_edge_out_of_the_graph() {
    assert!(!validate_blocks(&cfg_blocks(&[&[1], &[3], &[]])));
}

#[test]
fn validate_refuses_a_cycle() {
    assert!(!validate_blocks(&cfg_blocks(&[&[1], &[2], &[1, 3], &[]])));
    assert!(!validate_blocks(&cfg_blocks(&[&[1], &[1, 2], &[]])));
}

#[test]
fn validate_refuses_a_block_that_is_not_reached() {
    assert!(!validate_blocks(&cfg_blocks(&[&[2], &[2], &[]])));
}

#[test]
fn validate_refuses_a_block_without_successors() {
    assert!(!validate_blocks(&cfg_blocks(&[&[1, 2], &[], &[]])));
}
