use svirpti::high;
use svirpti::high::parse;
use svirpti::high::parse::ParseError;

fn written_block(label: &str, statements: Vec<high::Statement>, goto: &[&str]) -> parse::BasicBlock {
    parse::BasicBlock {
        label: label.into(),
        guard: true.into(),
        statements,
        successor_labels: goto.iter().map(|label| (*label).into()).collect(),
    }
}

fn written_program(blocks: Vec<parse::BasicBlock>) -> parse::ProgramFragment {
    parse::ProgramFragment {
        sorts: vec![],
        axioms: vec![],
        functions: vec![],
        procedure: parse::ProcedureDeclaration {
            variables: vec![high::VariableDeclaration { name: "x".into(), sort: high::Type::Bool }],
            basic_blocks: blocks,
        },
    }
}

fn successors_of(program: &high::ProgramFragment) -> Vec<Vec<usize>> {
    program.procedure.basic_blocks.iter().map(|block| block.successors.clone()).collect()
}

fn manual_trivial_fail() -> high::ProgramFragment {
    high::ProgramFragment {
        sorts: vec![],
        axioms: vec![],
        functions: vec![],
        procedure: high::ProcedureDeclaration {
            variables: vec![high::VariableDeclaration { name: "x".into(), sort: high::Type::Bool }],
            basic_blocks: vec![
                high::BasicBlock {
                    label: "entry".into(),
                    guard: true.into(),
                    statements: vec![],
                    successors: vec![1],
                },
                high::BasicBlock {
                    label: "bb1".into(),
                    guard: true.into(),
                    statements: vec![high::Statement::assert_with_label(
                        high::Expression::variable("x".into()),
                        "expected_error".into(),
                    )],
                    successors: vec![2],
                },
                high::BasicBlock {
                    label: "exit".into(),
                    guard: true.into(),
                    statements: vec![],
                    successors: vec![],
                },
            ],
        },
    }
}

#[test]
fn trivial_fail_macro_test() {
    let program_macro = written_program(vec![written_block(
        "bb1",
        vec![high::Statement::assert_with_label(
            high::Expression::variable("x".into()),
            "expected_error".into(),
        )],
        &["exit"],
    )])
    .resolve()
    .unwrap();
    let program_manual = manual_trivial_fail();
    assert_eq!(program_macro, program_manual);
}

#[test]
fn written_procedure_without_blocks() {
    let program = written_program(vec![]).resolve().unwrap();
    assert_eq!(successors_of(&program), vec![vec![1], vec![]]);
    assert_eq!(program.procedure.basic_blocks[0].label.as_string(), "entry");
    assert_eq!(program.procedure.basic_blocks[1].label.as_string(), "exit");
    assert!(program.procedure.basic_blocks[0].guard.is_true());
    assert!(!program.procedure.basic_blocks[0].guard.is_false());
}

#[test]
fn written_diamond() {
    let program = written_program(vec![
        written_block("bb1", vec![], &["bb2", "bb3"]),
        written_block("bb2", vec![], &["bb4"]),
        written_block("bb3", vec![], &["bb4"]),
        written_block("bb4", vec![], &["exit"]),
    ])
    .resolve()
    .unwrap();
    assert_eq!(
        successors_of(&program),
        vec![vec![1], vec![2, 3], vec![4], vec![4], vec![5], vec![]]
    );
    let labels: Vec<String> =
        program.procedure.basic_blocks.iter().map(|block| block.label.as_string()).collect();
    assert_eq!(labels, vec!["entry", "bb1", "bb2", "bb3", "bb4", "exit"]);
    assert!(svirpti::lower::program::validate(&program));
}

#[test]
fn written_block_named_exit_is_not_the_exit() {
    let program = written_program(vec![
        written_block("exit", vec![], &["exit"]),
        written_block("other", vec![], &["other", "exit"]),
    ])
    .resolve()
    .unwrap();
    assert_eq!(successors_of(&program), vec![vec![1], vec![3], vec![2, 3], vec![]]);
}

#[test]
fn written_label_twice_is_refused() {
    let error = written_program(vec![
        written_block("bb1", vec![], &["nowhere"]),
        written_block("bb2", vec![], &["exit"]),
        written_block("bb1", vec![], &["exit"]),
        written_block("bb2", vec![], &["exit"]),
    ])
    .resolve()
    .unwrap_err();
    assert_eq!(error, ParseError::DuplicateLabel("bb1".into()));
}

#[test]
fn written_successor_without_a_block_is_refused() {
    let error = written_program(vec![
        written_block("bb1", vec![], &["bb2", "bb3", "bb4"]),
        written_block("bb2", vec![], &["bb5"]),
    ])
    .resolve()
    .unwrap_err();
    assert_eq!(error, ParseError::NoBlockWithLabel("bb3".into()));
    let entry = written_program(vec![written_block("bb1", vec![], &["entry"])])
        .resolve()
        .unwrap_err();
    assert_eq!(entry, ParseError::NoBlockWithLabel("entry".into()));
}
