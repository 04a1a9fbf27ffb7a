use svirpti::context::StringContext;
use svirpti::high;
use svirpti::low;
use svirpti::lower::program::validate;
use svirpti::lower::smt_context::SmtContext;
use svirpti::smt;
use svirpti::smt::print::expression_to_smt2;
use svirpti::solvers::SatResult;
use svirpti::verification_result::{VerificationError, VerificationFailure, VerificationResult};
use svirpti::{encode, lower, verification_condition};

fn var(name: &str) -> high::Expression {
    high::Expression::variable(name.into())
}

fn number(value: i64) -> high::Expression {
    value.into()
}

fn local(name: &str, sort: high::Type) -> high::VariableDeclaration {
    high::VariableDeclaration { name: name.into(), sort }
}

fn block(
    label: &str,
    guard: high::Expression,
    statements: Vec<high::Statement>,
    successors: Vec<high::BasicBlockId>,
) -> high::BasicBlock {
    high::BasicBlock { label: label.into(), guard, statements, successors }
}

/// A program with the entry before `blocks` and the exit after them.
fn program(
    variables: Vec<high::VariableDeclaration>,
    blocks: Vec<high::BasicBlock>,
) -> high::ProgramFragment {
    let mut basic_blocks = vec![block("entry", true.into(), vec![], vec![1])];
    basic_blocks.extend(blocks);
    basic_blocks.push(block("exit", true.into(), vec![], vec![]));
    high::ProgramFragment {
        sorts: vec![],
        axioms: vec![],
        functions: vec![],
        procedure: high::ProcedureDeclaration { variables, basic_blocks },
    }
}

fn trivial_fail() -> high::ProgramFragment {
    high::ProgramFragment {
        sorts: vec![],
        axioms: vec![],
        functions: vec![],
        procedure: high::ProcedureDeclaration {
            variables: vec![high::VariableDeclaration { name: "x".into(), sort: high::Type::Bool }],
            basic_blocks: vec![
                high::BasicBlock {
                    label: "entry".into(),
                    guard: true.into(),
                    statements: vec![],
                    successors: vec![1],
                },
                high::BasicBlock {
                    label: "bb1".into(),
                    guard: true.into(),
                    statements: vec![high::Statement::assert_with_label(
                        high::Expression::variable("x".into()),
                        "expected_error".into(),
                    )],
                    successors: vec![2],
                },
                high::BasicBlock {
                    label: "exit".into(),
                    guard: true.into(),
                    statements: vec![],
                    successors: vec![],
                },
            ],
        },
    }
}

fn texts(assertions: &[smt::Expression]) -> Vec<String> {
    assertions.iter().map(expression_to_smt2).collect()
}

fn low_texts(program: &low::ProgramFragment) -> Vec<Vec<String>> {
    let mut context = StringContext {};
    program
        .basic_blocks
        .iter()
        .map(|block| {
            block
                .statements
                .iter()
                .map(|statement| {
                    let (word, assertion, label) = match statement {
                        low::Statement::Assert(s) => ("assert", &s.assertion, &s.label),
                        low::Statement::Assume(s) => ("assume", &s.assertion, &s.label),
                    };
                    let text = expression_to_smt2(&svirpti::wp::expression::lower_expression(
                        &mut context,
                        assertion,
                    ));
                    match label {
                        Some(label) => format!("{} {} {}", word, label.as_string(), text),
                        None => format!("{} {}", word, text),
                    }
                })
                .collect()
        })
        .collect()
}

fn names(variables: &[low::VariableDeclaration]) -> Vec<String> {
    variables.iter().map(|variable| variable.name.as_string()).collect()
}

fn smt_names(variables: &[smt::VariableDeclaration]) -> Vec<String> {
    variables.iter().map(|variable| variable.name.as_string()).collect()
}

fn label_names(labels: &[smt::LabelDeclaration]) -> Vec<String> {
    labels.iter().map(|label| label.name.as_string()).collect()
}

fn item(name: &str, value: smt::Value) -> smt::ModelItem {
    let sort = match value {
        smt::Value::Int(_) => smt::Sort::Int,
        _ => smt::Sort::Bool,
    };
    smt::ModelItem { name: name.into(), args: vec![], sort, value }
}

fn lit(names: &[&str]) -> Vec<smt::LabelSymbol> {
    names.iter().map(|name| (*name).into()).collect()
}

fn strings(names: &[&str]) -> Vec<String> {
    names.iter().map(|name| name.to_string()).collect()
}

fn high_labels(labels: &[high::LabelSymbol]) -> Vec<String> {
    labels.iter().map(|label| label.as_string()).collect()
}

/// Answers the questions of the search from `answers`, one after the other,
/// and gives back the questions with the failures that were reported.
fn search_with(
    failure: &mut VerificationFailure<StringContext>,
    answers: Vec<Option<(Vec<smt::LabelSymbol>, smt::Model)>>,
) -> Vec<Vec<String>> {
    let mut questions = Vec::new();
    let mut answers = answers.into_iter();
    while let Some(assumptions) = failure.next_assumptions() {
        questions.push(texts(&assumptions));
        match answers.next().expect("the search asks more often than expected") {
            Some((labels, model)) => failure.found(&labels, &model).unwrap(),
            None => {}
        }
    }
    assert!(answers.next().is_none(), "the search asks less often than expected");
    questions
}

#[test]
fn lower_trivial_fail() {
    let program = trivial_fail();
    assert!(validate(&program));
    let mut context = StringContext {};
    let lowered = lower(&program, &mut context).unwrap();
    assert_eq!(names(&lowered.variables), vec!["x@0"]);
    assert_eq!(lowered.variables[0].sort, low::Sort::Bool);
    assert_eq!(
        low_texts(&lowered),
        vec![vec![], vec!["assert expected_error x@0".to_string()], vec![]]
    );
    assert_eq!(lowered.basic_blocks[0].successors, vec![1]);
    assert_eq!(lowered.basic_blocks[1].successors, vec![2]);
    assert!(lowered.basic_blocks[2].successors.is_empty());
    assert!(lowered.uninterpreted_sorts.is_empty());
    assert!(lowered.functions.is_empty());
    assert!(lowered.axioms.is_empty());
}

#[test]
fn encode_trivial_fail() {
    let program = trivial_fail();
    let mut context = StringContext {};
    let lowered = lower(&program, &mut context).unwrap();
    let encoded = encode(&lowered, &mut context).unwrap();
    assert_eq!(
        texts(&encoded.assertions),
        vec![
            "(= BB@2 true)",
            "(= BB@1 (and (! x@0 :lblneg expected_error) BB@2))",
            "(= BB@0 BB@1)",
            "(not BB@0)",
        ]
    );
    assert_eq!(smt_names(&encoded.declarations.variables), vec!["x@0", "BB@2", "BB@1", "BB@0"]);
    assert_eq!(label_names(&encoded.declarations.labels), vec!["expected_error"]);
    assert!(encoded.declarations.sorts.is_empty());
    assert!(encoded.declarations.functions.is_empty());
}

#[test]
fn verify_trivial_fail() {
    let program = trivial_fail();
    let mut context = StringContext {};
    let (lowered, query) = verification_condition(&mut context, &program).unwrap();
    let smt_context = SmtContext::new(&context, lowered, &query.declarations);
    let model = smt::Model {
        items: vec![
            item("x@0", smt::Value::Bool(false)),
            item("expected_error", smt::Value::Bool(true)),
            item("BB@0", smt::Value::Bool(false)),
        ],
    };
    let result =
        VerificationResult::new(smt_context, SatResult::Sat, &lit(&["expected_error"]), &model)
            .unwrap();
    match result {
        VerificationResult::Failure(mut failure) => {
            let questions = search_with(&mut failure, vec![None]);
            assert_eq!(questions, vec![strings(&["(not expected_error)"])]);
            let errors: Vec<VerificationError> = failure.reported_errors();
            assert_eq!(errors.len(), 1);
            let error = &errors[0];
            assert_eq!(error.failing_assertion.as_string(), "expected_error");
            assert_eq!(error.trace, vec![0, 1]);
            assert_eq!(high_labels(&error.labels), vec!["expected_error"]);
            assert_eq!(error.model.variables.len(), 1);
            assert_eq!(error.model.variables[0].0.as_string(), "x@0");
            assert_eq!(error.model.variables[0].1, smt::Value::Bool(false));
            assert_eq!(
                high_labels(&error.get_trace_labels(&program.procedure)),
                vec!["entry", "bb1"]
            );
        }
        VerificationResult::Success => unreachable!("Success"),
    }
}

#[test]
fn check_assume_encoding() {
    let program = program(
        vec![local("a", high::Type::Bool), local("b", high::Type::Bool)],
        vec![block(
            "bb1",
            high::Expression::not(var("a")),
            vec![
                high::Statement::assume_with_label(var("a"), "l1".into()),
                high::Statement::assert_with_label(var("b"), "l2".into()),
            ],
            vec![2],
        )],
    );
    assert!(validate(&program));
    let mut context = StringContext {};
    let lowered = lower(&program, &mut context).unwrap();
    assert_eq!(names(&lowered.variables), vec!["a@0", "b@0"]);
    assert_eq!(
        low_texts(&lowered),
        vec![
            vec![],
            strings(&["assume bb1 (not a@0)", "assume l1 a@0", "assert l2 b@0"]),
            vec![],
        ]
    );
    let encoded = encode(&lowered, &mut context).unwrap();
    assert_eq!(
        texts(&encoded.assertions),
        vec![
            "(= BB@2 true)",
            "(= BB@1 (=> (! (not a@0) :lblpos bb1) (=> (! a@0 :lblpos l1) (and (! b@0 :lblneg l2) BB@2))))",
            "(= BB@0 BB@1)",
            "(not BB@0)",
        ]
    );
    assert_eq!(label_names(&encoded.declarations.labels), vec!["l2", "l1", "bb1"]);
    assert_eq!(
        smt_names(&encoded.declarations.variables),
        vec!["a@0", "b@0", "BB@2", "BB@1", "BB@0"]
    );
    let smt_context = SmtContext::new(&context, lowered, &encoded.declarations);
    let model = smt::Model { items: vec![] };
    assert!(VerificationResult::new(smt_context, SatResult::Unsat, &vec![], &model)
        .unwrap()
        .is_success());
}

#[test]
fn check_sequence_encoding() {
    let program = program(
        vec![local("a", high::Type::Int)],
        vec![
            block("bb1", high::Expression::less_than(number(0), var("a")), vec![], vec![2]),
            block("bb2", high::Expression::less_than(var("a"), number(10)), vec![], vec![3]),
            block(
                "bb3",
                true.into(),
                vec![high::Statement::assert_with_label(
                    high::Expression::and(
                        high::Expression::less_than(number(0), var("a")),
                        high::Expression::less_than(var("a"), number(10)),
                    ),
                    "l".into(),
                )],
                vec![4],
            ),
        ],
    );
    assert!(validate(&program));
    let mut context = StringContext {};
    let lowered = lower(&program, &mut context).unwrap();
    assert_eq!(names(&lowered.variables), vec!["a@0"]);
    assert_eq!(
        low_texts(&lowered),
        vec![
            vec![],
            strings(&["assume bb1 (< 0 a@0)"]),
            strings(&["assume bb2 (< a@0 10)"]),
            strings(&["assert l (and (< 0 a@0) (< a@0 10))"]),
            vec![],
        ]
    );
    let encoded = encode(&lowered, &mut context).unwrap();
    assert_eq!(
        texts(&encoded.assertions),
        vec![
            "(= BB@4 true)",
            "(= BB@3 (and (! (and (< 0 a@0) (< a@0 10)) :lblneg l) BB@4))",
            "(= BB@2 (=> (! (< a@0 10) :lblpos bb2) BB@3))",
            "(= BB@1 (=> (! (< 0 a@0) :lblpos bb1) BB@2))",
            "(= BB@0 BB@1)",
            "(not BB@0)",
        ]
    );
    let smt_context = SmtContext::new(&context, lowered, &encoded.declarations);
    let model = smt::Model { items: vec![] };
    assert!(VerificationResult::new(smt_context, SatResult::Unsat, &vec![], &model)
        .unwrap()
        .is_success());
}

#[test]
fn check_non_deterministic_choice_encoding() {
    let program = program(
        vec![
            local("a", high::Type::Bool),
            local("b", high::Type::Bool),
            local("x", high::Type::Int),
        ],
        vec![
            block("bb1", true.into(), vec![], vec![2, 3]),
            block(
                "bb2",
                var("a"),
                vec![high::Statement::assume_with_label(
                    high::Expression::greater_than(var("x"), number(5)),
                    "l1".into(),
                )],
                vec![4],
            ),
            block(
                "bb3",
                var("b"),
                vec![high::Statement::assume_with_label(
                    high::Expression::less_than(var("x"), number(8)),
                    "l2".into(),
                )],
                vec![4],
            ),
            block(
                "bb4",
                true.into(),
                vec![high::Statement::assert_with_label(
                    high::Expression::or(
                        high::Expression::implies(
                            var("a"),
                            high::Expression::greater_than(var("x"), number(5)),
                        ),
                        high::Expression::implies(
                            var("b"),
                            high::Expression::less_than(var("x"), number(8)),
                        ),
                    ),
                    "l3".into(),
                )],
                vec![5],
            ),
        ],
    );
    assert!(validate(&program));
    let mut context = StringContext {};
    let lowered = lower(&program, &mut context).unwrap();
    assert_eq!(names(&lowered.variables), vec!["a@0", "b@0", "x@0"]);
    assert_eq!(
        low_texts(&lowered),
        vec![
            vec![],
            vec![],
            strings(&["assume bb2 a@0", "assume l1 (> x@0 5)"]),
            strings(&["assume bb3 b@0", "assume l2 (< x@0 8)"]),
            strings(&["assert l3 (or (=> a@0 (> x@0 5)) (=> b@0 (< x@0 8)))"]),
            vec![],
        ]
    );
    let encoded = encode(&lowered, &mut context).unwrap();
    assert_eq!(
        texts(&encoded.assertions),
        vec![
            "(= BB@5 true)",
            "(= BB@4 (and (! (or (=> a@0 (> x@0 5)) (=> b@0 (< x@0 8))) :lblneg l3) BB@5))",
            "(= BB@2 (=> (! a@0 :lblpos bb2) (=> (! (> x@0 5) :lblpos l1) BB@4)))",
            "(= BB@3 (=> (! b@0 :lblpos bb3) (=> (! (< x@0 8) :lblpos l2) BB@4)))",
            "(= BB@1 (and BB@2 BB@3))",
            "(= BB@0 BB@1)",
            "(not BB@0)",
        ]
    );
    let smt_context = SmtContext::new(&context, lowered, &encoded.declarations);
    let model = smt::Model { items: vec![] };
    assert!(VerificationResult::new(smt_context, SatResult::Unsat, &vec![], &model)
        .unwrap()
        .is_success());
}

#[test]
fn check_non_deterministic_choice_encoding2() {
    let program = program(
        vec![
            local("a", high::Type::Bool),
            local("b", high::Type::Bool),
            local("c", high::Type::Bool),
        ],
        vec![
            block("bb1", true.into(), vec![], vec![2, 3]),
            block(
                "bb2",
                var("a"),
                vec![high::Statement::assume_with_label(var("b"), "l1".into())],
                vec![4],
            ),
            block("bb3", var("c"), vec![], vec![4]),
            block(
                "bb4",
                true.into(),
                vec![high::Statement::assert_with_label(
                    high::Expression::or(high::Expression::implies(var("a"), var("b")), var("c")),
                    "l3".into(),
                )],
                vec![5],
            ),
        ],
    );
    assert!(validate(&program));
    let mut context = StringContext {};
    let lowered = lower(&program, &mut context).unwrap();
    assert_eq!(
        low_texts(&lowered),
        vec![
            vec![],
            vec![],
            strings(&["assume bb2 a@0", "assume l1 b@0"]),
            strings(&["assume bb3 c@0"]),
            strings(&["assert l3 (or (=> a@0 b@0) c@0)"]),
            vec![],
        ]
    );
    let encoded = encode(&lowered, &mut context).unwrap();
    assert_eq!(
        texts(&encoded.assertions),
        vec![
            "(= BB@5 true)",
            "(= BB@4 (and (! (or (=> a@0 b@0) c@0) :lblneg l3) BB@5))",
            "(= BB@2 (=> (! a@0 :lblpos bb2) (=> (! b@0 :lblpos l1) BB@4)))",
            "(= BB@3 (=> (! c@0 :lblpos bb3) BB@4))",
            "(= BB@1 (and BB@2 BB@3))",
            "(= BB@0 BB@1)",
            "(not BB@0)",
        ]
    );
    let smt_context = SmtContext::new(&context, lowered, &encoded.declarations);
    let model = smt::Model { items: vec![] };
    assert!(VerificationResult::new(smt_context, SatResult::Unsat, &vec![], &model)
        .unwrap()
        .is_success());
}

#[test]
fn check_assign_encoding() {
    let program = program(
        vec![local("a", high::Type::Int), local("b", high::Type::Int)],
        vec![
            block(
                "bb1",
                true.into(),
                vec![high::Statement::assign(high::Variable { name: "a".into() }, var("b"))],
                vec![2],
            ),
            block(
                "bb2",
                true.into(),
                vec![high::Statement::assert_with_label(
                    high::Expression::equals(var("a"), var("b")),
                    "l1".into(),
                )],
                vec![3],
            ),
        ],
    );
    assert!(validate(&program));
    let mut context = StringContext {};
    let lowered = lower(&program, &mut context).unwrap();
    assert_eq!(names(&lowered.variables), vec!["a@0", "b@0", "a@1"]);
    assert_eq!(
        low_texts(&lowered),
        vec![
            vec![],
            strings(&["assume (= a@1 b@0)"]),
            strings(&["assert l1 (= a@1 b@0)"]),
            vec![],
        ]
    );
    let encoded = encode(&lowered, &mut context).unwrap();
    assert_eq!(
        texts(&encoded.assertions),
        vec![
            "(= BB@3 true)",
            "(= BB@2 (and (! (= a@1 b@0) :lblneg l1) BB@3))",
            "(= BB@1 (=> (= a@1 b@0) BB@2))",
            "(= BB@0 BB@1)",
            "(not BB@0)",
        ]
    );
    let smt_context = SmtContext::new(&context, lowered, &encoded.declarations);
    let model = smt::Model { items: vec![] };
    assert!(VerificationResult::new(smt_context, SatResult::Unsat, &vec![], &model)
        .unwrap()
        .is_success());
}

#[test]
fn check_multiple_errors() {
    let program = program(
        vec![local("x", high::Type::Int)],
        vec![
            block("bb1", true.into(), vec![], vec![2, 3]),
            block(
                "bb2",
                high::Expression::greater_than(var("x"), number(0)),
                vec![high::Statement::assert_with_label(
                    high::Expression::equals(var("x"), number(2)),
                    "l1".into(),
                )],
                vec![4],
            ),
            block(
                "bb3",
                high::Expression::not(high::Expression::greater_than(var("x"), number(0))),
                vec![
                    high::Statement::assert_with_label(
                        high::Expression::less_than(var("x"), number(0)),
                        "l2".into(),
                    ),
                    high::Statement::assert_with_label(
                        high::Expression::not_equals(var("x"), number(0)),
                        "l3".into(),
                    ),
                ],
                vec![4],
            ),
            block("bb4", true.into(), vec![], vec![5]),
        ],
    );
    assert!(validate(&program));
    let mut context = StringContext {};
    let lowered = lower(&program, &mut context).unwrap();
    assert_eq!(
        low_texts(&lowered),
        vec![
            vec![],
            vec![],
            strings(&["assume bb2 (> x@0 0)", "assert l1 (= x@0 2)"]),
            strings(&[
                "assume bb3 (not (> x@0 0))",
                "assert l2 (< x@0 0)",
                "assert l3 (distinct x@0 0)",
            ]),
            vec![],
            vec![],
        ]
    );
    let encoded = encode(&lowered, &mut context).unwrap();
    assert_eq!(
        texts(&encoded.assertions),
        vec![
            "(= BB@5 true)",
            "(= BB@4 BB@5)",
            "(= BB@2 (=> (! (> x@0 0) :lblpos bb2) (and (! (= x@0 2) :lblneg l1) BB@4)))",
            "(= BB@3 (=> (! (not (> x@0 0)) :lblpos bb3) (and (! (< x@0 0) :lblneg l2) (and (! (distinct x@0 0) :lblneg l3) BB@4))))",
            "(= BB@1 (and BB@2 BB@3))",
            "(= BB@0 BB@1)",
            "(not BB@0)",
        ]
    );
    let smt_context = SmtContext::new(&context, lowered, &encoded.declarations);
    let positive = smt::Model {
        items: vec![
            item("x@0", smt::Value::Int(1)),
            item("bb2", smt::Value::Bool(true)),
            item("l1", smt::Value::Bool(true)),
            item("bb3", smt::Value::Bool(false)),
        ],
    };
    let zero = smt::Model {
        items: vec![
            item("x@0", smt::Value::Int(0)),
            item("bb3", smt::Value::Bool(true)),
            item("l2", smt::Value::Bool(true)),
            item("l3", smt::Value::Bool(true)),
        ],
    };
    match VerificationResult::new(smt_context, SatResult::Unknown, &lit(&["l1", "bb2"]), &positive)
        .unwrap()
    {
        VerificationResult::Failure(mut failure) => {
            let questions = search_with(
                &mut failure,
                vec![
                    None,
                    Some((lit(&["bb3", "l2", "l3"]), zero)),
                    None,
                    None,
                    Some((lit(&["bb2", "l1"]), positive)),
                ],
            );
            assert_eq!(
                questions,
                vec![
                    strings(&["bb2", "(not l1)"]),
                    strings(&["(not bb2)"]),
                    strings(&["bb3", "l2", "(not l3)"]),
                    strings(&["bb3", "(not l2)"]),
                    strings(&["(not bb3)"]),
                ]
            );
            let errors = failure.reported_errors();
            assert!(errors.len() >= 2);
            assert_eq!(errors.len(), 3);
            assert_eq!(errors[0].failing_assertion.as_string(), "l1");
            assert_eq!(errors[0].trace, vec![0, 1, 2]);
            assert_eq!(high_labels(&errors[0].labels), vec!["bb2", "l1"]);
            assert_eq!(errors[0].model.variables[0].1, smt::Value::Int(1));
            assert_eq!(errors[1].failing_assertion.as_string(), "l3");
            assert_eq!(errors[1].trace, vec![0, 1, 3]);
            assert_eq!(high_labels(&errors[1].labels), vec!["bb3", "l2", "l3"]);
            assert_eq!(errors[1].model.variables[0].1, smt::Value::Int(0));
            assert_eq!(errors[2].failing_assertion.as_string(), "l1");
            assert_eq!(errors[2].trace, vec![0, 1, 2]);
        }
        VerificationResult::Success => unreachable!("Success"),
    }
}

#[test]
fn labels_paper_example() {
    let in_range = || {
        high::Expression::and(
            high::Expression::not(high::Expression::less_than(var("k"), number(10))),
            high::Expression::less_than(var("k"), number(20)),
        )
    };
    let program = program(
        vec![local("j", high::Type::Int), local("k", high::Type::Int)],
        vec![
            block("bb1", true.into(), vec![], vec![2, 3]),
            block(
                "bb_then",
                in_range(),
                vec![high::Statement::assign(high::Variable { name: "j".into() }, var("k"))],
                vec![4],
            ),
            block(
                "bb_else",
                high::Expression::not(in_range()),
                vec![high::Statement::assign(high::Variable { name: "j".into() }, var("k"))],
                vec![4],
            ),
            block(
                "bb_merge",
                true.into(),
                vec![high::Statement::assert_with_label(
                    high::Expression::and(
                        high::Expression::less_equals(number(0), var("j")),
                        high::Expression::less_than(var("j"), number(100)),
                    ),
                    "bounds_check".into(),
                )],
                vec![5],
            ),
        ],
    );
    assert!(validate(&program));
    let mut context = StringContext {};
    let lowered = lower(&program, &mut context).unwrap();
    assert_eq!(names(&lowered.variables), vec!["j@0", "k@0", "j@1", "j@2"]);
    assert_eq!(
        low_texts(&lowered),
        vec![
            vec![],
            vec![],
            strings(&[
                "assume bb_then (and (not (< k@0 10)) (< k@0 20))",
                "assume (= j@1 k@0)",
            ]),
            strings(&[
                "assume bb_else (not (and (not (< k@0 10)) (< k@0 20)))",
                "assume (= j@2 k@0)",
            ]),
            strings(&[
                "assume (= j@1 j@2)",
                "assert bounds_check (and (<= 0 j@2) (< j@2 100))",
            ]),
            vec![],
        ]
    );
    let (lowered, query) = verification_condition(&mut context, &program).unwrap();
    let smt_context = SmtContext::new(&context, lowered, &query.declarations);
    let model = smt::Model {
        items: vec![
            item("k@0", smt::Value::Int(100)),
            item("j@2", smt::Value::Int(100)),
            item("j@1", smt::Value::Int(100)),
            item("j@0", smt::Value::Int(0)),
            item("bb_else", smt::Value::Bool(true)),
            item("bounds_check", smt::Value::Bool(true)),
            item("BB@0", smt::Value::Bool(false)),
        ],
    };
    match VerificationResult::new(
        smt_context,
        SatResult::Unknown,
        &lit(&["bounds_check", "bb_else"]),
        &model,
    )
    .unwrap()
    {
        VerificationResult::Failure(mut failure) => {
            let questions = search_with(&mut failure, vec![None, None]);
            assert_eq!(
                questions,
                vec![strings(&["bb_else", "(not bounds_check)"]), strings(&["(not bb_else)"])]
            );
            let mut errors = failure.reported_errors();
            assert_eq!(errors.len(), 1);
            let error = errors.pop().unwrap();
            assert_eq!(error.failing_assertion.as_string(), "bounds_check");
            assert!(high_labels(&error.labels).contains(&"bounds_check".to_string()));
            assert_eq!(error.trace, vec![0, 1, 3, 4]);
            assert_eq!(
                high_labels(&error.get_trace_labels(&program.procedure)),
                vec!["entry", "bb1", "bb_else", "bb_merge"]
            );
            let values: Vec<(String, smt::Value)> = error
                .model
                .variables
                .iter()
                .map(|(name, value)| (name.as_string(), value.clone()))
                .collect();
            assert_eq!(
                values,
                vec![
                    ("j@0".to_string(), smt::Value::Int(0)),
                    ("j@1".to_string(), smt::Value::Int(100)),
                    ("j@2".to_string(), smt::Value::Int(100)),
                    ("k@0".to_string(), smt::Value::Int(100)),
                ]
            );
        }
        VerificationResult::Success => unreachable!("Success"),
    }
}
