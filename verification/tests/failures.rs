use svirpti::context::StringContext;
use svirpti::low;
use svirpti::lower::smt_context::SmtContext;
use svirpti::smt;
use svirpti::smt::parse::{parse_int, parse_labels, parse_type, split_words};
use svirpti::smt::print::{expression_to_smt2, sort_to_smt2};
use svirpti::solvers::{check_script, verification_script, SatResult, SolverCommand};
use svirpti::verification_result::{describe_failure, VerificationFailure};
use svirpti::wp::labels::LabelOrder;
use svirpti::wp::search::FailureSearch;
use svirpti::wp::trace::reconstruct_trace;
use svirpti::wp::verification_result::{Model, VerificationError};
use svirpti::{SmtSolverError, SvirptiError, SvirptiErrorKind, VerifierError};

fn labelled(label: &str) -> low::Statement {
    low::Statement::assume_with_label(true.into(), label.into())
}

fn asserted(label: &str) -> low::Statement {
    low::Statement::assert_with_label(false.into(), label.into())
}

fn low_program(blocks: Vec<(Vec<low::Statement>, Vec<usize>)>) -> low::ProgramFragment {
    low::ProgramFragment {
        uninterpreted_sorts: vec![],
        variables: vec![
            low::VariableDeclaration { name: "x@0".into(), sort: low::Sort::Int },
            low::VariableDeclaration { name: "x@1".into(), sort: low::Sort::Int },
        ],
        functions: vec![],
        axioms: vec![],
        basic_blocks: blocks
            .into_iter()
            .map(|(statements, successors)| low::BasicBlock { statements, successors })
            .collect(),
    }
}

///        1 (a) --- 3 (c, f)
/// 0 ---<                    >--- 5
///        2 (b) --- 4 (d, f)
fn two_ways() -> low::ProgramFragment {
    low_program(vec![
        (vec![], vec![1, 2]),
        (vec![labelled("a")], vec![3]),
        (vec![labelled("b")], vec![4]),
        (vec![labelled("c"), asserted("f")], vec![5]),
        (vec![labelled("d"), asserted("f")], vec![5]),
        (vec![], vec![]),
    ])
}

fn low_labels(names: &[&str]) -> Vec<low::LabelSymbol> {
    names.iter().map(|name| (*name).into()).collect()
}

fn smt_labels(names: &[&str]) -> Vec<smt::LabelSymbol> {
    names.iter().map(|name| (*name).into()).collect()
}

fn model_item(name: &str, value: smt::Value) -> smt::ModelItem {
    let sort = match value {
        smt::Value::Int(_) => smt::Sort::Int,
        _ => smt::Sort::Bool,
    };
    smt::ModelItem { name: name.into(), args: vec![], sort, value }
}

fn question_texts(assumptions: Option<Vec<smt::Expression>>) -> Option<Vec<String>> {
    assumptions.map(|assumptions| assumptions.iter().map(expression_to_smt2).collect())
}

fn empty_declarations() -> smt::Declarations {
    smt::Declarations { sorts: vec![], variables: vec![], functions: vec![], labels: vec![] }
}

#[test]
fn trace_follows_the_labels() {
    let program = two_ways();
    assert_eq!(
        reconstruct_trace(&program, &"f".into(), &low_labels(&["a", "c"])),
        Some(vec![0, 1, 3])
    );
    assert_eq!(
        reconstruct_trace(&program, &"f".into(), &low_labels(&["b", "d"])),
        Some(vec![0, 2, 4])
    );
    assert_eq!(reconstruct_trace(&program, &"f".into(), &low_labels(&["d"])), Some(vec![0, 2, 4]));
}

#[test]
fn trace_without_labels_ends_at_the_first_block_with_the_failure() {
    let program = two_ways();
    assert_eq!(reconstruct_trace(&program, &"f".into(), &vec![]), Some(vec![0, 1, 3]));
}

#[test]
fn trace_is_a_path_from_the_entry() {
    let program = two_ways();
    for trace in [vec!["a", "c"], vec!["b", "d"], vec!["c"], vec![]] {
        let path = reconstruct_trace(&program, &"f".into(), &low_labels(&trace)).unwrap();
        assert_eq!(path[0], 0);
        for step in path.windows(2) {
            assert!(program.basic_blocks[step[0]].successors.contains(&step[1]));
        }
        let last = &program.basic_blocks[*path.last().unwrap()];
        assert!(last
            .statements
            .iter()
            .any(|statement| statement.get_label().map(|label| label.as_string())
                == Some("f".to_string())));
    }
}

#[test]
fn trace_that_no_path_passes_is_not_found() {
    let program = two_ways();
    assert_eq!(reconstruct_trace(&program, &"f".into(), &low_labels(&["a", "d"])), None);
    assert_eq!(reconstruct_trace(&program, &"g".into(), &low_labels(&["a"])), None);
    assert_eq!(reconstruct_trace(&program, &"f".into(), &low_labels(&["c", "a"])), None);
}

#[test]
fn trace_of_the_label_in_a_later_block() {
    let program = low_program(vec![
        (vec![], vec![1]),
        (vec![labelled("a")], vec![2]),
        (vec![], vec![3]),
        (vec![asserted("f")], vec![4]),
        (vec![], vec![]),
    ]);
    assert_eq!(
        reconstruct_trace(&program, &"f".into(), &low_labels(&["a"])),
        Some(vec![0, 1, 2, 3])
    );
}

#[test]
fn labels_are_numbered_in_the_order_of_the_walk() {
    let program = two_ways();
    let order = LabelOrder::new(&program, &StringContext {});
    let names: Vec<String> = order.labels.iter().map(|label| label.as_string()).collect();
    assert_eq!(names, vec!["a", "b", "c", "f", "d", "f"]);
    assert_eq!(order.id_of(&"a".into()), Some(0));
    assert_eq!(order.id_of(&"d".into()), Some(4));
    assert_eq!(order.id_of(&"f".into()), Some(5));
    assert_eq!(order.id_of(&"z".into()), None);
    assert_eq!(order.numbers(&smt_labels(&["f", "a", "c", "a"])).unwrap(), vec![0, 2, 5]);
    assert_eq!(order.numbers(&smt_labels(&[])).unwrap(), Vec::<usize>::new());
    let numbers = vec![0, 2, 5];
    assert_eq!(order.find_last_label(&numbers).as_string(), "f");
    let passed: Vec<String> =
        order.compute_failing_trace(&numbers).iter().map(|label| label.as_string()).collect();
    assert_eq!(passed, vec!["a", "c"]);
    let model = smt::Model {
        items: vec![
            model_item("a", smt::Value::Bool(true)),
            model_item("c", smt::Value::Int(1)),
            model_item("a", smt::Value::Bool(false)),
        ],
    };
    assert_eq!(order.values(&numbers, &model), vec![(0, true), (2, false), (5, false)]);
}

#[test]
fn unknown_label_is_an_error() {
    let program = two_ways();
    let order = LabelOrder::new(&program, &StringContext {});
    match order.numbers(&smt_labels(&["a", "zz"])).unwrap_err().kind {
        SvirptiErrorKind::UnknownLabel(label) => assert_eq!(label.as_string(), "zz"),
        other => panic!("{:?}", other),
    }
    let model = smt::Model { items: vec![] };
    assert!(matches!(
        FailureSearch::new(order, &smt_labels(&["zz"]), &model).unwrap_err().kind,
        SvirptiErrorKind::UnknownLabel(_)
    ));
}

#[test]
fn failure_without_labels_is_an_error() {
    let program = two_ways();
    let model = smt::Model { items: vec![] };
    let order = LabelOrder::new(&program, &StringContext {});
    assert!(matches!(
        FailureSearch::new(order, &vec![], &model).unwrap_err().kind,
        SvirptiErrorKind::NoFailingLabel
    ));
    let context = StringContext {};
    let smt_context = SmtContext::new(&context, two_ways(), &empty_declarations());
    assert!(matches!(
        VerificationFailure::new(smt_context, &vec![], &model).map(|_| ()).unwrap_err().kind,
        SvirptiErrorKind::NoFailingLabel
    ));
}

#[test]
fn failure_that_no_path_explains_is_an_error() {
    let context = StringContext {};
    let smt_context = SmtContext::new(&context, two_ways(), &empty_declarations());
    let order = LabelOrder::new(&smt_context.vir, &context);
    let model = smt::Model { items: vec![] };
    match describe_failure(&smt_context, &order, &smt_labels(&["a", "d"]), &model)
        .unwrap_err()
        .kind
    {
        SvirptiErrorKind::UntraceableFailure(label) => assert_eq!(label.as_string(), "d"),
        other => panic!("{:?}", other),
    }
}

#[test]
fn search_turns_the_last_label_round() {
    let program = two_ways();
    let order = LabelOrder::new(&program, &StringContext {});
    let model = smt::Model {
        items: vec![
            model_item("a", smt::Value::Bool(true)),
            model_item("c", smt::Value::Bool(true)),
            model_item("f", smt::Value::Bool(true)),
        ],
    };
    let mut search = FailureSearch::new(order, &smt_labels(&["a", "c", "f"]), &model).unwrap();
    assert_eq!(search.working, vec![(0, true), (2, true), (5, true)]);
    assert_eq!(search.explored, vec![vec![(0, true), (2, true), (5, true)]]);
    assert_eq!(
        question_texts(search.next_assumptions()),
        Some(vec!["a".to_string(), "c".to_string(), "(not f)".to_string()])
    );
    assert_eq!(
        question_texts(search.next_assumptions()),
        Some(vec!["a".to_string(), "(not c)".to_string()])
    );
    assert_eq!(question_texts(search.next_assumptions()), Some(vec!["(not a)".to_string()]));
    assert_eq!(question_texts(search.next_assumptions()), None);
    assert_eq!(question_texts(search.next_assumptions()), None);
    assert_eq!(search.explored.len(), 4);
}

#[test]
fn search_asks_nothing_twice() {
    let program = two_ways();
    let order = LabelOrder::new(&program, &StringContext {});
    let first = smt::Model { items: vec![model_item("a", smt::Value::Bool(true))] };
    let mut search = FailureSearch::new(order, &smt_labels(&["a"]), &first).unwrap();
    assert_eq!(question_texts(search.next_assumptions()), Some(vec!["(not a)".to_string()]));
    // The solver finds a failure in which `a` is false and `b` is true.
    let second = smt::Model { items: vec![model_item("b", smt::Value::Bool(true))] };
    search.found(&smt_labels(&["b", "a"]), &second).unwrap();
    assert_eq!(search.working, vec![(0, false), (1, true)]);
    assert_eq!(
        question_texts(search.next_assumptions()),
        Some(vec!["(not a)".to_string(), "(not b)".to_string()])
    );
    // Turning `a` round again would ask for what the first failure was.
    assert_eq!(question_texts(search.next_assumptions()), None);
    assert_eq!(
        search.explored,
        vec![vec![(0, true)], vec![(0, false)], vec![(0, false), (1, false)]]
    );
}

#[test]
fn search_keeps_its_state_after_an_error() {
    let program = two_ways();
    let order = LabelOrder::new(&program, &StringContext {});
    let model = smt::Model { items: vec![model_item("a", smt::Value::Bool(true))] };
    let mut search = FailureSearch::new(order, &smt_labels(&["a", "b"]), &model).unwrap();
    assert!(search.found(&smt_labels(&["nowhere"]), &model).is_err());
    assert!(search.found(&vec![], &model).is_err());
    assert_eq!(search.working, vec![(0, true), (1, false)]);
    assert_eq!(search.explored, vec![vec![(0, true), (1, false)]]);
}

#[test]
fn model_keeps_the_variables_of_the_program() {
    let context = StringContext {};
    let smt_context = SmtContext::new(&context, two_ways(), &empty_declarations());
    let model = smt::Model {
        items: vec![
            model_item("BB@0", smt::Value::Bool(false)),
            model_item("x@1", smt::Value::Int(-3)),
            model_item("a", smt::Value::Bool(true)),
            model_item("x@0", smt::Value::Int(7)),
            model_item("x@2", smt::Value::Int(9)),
        ],
    };
    let projection = Model::new(&smt_context, &model).unwrap();
    let entries: Vec<(String, smt::Value)> = projection
        .variables
        .iter()
        .map(|(name, value)| (name.as_string(), value.clone()))
        .collect();
    assert_eq!(
        entries,
        vec![("x@0".to_string(), smt::Value::Int(7)), ("x@1".to_string(), smt::Value::Int(-3))]
    );
    assert_eq!(projection.get(&"x@0".into()), Some(&smt::Value::Int(7)));
    assert_eq!(projection.get(&"x@2".into()), None);
}

#[test]
fn model_is_in_the_order_of_the_names() {
    let names = ["b@1", "a@10", "b", "a@9", "a@1", "ab@0", "B@0", "a@1@2", "\u{e9}@0"];
    let program = low::ProgramFragment {
        uninterpreted_sorts: vec![],
        variables: names
            .iter()
            .map(|name| low::VariableDeclaration { name: (*name).into(), sort: low::Sort::Int })
            .collect(),
        functions: vec![],
        axioms: vec![],
        basic_blocks: two_ways().basic_blocks,
    };
    let context = StringContext {};
    let smt_context = SmtContext::new(&context, program, &empty_declarations());
    let model = smt::Model {
        items: names
            .iter()
            .enumerate()
            .map(|(position, name)| model_item(name, smt::Value::Int(position as i64)))
            .collect(),
    };
    let projection = Model::new(&smt_context, &model).unwrap();
    let listed: Vec<String> =
        projection.variables.iter().map(|(name, _)| name.as_string()).collect();
    let mut sorted: Vec<String> = names.iter().map(|name| name.to_string()).collect();
    sorted.sort();
    assert_eq!(listed, sorted);
    assert_eq!(
        listed,
        vec!["B@0", "a@1", "a@10", "a@1@2", "a@9", "ab@0", "b", "b@1", "\u{e9}@0"]
    );
    assert_eq!(projection.get(&"a@9".into()), Some(&smt::Value::Int(3)));
}

#[test]
fn model_with_two_values_for_a_variable_is_an_error() {
    let context = StringContext {};
    let smt_context = SmtContext::new(&context, two_ways(), &empty_declarations());
    let model = smt::Model {
        items: vec![
            model_item("x@0", smt::Value::Int(7)),
            model_item("x@1", smt::Value::Int(7)),
            model_item("x@0", smt::Value::Int(8)),
        ],
    };
    match Model::new(&smt_context, &model).unwrap_err().kind {
        SvirptiErrorKind::DuplicateModelEntry(name) => assert_eq!(name.as_string(), "x@0"),
        other => panic!("{:?}", other),
    }
    assert!(matches!(
        VerificationError::new(&smt_context, "f".into(), smt_labels(&["a", "c"]), &model)
            .unwrap_err()
            .kind,
        SvirptiErrorKind::DuplicateModelEntry(_)
    ));
}

#[test]
fn model_says_which_labels_hold() {
    let model = smt::Model {
        items: vec![
            model_item("l1", smt::Value::Bool(true)),
            model_item("l2", smt::Value::Bool(false)),
            model_item("n", smt::Value::Int(1)),
            model_item("l2", smt::Value::Bool(true)),
        ],
    };
    assert!(model.get_label(&"l1".into()));
    assert!(!model.get_label(&"l2".into()));
    assert!(!model.get_label(&"n".into()));
    assert!(!model.get_label(&"l3".into()));
}

#[test]
fn sorts_of_the_declarations_are_known() {
    let declarations = smt::Declarations {
        sorts: vec![],
        variables: vec![
            smt::VariableDeclaration { name: "x".into(), sort: smt::Sort::Int },
            smt::VariableDeclaration { name: "y".into(), sort: smt::Sort::Bool },
            smt::VariableDeclaration { name: "x".into(), sort: smt::Sort::Real },
        ],
        functions: vec![smt::FunctionDeclaration {
            name: "f".into(),
            parameters: vec![],
            return_sort: smt::Sort::Uninterpreted { name: "Nat".into() },
        }],
        labels: vec![],
    };
    let context = StringContext {};
    let smt_context = SmtContext::new(&context, two_ways(), &declarations);
    assert_eq!(smt_context.get_variable_sort(&"x".into()), Some(&smt::Sort::Real));
    assert_eq!(smt_context.get_variable_sort(&"y".into()), Some(&smt::Sort::Bool));
    assert_eq!(smt_context.get_variable_sort(&"z".into()), None);
    assert_eq!(
        smt_context.get_function_sort(&"f".into()),
        Some(&smt::Sort::Uninterpreted { name: "Nat".into() })
    );
    assert_eq!(smt_context.get_function_sort(&"x".into()), None);
    assert_eq!(smt_context.resolve_ident("BB@1").as_string(), "BB@1");
}

#[test]
fn text_of_expressions() {
    let x = || smt::Expression::variable("x".into());
    let forms = vec![
        (smt::Expression::constant(smt::Constant::Int(0)), "0"),
        (smt::Expression::constant(smt::Constant::Int(42)), "42"),
        (smt::Expression::constant(smt::Constant::Int(-42)), "(- 42)"),
        (smt::Expression::constant(smt::Constant::Int(i64::MAX)), "9223372036854775807"),
        (smt::Expression::constant(smt::Constant::Int(i64::MIN)), "(- 9223372036854775808)"),
        (smt::Expression::constant(smt::Constant::Bool(false)), "false"),
        (smt::Expression::equals(smt::Expression::add(x(), 2.into()), 4.into()), "(= (+ x 2) 4)"),
        (smt::Expression::label_positive("L".into(), x()), "(! x :lblpos L)"),
        (smt::Expression::label_negative("L".into(), x()), "(! x :lblneg L)"),
        (smt::Expression::implies(x(), smt::Expression::not(x())), "(=> x (not x))"),
        (
            smt::Expression::for_all(
                vec![smt::BoundedVariableDecl {
                    name: "n".into(),
                    sort: smt::Sort::Uninterpreted { name: "Nat".into() },
                }],
                vec![smt::Trigger {
                    parts: vec![smt::Expression::call(
                        "count".into(),
                        vec![smt::Expression::call(
                            "succ".into(),
                            vec![smt::Expression::variable("n".into())],
                        )],
                    )],
                }],
                smt::Expression::equals(
                    smt::Expression::call(
                        "count".into(),
                        vec![smt::Expression::call(
                            "succ".into(),
                            vec![smt::Expression::variable("n".into())],
                        )],
                    ),
                    smt::Expression::add(
                        smt::Expression::call(
                            "count".into(),
                            vec![smt::Expression::variable("n".into())],
                        ),
                        1.into(),
                    ),
                ),
            ),
            "(forall ((n Nat)) (! (= (count (succ n)) (+ (count n) 1)) :pattern ((count (succ n)))))",
        ),
    ];
    for (expression, text) in forms {
        assert_eq!(expression_to_smt2(&expression), text);
        assert_eq!(expression_to_smt2(&expression.clone()), text);
        assert_eq!(expression.duplicate(), expression);
    }
    assert_eq!(sort_to_smt2(&smt::Sort::Bool), "Bool");
    assert_eq!(sort_to_smt2(&smt::Sort::Int), "Int");
    assert_eq!(sort_to_smt2(&smt::Sort::Real), "Real");
    assert_eq!(sort_to_smt2(&smt::Sort::Uninterpreted { name: "Nat".into() }), "Nat");
}

#[test]
fn reading_of_sorts_and_numbers() {
    assert_eq!(parse_type("Bool"), smt::Sort::Bool);
    assert_eq!(parse_type("Int"), smt::Sort::Int);
    assert_eq!(parse_type("Real"), smt::Sort::Real);
    assert_eq!(parse_type("Nat"), smt::Sort::Uninterpreted { name: "Nat".into() });
    assert_eq!(parse_int("0", true), Some(0));
    assert_eq!(parse_int("0042", true), Some(42));
    assert_eq!(parse_int("42", false), Some(-42));
    assert_eq!(parse_int("9223372036854775807", true), Some(i64::MAX));
    assert_eq!(parse_int("9223372036854775807", false), Some(-i64::MAX));
    assert_eq!(parse_int("9223372036854775808", true), None);
    assert_eq!(parse_int("99999999999999999999", true), None);
    assert_eq!(parse_int("", true), None);
    assert_eq!(parse_int("4x", true), None);
    assert_eq!(parse_int("-4", true), None);
    assert!(smt::Sort::Bool.is_supported_in_models());
    assert!(smt::Sort::Int.is_supported_in_models());
    assert!(!smt::Sort::Real.is_supported_in_models());
    assert!(!smt::Sort::Uninterpreted { name: "Nat".into() }.is_supported_in_models());
}

#[test]
fn solver_is_told_declarations_before_assertions() {
    let declarations = smt::Declarations {
        sorts: vec![smt::UninterpretedSortDeclaration { name: "Nat".into() }],
        variables: vec![smt::VariableDeclaration { name: "x".into(), sort: smt::Sort::Int }],
        functions: vec![smt::FunctionDeclaration {
            name: "f".into(),
            parameters: vec![smt::VariableDeclaration { name: "n".into(), sort: smt::Sort::Int }],
            return_sort: smt::Sort::Bool,
        }],
        labels: vec![smt::LabelDeclaration { name: "l".into() }],
    };
    let assertions: Vec<smt::Expression> =
        vec![smt::Expression::variable("x".into()), smt::Expression::variable("y".into())];
    let described: Vec<String> = verification_script(&declarations, &assertions)
        .iter()
        .map(|command| match command {
            SolverCommand::DeclareSort(sort) => format!("sort {}", sort.name.as_string()),
            SolverCommand::DeclareFunction(function) => {
                format!("function {}/{}", function.name.as_string(), function.parameters.len())
            }
            SolverCommand::DeclareLabel(label) => format!("label {}", label.name.as_string()),
            SolverCommand::DeclareVariable(variable) => {
                format!("variable {}", variable.name.as_string())
            }
            SolverCommand::Push => "push".to_string(),
            SolverCommand::Pop => "pop".to_string(),
            SolverCommand::Assert(assertion) => format!("assert {}", expression_to_smt2(assertion)),
            SolverCommand::CheckSat => "check-sat".to_string(),
        })
        .collect();
    assert_eq!(
        described,
        vec![
            "sort Nat",
            "function f/1",
            "label l",
            "variable x",
            "push",
            "assert x",
            "assert y",
            "check-sat"
        ]
    );
    let again = check_script(&assertions);
    assert_eq!(again.len(), 4);
    assert!(matches!(again[0], SolverCommand::Push));
    assert!(matches!(again[3], SolverCommand::CheckSat));
}

#[test]
fn only_unsat_is_a_success() {
    assert!(SatResult::Unsat.is_success());
    assert!(!SatResult::Sat.is_success());
    assert!(!SatResult::Unknown.is_success());
}

#[test]
fn errors_wrap_each_other() {
    let solver = SmtSolverError::GenericSolverError { source: "no answer".to_string() };
    assert_eq!(solver.message(), "no answer");
    let verifier = VerifierError::from(solver);
    let error = SvirptiError::from(verifier);
    match error.kind {
        SvirptiErrorKind::Verifier(VerifierError::SmtSolverError(inner)) => {
            assert_eq!(inner.message(), "no answer")
        }
        other => panic!("{:?}", other),
    }
}

#[test]
fn symbols_are_their_names() {
    let a: smt::IdentSymbol = "abc".into();
    let b = smt::IdentSymbol::from("abc".to_string());
    assert_eq!(a, b);
    assert_eq!(a.as_string(), "abc");
    assert_eq!(a.clone(), smt::IdentSymbol::new("abc"));
    assert_ne!(a, smt::IdentSymbol::new("abd"));
    assert!(a < smt::IdentSymbol::new("abd"));
}

#[test]
fn text_of_a_condition_with_two_labels() {
    let k = || smt::Expression::variable("k".into());
    let in_range = || {
        smt::Expression::and(
            smt::Expression::not(smt::Expression::less_than(k(), 10.into())),
            smt::Expression::less_than(k(), 20.into()),
        )
    };
    let access = || {
        smt::Expression::and(
            smt::Expression::not(smt::Expression::less_than(k(), 100.into())),
            smt::Expression::less_than(k(), 100.into()),
        )
    };
    let expr = smt::Expression::not(smt::Expression::and(
        smt::Expression::implies(
            in_range(),
            smt::Expression::label_negative("ArrayAccess1".into(), access()),
        ),
        smt::Expression::implies(
            smt::Expression::not(in_range()),
            smt::Expression::label_negative("ArrayAccess2".into(), access()),
        ),
    ));
    assert_eq!(
        expression_to_smt2(&expr),
        "(not (and (=> (and (not (< k 10)) (< k 20)) \
         (! (and (not (< k 100)) (< k 100)) :lblneg ArrayAccess1)) \
         (=> (not (and (not (< k 10)) (< k 20))) \
         (! (and (not (< k 100)) (< k 100)) :lblneg ArrayAccess2))))"
    );
    let declarations = smt::Declarations {
        sorts: vec![],
        variables: vec![smt::VariableDeclaration { name: "k".into(), sort: smt::Sort::Int }],
        functions: vec![],
        labels: vec![
            smt::LabelDeclaration { name: "ArrayAccess1".into() },
            smt::LabelDeclaration { name: "ArrayAccess2".into() },
        ],
    };
    let script = verification_script(&declarations, &vec![expr]);
    assert_eq!(script.len(), 6);
    assert!(matches!(script[0], SolverCommand::DeclareLabel(_)));
    assert!(matches!(script[1], SolverCommand::DeclareLabel(_)));
    assert!(matches!(script[2], SolverCommand::DeclareVariable(_)));
    assert!(matches!(script[3], SolverCommand::Push));
    assert!(matches!(script[4], SolverCommand::Assert(_)));
    assert!(matches!(script[5], SolverCommand::CheckSat));
}

#[test]
fn answer_of_the_solver_lists_its_labels() {
    let names = |labels: Vec<smt::IdentSymbol>| -> Vec<String> {
        labels.iter().map(|label| label.as_string()).collect()
    };
    assert_eq!(names(parse_labels("(labels l1 bb2 l3)").unwrap()), vec!["l1", "bb2", "l3"]);
    assert_eq!(names(parse_labels("(labels)").unwrap()), Vec::<String>::new());
    assert_eq!(names(parse_labels("\n( labels\n  a\tb )\r\n").unwrap()), vec!["a", "b"]);
    assert_eq!(names(parse_labels("labels x").unwrap()), vec!["x"]);
    assert!(parse_labels("(error \"unknown command\")").is_none());
    assert!(parse_labels("").is_none());
    assert!(parse_labels("( )").is_none());
    assert_eq!(names(split_words("(a (b c))d")), vec!["a", "b", "c", "d"]);
    assert_eq!(names(split_words("   ")), Vec::<String>::new());
}
