use svirpti::context::{Context, StringContext};
use svirpti::high;
use svirpti::low;
use svirpti::lower::expression::lower_expression;
use svirpti::lower::program::{lower_program, validate};
use svirpti::lower::versions::{find_last_variable, find_variable};
use svirpti::smt::print::expression_to_smt2;
use svirpti::SvirptiErrorKind;

fn hvar(name: &str) -> high::Expression {
    high::Expression::variable(name.into())
}

fn hlocal(name: &str, sort: high::Type) -> high::VariableDeclaration {
    high::VariableDeclaration { name: name.into(), sort }
}

fn hblock(
    label: &str,
    guard: high::Expression,
    statements: Vec<high::Statement>,
    successors: Vec<high::BasicBlockId>,
) -> high::BasicBlock {
    high::BasicBlock { label: label.into(), guard, statements, successors }
}

fn hprogram(
    variables: Vec<high::VariableDeclaration>,
    blocks: Vec<high::BasicBlock>,
) -> high::ProgramFragment {
    let mut basic_blocks = vec![hblock("entry", true.into(), vec![], vec![1])];
    basic_blocks.extend(blocks);
    basic_blocks.push(hblock("exit", true.into(), vec![], vec![]));
    high::ProgramFragment {
        sorts: vec![],
        axioms: vec![],
        functions: vec![],
        procedure: high::ProcedureDeclaration { variables, basic_blocks },
    }
}

fn assign(name: &str, value: high::Expression) -> high::Statement {
    high::Statement::assign(high::Variable { name: name.into() }, value)
}

fn lowered_texts(program: &low::ProgramFragment) -> Vec<Vec<String>> {
    let mut context = StringContext {};
    program
        .basic_blocks
        .iter()
        .map(|block| {
            block
                .statements
                .iter()
                .map(|statement| {
                    let (word, assertion) = match statement {
                        low::Statement::Assert(s) => ("assert", &s.assertion),
                        low::Statement::Assume(s) => ("assume", &s.assertion),
                    };
                    let label = match statement.get_label() {
                        Some(label) => format!(" {}", label.as_string()),
                        None => String::new(),
                    };
                    let text = expression_to_smt2(&svirpti::wp::expression::lower_expression(
                        &mut context,
                        assertion,
                    ));
                    format!("{}{} {}", word, label, text)
                })
                .collect()
        })
        .collect()
}

fn low_names(program: &low::ProgramFragment) -> Vec<String> {
    program.variables.iter().map(|variable| variable.name.as_string()).collect()
}

fn count_writes(program: &high::ProgramFragment) -> usize {
    program
        .procedure
        .basic_blocks
        .iter()
        .flat_map(|block| block.statements.iter())
        .filter(|statement| {
            matches!(statement, high::Statement::Assign(_) | high::Statement::Havoc(_))
        })
        .count()
}

#[test]
fn assignment_reads_before_it_writes() {
    let program = hprogram(
        vec![hlocal("a", high::Type::Int)],
        vec![hblock(
            "bb1",
            true.into(),
            vec![
                assign("a", high::Expression::add(hvar("a"), 1.into())),
                assign("a", high::Expression::add(hvar("a"), 1.into())),
            ],
            vec![2],
        )],
    );
    assert!(validate(&program));
    let lowered = lower_program(&program, &mut StringContext {}).unwrap();
    assert_eq!(low_names(&lowered), vec!["a@0", "a@1", "a@2"]);
    assert_eq!(
        lowered_texts(&lowered)[1],
        vec!["assume (= a@1 (+ a@0 1))", "assume (= a@2 (+ a@1 1))"]
    );
}

#[test]
fn havoc_makes_a_version_and_no_statement() {
    let program = hprogram(
        vec![hlocal("a", high::Type::Int), hlocal("b", high::Type::Bool)],
        vec![hblock(
            "bb1",
            true.into(),
            vec![
                high::Statement::havoc(high::Variable { name: "a".into() }),
                high::Statement::assert_that(high::Expression::equals(hvar("a"), hvar("a"))),
            ],
            vec![2],
        )],
    );
    assert!(validate(&program));
    let lowered = lower_program(&program, &mut StringContext {}).unwrap();
    assert_eq!(low_names(&lowered), vec!["a@0", "b@0", "a@1"]);
    assert_eq!(lowered.variables[2].sort, low::Sort::Int);
    assert_eq!(lowered_texts(&lowered)[1], vec!["assert (= a@1 a@1)"]);
}

#[test]
fn variable_count_is_locals_plus_writes() {
    let program = hprogram(
        vec![hlocal("a", high::Type::Int), hlocal("b", high::Type::Int)],
        vec![
            hblock("bb1", true.into(), vec![assign("a", hvar("b"))], vec![2, 3]),
            hblock(
                "bb2",
                true.into(),
                vec![
                    assign("b", hvar("a")),
                    high::Statement::havoc(high::Variable { name: "a".into() }),
                ],
                vec![4],
            ),
            hblock("bb3", true.into(), vec![assign("b", 7.into())], vec![4]),
            hblock("bb4", true.into(), vec![], vec![5]),
        ],
    );
    assert!(validate(&program));
    let lowered = lower_program(&program, &mut StringContext {}).unwrap();
    assert_eq!(count_writes(&program), 4);
    assert_eq!(lowered.variables.len(), program.procedure.variables.len() + 4);
    assert_eq!(low_names(&lowered), vec!["a@0", "b@0", "a@1", "b@1", "a@2", "b@2"]);
}

#[test]
fn join_takes_the_highest_version() {
    let program = hprogram(
        vec![hlocal("a", high::Type::Int), hlocal("b", high::Type::Int)],
        vec![
            hblock("bb1", true.into(), vec![], vec![2, 3]),
            hblock("bb2", true.into(), vec![assign("a", 1.into()), assign("a", 2.into())], vec![4]),
            hblock("bb3", true.into(), vec![assign("b", 3.into())], vec![4]),
            hblock(
                "bb4",
                true.into(),
                vec![high::Statement::assert_that(high::Expression::less_than(hvar("a"), hvar("b")))],
                vec![5],
            ),
        ],
    );
    assert!(validate(&program));
    let lowered = lower_program(&program, &mut StringContext {}).unwrap();
    assert_eq!(low_names(&lowered), vec!["a@0", "b@0", "a@1", "a@2", "b@1"]);
    assert_eq!(
        lowered_texts(&lowered),
        vec![
            vec![],
            vec![],
            vec!["assume (= a@1 1)".to_string(), "assume (= a@2 2)".to_string()],
            vec!["assume (= b@1 3)".to_string()],
            vec![
                "assume (= a@0 a@2)".to_string(),
                "assume (= b@0 b@1)".to_string(),
                "assert (< a@2 b@1)".to_string(),
            ],
            vec![],
        ]
    );
}

#[test]
fn guard_is_assumed_under_the_label_of_the_block() {
    let program = hprogram(
        vec![hlocal("a", high::Type::Bool)],
        vec![
            hblock("first", hvar("a"), vec![], vec![2]),
            hblock("second", high::Expression::and(true.into(), hvar("a")), vec![], vec![3]),
        ],
    );
    let lowered = lower_program(&program, &mut StringContext {}).unwrap();
    assert_eq!(
        lowered_texts(&lowered),
        vec![
            vec![],
            vec!["assume first a@0".to_string()],
            vec!["assume second (and true a@0)".to_string()],
            vec![],
        ]
    );
}

#[test]
fn blocks_keep_their_places() {
    // The walk takes the block 3 before the block 2.
    let program = high::ProgramFragment {
        sorts: vec![],
        axioms: vec![],
        functions: vec![],
        procedure: high::ProcedureDeclaration {
            variables: vec![hlocal("a", high::Type::Int)],
            basic_blocks: vec![
                hblock("entry", true.into(), vec![], vec![3]),
                hblock("last", true.into(), vec![high::Statement::assert_that(hvar("a"))], vec![4]),
                hblock("middle", true.into(), vec![assign("a", 2.into())], vec![1]),
                hblock("first", true.into(), vec![assign("a", 1.into())], vec![2]),
                hblock("exit", true.into(), vec![], vec![]),
            ],
        },
    };
    assert!(validate(&program));
    let lowered = lower_program(&program, &mut StringContext {}).unwrap();
    assert_eq!(
        lowered_texts(&lowered),
        vec![
            vec![],
            vec!["assert a@2".to_string()],
            vec!["assume (= a@2 2)".to_string()],
            vec!["assume (= a@1 1)".to_string()],
            vec![],
        ]
    );
    let successors: Vec<Vec<usize>> =
        lowered.basic_blocks.iter().map(|block| block.successors.clone()).collect();
    assert_eq!(successors, vec![vec![3], vec![4], vec![1], vec![2], vec![]]);
}

#[test]
fn domain_sorts_are_lowered() {
    let program = hprogram(
        vec![hlocal(
            "n",
            high::Type::Domain(high::DomainType { name: "Nat".into() }),
        ), hlocal("r", high::Type::Real)],
        vec![hblock("bb1", true.into(), vec![assign("n", hvar("n"))], vec![2])],
    );
    let lowered = lower_program(&program, &mut StringContext {}).unwrap();
    let nat = low::Sort::Uninterpreted { name: "Nat".into() };
    assert_eq!(lowered.variables[0].sort, nat);
    assert_eq!(lowered.variables[1].sort, low::Sort::Real);
    assert_eq!(lowered.variables[2].sort, nat);
    assert_eq!(lowered.variables[2].name.as_string(), "n@1");
}

#[test]
fn reading_an_undeclared_variable_is_an_error() {
    let program = hprogram(
        vec![hlocal("a", high::Type::Int)],
        vec![hblock(
            "bb1",
            true.into(),
            vec![high::Statement::assert_that(high::Expression::equals(hvar("a"), hvar("missing")))],
            vec![2],
        )],
    );
    assert!(validate(&program));
    match lower_program(&program, &mut StringContext {}) {
        Err(error) => match error.kind {
            SvirptiErrorKind::UnknownVariable(name) => assert_eq!(name.as_string(), "missing"),
            other => panic!("{:?}", other),
        },
        Ok(_) => panic!("the program was lowered"),
    }
    let guarded = hprogram(
        vec![],
        vec![hblock("bb1", hvar("g"), vec![], vec![2])],
    );
    assert!(matches!(
        lower_program(&guarded, &mut StringContext {}).unwrap_err().kind,
        SvirptiErrorKind::UnknownVariable(_)
    ));
}

#[test]
fn writing_an_undeclared_variable_is_not_valid() {
    let program = hprogram(
        vec![hlocal("a", high::Type::Int)],
        vec![hblock("bb1", true.into(), vec![assign("b", hvar("a"))], vec![2])],
    );
    assert!(!validate(&program));
    let havoc = hprogram(
        vec![],
        vec![hblock(
            "bb1",
            true.into(),
            vec![high::Statement::havoc(high::Variable { name: "b".into() })],
            vec![2],
        )],
    );
    assert!(!validate(&havoc));
}

#[test]
fn expressions_keep_their_form() {
    let variables = vec![hlocal("a", high::Type::Int), hlocal("b", high::Type::Bool)];
    let versions = vec![3, 0];
    let nat = high::Type::Domain(high::DomainType { name: "Nat".into() });
    let forms = vec![
        (hvar("a"), "a@3"),
        (true.into(), "true"),
        ((-5).into(), "(- 5)"),
        (high::Expression::minus(hvar("a")), "(- a@3)"),
        (high::Expression::not(hvar("b")), "(not b@0)"),
        (high::Expression::subtract(hvar("a"), 1.into()), "(- a@3 1)"),
        (high::Expression::multiply(hvar("a"), 2.into()), "(* a@3 2)"),
        (high::Expression::divide(hvar("a"), 2.into()), "(div a@3 2)"),
        (high::Expression::module(hvar("a"), 2.into()), "(mod a@3 2)"),
        (high::Expression::greater_equals(hvar("a"), 2.into()), "(>= a@3 2)"),
        (high::Expression::less_equals(hvar("a"), 2.into()), "(<= a@3 2)"),
        (high::Expression::or(hvar("b"), hvar("b")), "(or b@0 b@0)"),
        (
            high::Expression::conditional(hvar("b"), hvar("a"), 0.into()),
            "(ite b@0 a@3 0)",
        ),
        (
            high::Expression::call("f".into(), vec![hvar("a"), hvar("b")]),
            "(f a@3 b@0)",
        ),
        (high::Expression::call("c".into(), vec![]), "c"),
        (
            high::Expression::for_all(
                vec![
                    high::BoundedVariableDecl { name: "a".into(), sort: high::Type::Int },
                    high::BoundedVariableDecl { name: "b".into(), sort: nat.clone() },
                ],
                vec![],
                hvar("b"),
            ),
            "(forall ((a@3 Int) (b@0 Nat)) b@0)",
        ),
        (
            high::Expression::there_exists(
                vec![high::BoundedVariableDecl { name: "a".into(), sort: high::Type::Int }],
                vec![
                    high::Trigger { parts: vec![hvar("a"), hvar("b")] },
                    high::Trigger { parts: vec![high::Expression::call("f".into(), vec![hvar("a")])] },
                ],
                hvar("b"),
            ),
            "(exists ((a@3 Int)) (! b@0 :pattern (a@3 b@0) :pattern ((f a@3))))",
        ),
    ];
    for (expression, text) in forms {
        let mut context = StringContext {};
        let lowered = lower_expression(&mut context, &variables, &versions, &expression).unwrap();
        let converted = svirpti::wp::expression::lower_expression(&mut context, &lowered);
        assert_eq!(expression_to_smt2(&converted), text);
    }
}

#[test]
fn expression_with_an_unbound_name_is_refused() {
    let variables = vec![hlocal("a", high::Type::Int)];
    let versions = vec![0];
    let quantified = high::Expression::for_all(
        vec![high::BoundedVariableDecl { name: "i".into(), sort: high::Type::Int }],
        vec![],
        hvar("a"),
    );
    let error =
        lower_expression(&mut StringContext {}, &variables, &versions, &quantified).unwrap_err();
    match error.kind {
        SvirptiErrorKind::UnknownVariable(name) => assert_eq!(name.as_string(), "i"),
        other => panic!("{:?}", other),
    }
}

#[test]
fn variables_are_found_by_name() {
    let variables = vec![
        hlocal("a", high::Type::Int),
        hlocal("b", high::Type::Bool),
        hlocal("a", high::Type::Real),
    ];
    assert_eq!(find_variable(&variables, &"a".into()), Some(0));
    assert_eq!(find_last_variable(&variables, &"a".into()), Some(2));
    assert_eq!(find_variable(&variables, &"b".into()), Some(1));
    assert_eq!(find_variable(&variables, &"c".into()), None);
    assert_eq!(find_last_variable(&variables, &"c".into()), None);
}

#[test]
fn string_context_names() {
    let mut context = StringContext {};
    assert_eq!(context.create_versioned_variable_symbol(&"x".into(), 0).as_string(), "x@0");
    assert_eq!(context.create_versioned_variable_symbol(&"x".into(), 10).as_string(), "x@10");
    assert_eq!(
        context.create_versioned_variable_symbol(&"x@y".into(), 907).as_string(),
        "x@y@907"
    );
    assert_eq!(context.create_label_for_basic_block(0).as_string(), "BB@0");
    assert_eq!(context.create_label_for_basic_block(42).as_string(), "BB@42");
    assert_eq!(context.lower_domain_name(&"Nat".into()).as_string(), "Nat");
    assert_eq!(context.lower_reference_name(&"List".into()).as_string(), "List");
    assert_eq!(context.lower_label(&"l".into()).as_string(), "l");
    assert_eq!(context.convert_variable_name_to_smt(&"x@1".into()).as_string(), "x@1");
    assert_eq!(context.convert_uninterpreted_sort_to_smt(&"Nat".into()).as_string(), "Nat");
    assert_eq!(context.convert_function_name_to_smt(&"f".into()).as_string(), "f");
    assert_eq!(context.convert_label_name_to_smt(&"l".into()).as_string(), "l");
    assert_eq!(context.convert_known_label_name_to_smt(&"l".into()).as_string(), "l");
    assert_eq!(context.resolve_high_label(&"l".into()).as_string(), "l");
    assert_eq!(context.resolve_low_label(&"l".into()).as_string(), "l");
    assert_eq!(context.resolve_low_variable(&"x@1".into()).as_string(), "x@1");
    assert_eq!(context.resolve_high_variable(&"x@12".into()).as_string(), "x");
    assert_eq!(context.resolve_high_variable(&"x@y@3".into()).as_string(), "x@y");
    assert_eq!(context.resolve_high_variable(&"@3".into()).as_string(), "");
}

#[test]
fn decimal_text_of_numbers() {
    assert_eq!(svirpti::context::decimal_text(0), "0");
    assert_eq!(svirpti::context::decimal_text(9), "9");
    assert_eq!(svirpti::context::decimal_text(10), "10");
    assert_eq!(svirpti::context::decimal_text(1234567890), "1234567890");
    assert_eq!(svirpti::context::decimal_text(u64::MAX), "18446744073709551615");
}

fn unversioned(name: &low::VariableSymbol) -> high::VariableSymbol {
    StringContext {}.resolve_high_variable(name)
}

fn lift_sort(sort: &low::Sort) -> high::Type {
    match sort {
        low::Sort::Bool => high::Type::Bool,
        low::Sort::Int => high::Type::Int,
        low::Sort::Real => high::Type::Real,
        low::Sort::Uninterpreted { name } => {
            high::Type::Domain(high::DomainType { name: name.as_string().into() })
        }
    }
}

fn lift_all(expressions: &[low::Expression]) -> Vec<high::Expression> {
    expressions.iter().map(lift).collect()
}

/// The expression of the high tier with the form of `expression`: every
/// version is the variable again that it is a version of.
fn lift(expression: &low::Expression) -> high::Expression {
    match expression {
        low::Expression::Variable(e) => high::Expression::variable(unversioned(&e.name)),
        low::Expression::Constant(low::Constant::Bool(value)) => {
            high::Expression::Constant(high::Constant::Bool(*value))
        }
        low::Expression::Constant(low::Constant::Int(value)) => {
            high::Expression::Constant(high::Constant::Int(*value))
        }
        low::Expression::UnaryOperation(e) => high::Expression::unary(
            match e.kind {
                low::UnaryOperationKind::Not => high::UnaryOperationKind::Not,
                low::UnaryOperationKind::Minus => high::UnaryOperationKind::Minus,
            },
            lift(&e.arg),
        ),
        low::Expression::BinaryOperation(e) => high::Expression::binary(
            match e.kind {
                low::BinaryOperationKind::EqCmp => high::BinaryOperationKind::EqCmp,
                low::BinaryOperationKind::NeCmp => high::BinaryOperationKind::NeCmp,
                low::BinaryOperationKind::GtCmp => high::BinaryOperationKind::GtCmp,
                low::BinaryOperationKind::GeCmp => high::BinaryOperationKind::GeCmp,
                low::BinaryOperationKind::LtCmp => high::BinaryOperationKind::LtCmp,
                low::BinaryOperationKind::LeCmp => high::BinaryOperationKind::LeCmp,
                low::BinaryOperationKind::Add => high::BinaryOperationKind::Add,
                low::BinaryOperationKind::Sub => high::BinaryOperationKind::Sub,
                low::BinaryOperationKind::Mul => high::BinaryOperationKind::Mul,
                low::BinaryOperationKind::Div => high::BinaryOperationKind::Div,
                low::BinaryOperationKind::Mod => high::BinaryOperationKind::Mod,
                low::BinaryOperationKind::And => high::BinaryOperationKind::And,
                low::BinaryOperationKind::Or => high::BinaryOperationKind::Or,
                low::BinaryOperationKind::Implies => high::BinaryOperationKind::Implies,
            },
            lift(&e.left),
            lift(&e.right),
        ),
        low::Expression::Conditional(e) => {
            high::Expression::conditional(lift(&e.guard), lift(&e.then_expr), lift(&e.else_expr))
        }
        low::Expression::Quantifier(e) => high::Expression::quantifier(
            match e.kind {
                low::QuantifierKind::ForAll => high::QuantifierKind::ForAll,
                low::QuantifierKind::Exists => high::QuantifierKind::Exists,
            },
            e.variables
                .iter()
                .map(|variable| high::BoundedVariableDecl {
                    name: unversioned(&variable.name),
                    sort: lift_sort(&variable.sort),
                })
                .collect(),
            e.triggers.iter().map(|trigger| high::Trigger { parts: lift_all(&trigger.parts) }).collect(),
            lift(&e.body),
        ),
        low::Expression::FunctionApplication(e) => {
            high::Expression::call(e.function.as_string().into(), lift_all(&e.args))
        }
    }
}

#[test]
fn lowering_can_be_undone() {
    let variables = vec![hlocal("a", high::Type::Int), hlocal("b", high::Type::Bool)];
    let versions = vec![3, 1];
    let nat = high::Type::Domain(high::DomainType { name: "Nat".into() });
    let forms = vec![
        hvar("a"),
        true.into(),
        (-5).into(),
        high::Expression::minus(hvar("a")),
        high::Expression::not(hvar("b")),
        high::Expression::equals(hvar("a"), 1.into()),
        high::Expression::not_equals(hvar("a"), 1.into()),
        high::Expression::greater_than(hvar("a"), 1.into()),
        high::Expression::greater_equals(hvar("a"), 1.into()),
        high::Expression::less_than(hvar("a"), 1.into()),
        high::Expression::less_equals(hvar("a"), 1.into()),
        high::Expression::add(hvar("a"), 1.into()),
        high::Expression::subtract(hvar("a"), 1.into()),
        high::Expression::multiply(hvar("a"), 1.into()),
        high::Expression::divide(hvar("a"), 1.into()),
        high::Expression::module(hvar("a"), 1.into()),
        high::Expression::and(hvar("b"), hvar("b")),
        high::Expression::or(hvar("b"), hvar("b")),
        high::Expression::implies(hvar("b"), hvar("b")),
        high::Expression::conditional(hvar("b"), hvar("a"), 0.into()),
        high::Expression::call("f".into(), vec![hvar("a"), hvar("b")]),
        high::Expression::for_all(
            vec![
                high::BoundedVariableDecl { name: "a".into(), sort: high::Type::Int },
                high::BoundedVariableDecl { name: "b".into(), sort: nat.clone() },
            ],
            vec![
                high::Trigger { parts: vec![hvar("a"), hvar("b")] },
                high::Trigger { parts: vec![] },
            ],
            high::Expression::there_exists(
                vec![high::BoundedVariableDecl { name: "a".into(), sort: high::Type::Real }],
                vec![],
                hvar("b"),
            ),
        ),
    ];
    for expression in forms {
        let lowered =
            lower_expression(&mut StringContext {}, &variables, &versions, &expression).unwrap();
        assert_eq!(lift(&lowered), expression);
        assert_eq!(expression.duplicate(), expression);
    }
}

#[test]
fn versions_resolve_to_their_variables() {
    let mut context = StringContext {};
    for name in ["x", "x@1", "", "@", "long_name"] {
        for version in [0, 1, 9, 10, 123456] {
            let versioned = context.create_versioned_variable_symbol(&name.into(), version);
            assert_eq!(context.resolve_high_variable(&versioned).as_string(), name);
        }
    }
}

#[test]
fn the_first_undeclared_variable_is_reported() {
    let program = hprogram(
        vec![hlocal("a", high::Type::Int)],
        vec![
            hblock("bb1", true.into(), vec![], vec![3, 2]),
            hblock(
                "bb2",
                high::Expression::equals(hvar("second"), hvar("third")),
                vec![high::Statement::assert_that(hvar("fourth"))],
                vec![4],
            ),
            hblock(
                "bb3",
                true.into(),
                vec![
                    high::Statement::assert_that(hvar("a")),
                    assign("a", high::Expression::add(hvar("a"), hvar("first"))),
                ],
                vec![4],
            ),
            hblock("bb4", hvar("fifth"), vec![], vec![5]),
        ],
    );
    assert!(validate(&program));
    // The block bb3 is lowered before the block bb2: it is the first successor.
    match lower_program(&program, &mut StringContext {}).unwrap_err().kind {
        SvirptiErrorKind::UnknownVariable(name) => assert_eq!(name.as_string(), "first"),
        other => panic!("{:?}", other),
    }
}

#[test]
fn lowering_twice_gives_the_same() {
    let program = hprogram(
        vec![hlocal("a", high::Type::Int), hlocal("b", high::Type::Int)],
        vec![
            hblock("bb1", hvar("a"), vec![assign("a", hvar("b"))], vec![2, 3]),
            hblock("bb2", true.into(), vec![assign("b", hvar("a"))], vec![4]),
            hblock("bb3", true.into(), vec![assign("b", 7.into())], vec![4]),
            hblock(
                "bb4",
                true.into(),
                vec![high::Statement::assert_with_label(hvar("b"), "l".into())],
                vec![5],
            ),
        ],
    );
    let first = lower_program(&program, &mut StringContext {}).unwrap();
    let second = lower_program(&program, &mut StringContext {}).unwrap();
    assert_eq!(first, second);
    let first_query = svirpti::encode(&first, &mut StringContext {}).unwrap();
    let second_query = svirpti::encode(&second, &mut StringContext {}).unwrap();
    assert_eq!(first_query, second_query);
    assert_eq!(first_query.assertions.len(), program.procedure.basic_blocks.len() + 1);
    assert_eq!(
        expression_to_smt2(first_query.assertions.last().unwrap()),
        "(not BB@0)"
    );
    let equalities = first_query
        .assertions
        .iter()
        .filter(|assertion| expression_to_smt2(assertion).starts_with("(= BB@"))
        .count();
    assert_eq!(equalities, program.procedure.basic_blocks.len());
}
