//! The text of sorts and expressions in the language of the solver.

use crate::common::expression::{
    BinaryKind, BoundView, ConstantView, Polarity, QuantKind, SortView, Term, UnaryKind,
};
use crate::context::{decimal, decimal_text};
use crate::smt::expression::{
    bounds_of, terms_of, triggers_of, BinaryOperationKind, BoundedVariableDecl, Constant,
    Expression, LabelPositivity, QuantifierKind, Trigger, UnaryOperationKind,
};
use crate::smt::sort::Sort;
use vstd::prelude::*;
use vstd::string::StringExecFns;

verus! {

/// The text of a sort.
pub open spec fn sort_text(sort: SortView) -> Seq<char> {
    match sort {
        SortView::Bool => "Bool"@,
        SortView::Int => "Int"@,
        SortView::Real => "Real"@,
        SortView::Uninterpreted(name) => name,
    }
}

/// The text of a constant. A negative number is the negation of its
/// magnitude.
pub open spec fn constant_text(constant: ConstantView) -> Seq<char> {
    match constant {
        ConstantView::Bool(value) => if value {
            "true"@
        } else {
            "false"@
        },
        ConstantView::Int(value) => if value >= 0 {
            decimal(value as nat)
        } else {
            "(- "@ + decimal((-value) as nat) + ")"@
        },
    }
}

/// The symbol of a unary operator.
pub open spec fn unary_text(kind: UnaryKind) -> Seq<char> {
    match kind {
        UnaryKind::Not => "not"@,
        UnaryKind::Minus => "-"@,
    }
}

/// The symbol of a binary operator.
pub open spec fn binary_text(kind: BinaryKind) -> Seq<char> {
    match kind {
        BinaryKind::EqCmp => "="@,
        BinaryKind::NeCmp => "distinct"@,
        BinaryKind::GtCmp => ">"@,
        BinaryKind::GeCmp => ">="@,
        BinaryKind::LtCmp => "<"@,
        BinaryKind::LeCmp => "<="@,
        BinaryKind::Add => "+"@,
        BinaryKind::Sub => "-"@,
        BinaryKind::Mul => "*"@,
        BinaryKind::Div => "div"@,
        BinaryKind::Mod => "mod"@,
        BinaryKind::And => "and"@,
        BinaryKind::Or => "or"@,
        BinaryKind::Implies => "=>"@,
    }
}

/// The word of a quantifier.
pub open spec fn quantifier_text(kind: QuantKind) -> Seq<char> {
    match kind {
        QuantKind::ForAll => "forall"@,
        QuantKind::Exists => "exists"@,
    }
}

/// The attribute of a label.
pub open spec fn polarity_text(polarity: Polarity) -> Seq<char> {
    match polarity {
        Polarity::Positive => ":lblpos"@,
        Polarity::Negative => ":lblneg"@,
    }
}

/// The text of the first `k` bound variables: each in brackets with its
/// sort, with a blank between two.
pub open spec fn bounds_text(bounds: Seq<BoundView>, k: int) -> Seq<char>
    decreases k,
{
    if k <= 0 {
        Seq::empty()
    } else {
        bounds_text(bounds, k - 1) + (if k > 1 {
            " "@
        } else {
            Seq::empty()
        }) + "("@ + bounds[k - 1].name + " "@ + sort_text(bounds[k - 1].sort) + ")"@
    }
}

/// The text of an expression.
pub open spec fn expression_text(term: Term) -> Seq<char>
    decreases term, 0int,
{
    match term {
        Term::Variable(name) => name,
        Term::Constant(constant) => constant_text(constant),
        Term::Unary(kind, arg) => "("@ + unary_text(kind) + " "@ + expression_text(*arg) + ")"@,
        Term::Binary(kind, left, right) => "("@ + binary_text(kind) + " "@ + expression_text(*left)
            + " "@ + expression_text(*right) + ")"@,
        Term::Conditional(guard, then_expr, else_expr) => "(ite "@ + expression_text(*guard) + " "@
            + expression_text(*then_expr) + " "@ + expression_text(*else_expr) + ")"@,
        Term::Quantifier(kind, variables, triggers, body) => "("@ + quantifier_text(kind) + " ("@
            + bounds_text(variables, variables.len() as int) + ") "@ + (if triggers.len() == 0 {
            expression_text(*body)
        } else {
            "(! "@ + expression_text(*body) + patterns_text(triggers, triggers.len() as int) + ")"@
        }) + ")"@,
        Term::Application(function, args) => if args.len() == 0 {
            function
        } else {
            "("@ + function + arguments_text(args, args.len() as int) + ")"@
        },
        Term::Labelled(label, polarity, inner) => "(! "@ + expression_text(*inner) + " "@
            + polarity_text(polarity) + " "@ + label + ")"@,
    }
}

/// The text of the first `k` of `args`, each after a blank.
pub open spec fn arguments_text(args: Seq<Term>, k: int) -> Seq<char>
    decreases args, k,
{
    if k <= 0 || k > args.len() {
        Seq::empty()
    } else {
        arguments_text(args, k - 1) + " "@ + expression_text(args[k - 1])
    }
}

/// The text of the first `k` of `triggers`, each as a pattern.
pub open spec fn patterns_text(triggers: Seq<Seq<Term>>, k: int) -> Seq<char>
    decreases triggers, k,
{
    if k <= 0 || k > triggers.len() {
        Seq::empty()
    } else {
        patterns_text(triggers, k - 1) + " :pattern ("@ + parts_text(
            triggers[k - 1],
            triggers[k - 1].len() as int,
        ) + ")"@
    }
}

/// The text of the first `k` of `parts`, with a blank between two.
pub open spec fn parts_text(parts: Seq<Term>, k: int) -> Seq<char>
    decreases parts, k,
{
    if k <= 0 || k > parts.len() {
        Seq::empty()
    } else {
        parts_text(parts, k - 1) + (if k > 1 {
            " "@
        } else {
            Seq::empty()
        }) + expression_text(parts[k - 1])
    }
}

/// The text of `sort`.
pub fn sort_to_smt2(sort: &Sort) -> (r: String)
    ensures
        r@ == sort_text(sort@),
{
    match sort {
        Sort::Bool => String::from_str("Bool"),
        Sort::Int => String::from_str("Int"),
        Sort::Real => String::from_str("Real"),
        Sort::Uninterpreted { name } => name.as_string(),
    }
}

fn constant_to_smt2(constant: &Constant) -> (r: String)
    ensures
        r@ == constant_text(constant@),
{
    match constant {
        Constant::Bool(value) => if *value {
            String::from_str("true")
        } else {
            String::from_str("false")
        },
        Constant::Int(value) => {
            if *value >= 0 {
                decimal_text(*value as u64)
            } else {
                let magnitude: u64 = if *value == i64::MIN {
                    9223372036854775808u64
                } else {
                    (-*value) as u64
                };
                let mut text = String::from_str("(- ");
                text.append(decimal_text(magnitude).as_str());
                text.append(")");
                text
            }
        },
    }
}

fn unary_to_smt2(kind: &UnaryOperationKind) -> (r: &'static str)
    ensures
        r@ == unary_text(kind@),
{
    match kind {
        UnaryOperationKind::Not => "not",
        UnaryOperationKind::Minus => "-",
    }
}

fn binary_to_smt2(kind: &BinaryOperationKind) -> (r: &'static str)
    ensures
        r@ == binary_text(kind@),
{
    match kind {
        BinaryOperationKind::EqCmp => "=",
        BinaryOperationKind::NeCmp => "distinct",
        BinaryOperationKind::GtCmp => ">",
        BinaryOperationKind::GeCmp => ">=",
        BinaryOperationKind::LtCmp => "<",
        BinaryOperationKind::LeCmp => "<=",
        BinaryOperationKind::Add => "+",
        BinaryOperationKind::Sub => "-",
        BinaryOperationKind::Mul => "*",
        BinaryOperationKind::Div => "div",
        BinaryOperationKind::Mod => "mod",
        BinaryOperationKind::And => "and",
        BinaryOperationKind::Or => "or",
        BinaryOperationKind::Implies => "=>",
    }
}

fn bounds_to_smt2(variables: &Vec<BoundedVariableDecl>) -> (r: String)
    ensures
        r@ == bounds_text(bounds_of(variables@), variables@.len() as int),
{
    let ghost bounds = bounds_of(variables@);
    let mut text = String::new();
    let mut i: usize = 0;
    assert(text@ =~= bounds_text(bounds, 0));
    while i < variables.len()
        invariant
            i <= variables@.len(),
            bounds == bounds_of(variables@),
            text@ == bounds_text(bounds, i as int),
        decreases variables@.len() - i,
    {
        let ghost before = text@;
        if i > 0 {
            text.append(" ");
        } else {
            assert(before + Seq::<char>::empty() =~= before);
        }
        text.append("(");
        text.append(variables[i].name.0.as_str());
        text.append(" ");
        text.append(sort_to_smt2(&variables[i].sort).as_str());
        text.append(")");
        i += 1;
    }
    text
}

/// The text of `expression`.
pub fn expression_to_smt2(expression: &Expression) -> (r: String)
    ensures
        r@ == expression_text(expression@),
    decreases expression,
{
    match expression {
        Expression::Variable(e) => e.name.as_string(),
        Expression::Constant(e) => constant_to_smt2(e),
        Expression::UnaryOperation(e) => {
            let mut text = String::from_str("(");
            text.append(unary_to_smt2(&e.kind));
            text.append(" ");
            text.append(expression_to_smt2(&e.arg).as_str());
            text.append(")");
            text
        },
        Expression::BinaryOperation(e) => {
            let mut text = String::from_str("(");
            text.append(binary_to_smt2(&e.kind));
            text.append(" ");
            text.append(expression_to_smt2(&e.left).as_str());
            text.append(" ");
            text.append(expression_to_smt2(&e.right).as_str());
            text.append(")");
            text
        },
        Expression::Conditional(e) => {
            let mut text = String::from_str("(ite ");
            text.append(expression_to_smt2(&e.guard).as_str());
            text.append(" ");
            text.append(expression_to_smt2(&e.then_expr).as_str());
            text.append(" ");
            text.append(expression_to_smt2(&e.else_expr).as_str());
            text.append(")");
            text
        },
        Expression::Quantifier(e) => {
            proof {
                Expression::lemma_view_quantifier(*e);
            }
            let mut text = String::from_str("(");
            text.append(
                match e.kind {
                    QuantifierKind::ForAll => "forall",
                    QuantifierKind::Exists => "exists",
                },
            );
            text.append(" (");
            text.append(bounds_to_smt2(&e.variables).as_str());
            text.append(") ");
            let body = expression_to_smt2(&e.body);
            if e.triggers.len() == 0 {
                text.append(body.as_str());
            } else {
                let mut inner = String::from_str("(! ");
                inner.append(body.as_str());
                inner.append(patterns_to_smt2(&e.triggers).as_str());
                inner.append(")");
                text.append(inner.as_str());
            }
            text.append(")");
            text
        },
        Expression::FunctionApplication(e) => {
            proof {
                Expression::lemma_view_application(*e);
            }
            if e.args.len() == 0 {
                e.function.as_string()
            } else {
                let mut text = String::from_str("(");
                text.append(e.function.0.as_str());
                text.append(arguments_to_smt2(&e.args).as_str());
                text.append(")");
                text
            }
        },
        Expression::LabelledExpression(e) => {
            let mut text = String::from_str("(! ");
            text.append(expression_to_smt2(&e.expression).as_str());
            text.append(" ");
            text.append(
                match e.positivity {
                    LabelPositivity::Positive => ":lblpos",
                    LabelPositivity::Negative => ":lblneg",
                },
            );
            text.append(" ");
            text.append(e.name.0.as_str());
            text.append(")");
            text
        },
    }
}

fn arguments_to_smt2(args: &Vec<Expression>) -> (r: String)
    ensures
        r@ == arguments_text(terms_of(args@), args@.len() as int),
    decreases args,
{
    let ghost terms = terms_of(args@);
    let mut text = String::new();
    let mut i: usize = 0;
    assert(text@ =~= arguments_text(terms, 0));
    while i < args.len()
        invariant
            i <= args@.len(),
            terms == terms_of(args@),
            text@ == arguments_text(terms, i as int),
        decreases args@.len() - i,
    {
        text.append(" ");
        text.append(expression_to_smt2(&args[i]).as_str());
        i += 1;
    }
    text
}

fn parts_to_smt2(parts: &Vec<Expression>) -> (r: String)
    ensures
        r@ == parts_text(terms_of(parts@), parts@.len() as int),
    decreases parts,
{
    let ghost terms = terms_of(parts@);
    let mut text = String::new();
    let mut i: usize = 0;
    assert(text@ =~= parts_text(terms, 0));
    while i < parts.len()
        invariant
            i <= parts@.len(),
            terms == terms_of(parts@),
            text@ == parts_text(terms, i as int),
        decreases parts@.len() - i,
    {
        let ghost before = text@;
        if i > 0 {
            text.append(" ");
        } else {
            assert(before + Seq::<char>::empty() =~= before);
        }
        text.append(expression_to_smt2(&parts[i]).as_str());
        i += 1;
    }
    text
}

fn patterns_to_smt2(triggers: &Vec<Trigger>) -> (r: String)
    ensures
        r@ == patterns_text(triggers_of(triggers@), triggers@.len() as int),
    decreases triggers,
{
    let ghost views = triggers_of(triggers@);
    let mut text = String::new();
    let mut i: usize = 0;
    assert(text@ =~= patterns_text(views, 0));
    while i < triggers.len()
        invariant
            i <= triggers@.len(),
            views == triggers_of(triggers@),
            text@ == patterns_text(views, i as int),
        decreases triggers@.len() - i,
    {
        text.append(" :pattern (");
        text.append(parts_to_smt2(&triggers[i].parts).as_str());
        text.append(")");
        i += 1;
    }
    text
}

} // verus!
