//! Conversion of the expressions of the low tier to the solver's language:
//! the tree stays, every symbol gets the name that the context gives it.

use crate::common::expression::{Name, Renaming};
use crate::context::Context;
use crate::low;
use crate::lower::expression::renamed;
use crate::smt;
use vstd::prelude::*;

verus! {

/// How the symbols of the low tier are named in the solver's language.
pub open spec fn converting<C: Context>() -> Renaming {
    Renaming {
        variable: |x: Name| C::smt_variable_name(x),
        function: |f: Name| C::smt_function_name(f),
        sort: |s: Name| C::smt_sort_name(s),
    }
}

fn convert_kind(kind: &low::BinaryOperationKind) -> (r: smt::BinaryOperationKind)
    ensures
        r@ == kind@,
{
    match kind {
        low::BinaryOperationKind::EqCmp => smt::BinaryOperationKind::EqCmp,
        low::BinaryOperationKind::NeCmp => smt::BinaryOperationKind::NeCmp,
        low::BinaryOperationKind::GtCmp => smt::BinaryOperationKind::GtCmp,
        low::BinaryOperationKind::GeCmp => smt::BinaryOperationKind::GeCmp,
        low::BinaryOperationKind::LtCmp => smt::BinaryOperationKind::LtCmp,
        low::BinaryOperationKind::LeCmp => smt::BinaryOperationKind::LeCmp,
        low::BinaryOperationKind::Add => smt::BinaryOperationKind::Add,
        low::BinaryOperationKind::Sub => smt::BinaryOperationKind::Sub,
        low::BinaryOperationKind::Mul => smt::BinaryOperationKind::Mul,
        low::BinaryOperationKind::Div => smt::BinaryOperationKind::Div,
        low::BinaryOperationKind::Mod => smt::BinaryOperationKind::Mod,
        low::BinaryOperationKind::And => smt::BinaryOperationKind::And,
        low::BinaryOperationKind::Or => smt::BinaryOperationKind::Or,
        low::BinaryOperationKind::Implies => smt::BinaryOperationKind::Implies,
    }
}

fn convert_unary_kind(kind: &low::UnaryOperationKind) -> (r: smt::UnaryOperationKind)
    ensures
        r@ == kind@,
{
    match kind {
        low::UnaryOperationKind::Not => smt::UnaryOperationKind::Not,
        low::UnaryOperationKind::Minus => smt::UnaryOperationKind::Minus,
    }
}

fn convert_quantifier_kind(kind: &low::QuantifierKind) -> (r: smt::QuantifierKind)
    ensures
        r@ == kind@,
{
    match kind {
        low::QuantifierKind::ForAll => smt::QuantifierKind::ForAll,
        low::QuantifierKind::Exists => smt::QuantifierKind::Exists,
    }
}

fn convert_constant(constant: &low::Constant) -> (r: smt::Constant)
    ensures
        r@ == constant@,
{
    match constant {
        low::Constant::Bool(value) => smt::Constant::Bool(*value),
        low::Constant::Int(value) => smt::Constant::Int(*value),
    }
}

/// `sort` in the solver's language.
pub fn convert_sort_to_smt<C: Context>(context: &mut C, sort: &low::Sort) -> (r: smt::Sort)
    ensures
        r@ == sort@.rename(converting::<C>()),
{
    match sort {
        low::Sort::Bool => smt::Sort::Bool,
        low::Sort::Int => smt::Sort::Int,
        low::Sort::Real => smt::Sort::Real,
        low::Sort::Uninterpreted { name } => smt::Sort::Uninterpreted {
            name: context.convert_uninterpreted_sort_to_smt(name),
        },
    }
}

/// `expression` in the solver's language.
pub fn lower_expression<C: Context>(context: &mut C, expression: &low::Expression) -> (r:
    smt::Expression)
    ensures
        r@ == expression@.rename(converting::<C>()),
    decreases expression,
{
    let ghost renaming = converting::<C>();
    match expression {
        low::Expression::Variable(e) => smt::Expression::variable(
            context.convert_variable_name_to_smt(&e.name),
        ),
        low::Expression::Constant(e) => smt::Expression::constant(convert_constant(e)),
        low::Expression::UnaryOperation(e) => {
            let arg = lower_expression(context, &e.arg);
            smt::Expression::unary(convert_unary_kind(&e.kind), arg)
        },
        low::Expression::BinaryOperation(e) => {
            let left = lower_expression(context, &e.left);
            let right = lower_expression(context, &e.right);
            smt::Expression::binary(convert_kind(&e.kind), left, right)
        },
        low::Expression::Conditional(e) => {
            let guard = lower_expression(context, &e.guard);
            let then_expr = lower_expression(context, &e.then_expr);
            let else_expr = lower_expression(context, &e.else_expr);
            smt::Expression::conditional(guard, then_expr, else_expr)
        },
        low::Expression::Quantifier(e) => {
            let ghost bounds = low::expression::bounds_of(e.variables@);
            let ghost triggers_view = low::expression::triggers_of(e.triggers@);
            let mut bound: Vec<smt::BoundedVariableDecl> = Vec::new();
            let mut i: usize = 0;
            while i < e.variables.len()
                invariant
                    i <= e.variables@.len(),
                    bound@.len() == i,
                    renaming == converting::<C>(),
                    bounds == low::expression::bounds_of(e.variables@),
                    forall|k: int| 0 <= k < i ==> (#[trigger] bound@[k])@ == bounds[k].rename(renaming),
                decreases e.variables@.len() - i,
            {
                let decl = &e.variables[i];
                let name = context.convert_variable_name_to_smt(&decl.name);
                let sort = convert_sort_to_smt(context, &decl.sort);
                bound.push(smt::BoundedVariableDecl { name, sort });
                i += 1;
            }
            let mut triggers: Vec<smt::Trigger> = Vec::new();
            let mut j: usize = 0;
            while j < e.triggers.len()
                invariant
                    j <= e.triggers@.len(),
                    triggers@.len() == j,
                    renaming == converting::<C>(),
                    expression matches low::Expression::Quantifier(q) && q == e,
                    triggers_view == low::expression::triggers_of(e.triggers@),
                    forall|k: int|
                        0 <= k < j ==> smt::expression::terms_of((#[trigger] triggers@[k]).parts@)
                            == renamed(triggers_view[k], renaming),
                decreases e.triggers@.len() - j,
            {
                proof {
                    assert(decreases_to!(e.triggers => e.triggers[j as int]));
                }
                let parts = lower_expressions(context, &e.triggers[j].parts);
                triggers.push(smt::Trigger { parts });
                j += 1;
            }
            let body = lower_expression(context, &e.body);
            let kind = convert_quantifier_kind(&e.kind);
            proof {
                let renamed_term = expression@.rename(renaming);
                assert(smt::expression::bounds_of(bound@) =~= renamed_term->Quantifier_1);
                assert forall|k: int| 0 <= k < triggers@.len() implies smt::expression::triggers_of(
                    triggers@,
                )[k] =~= (#[trigger] renamed_term->Quantifier_2[k]) by {}
                assert(smt::expression::triggers_of(triggers@) =~= renamed_term->Quantifier_2);
            }
            smt::Expression::quantifier(kind, bound, triggers, body)
        },
        low::Expression::FunctionApplication(e) => {
            let args = lower_expressions(context, &e.args);
            let function = context.convert_function_name_to_smt(&e.function);
            proof {
                assert(renamed(low::expression::terms_of(e.args@), renaming) =~= expression@.rename(
                    renaming,
                )->Application_1);
            }
            smt::Expression::call(function, args)
        },
    }
}

/// Each of `expressions` in the solver's language.
pub fn lower_expressions<C: Context>(context: &mut C, expressions: &Vec<low::Expression>) -> (r:
    Vec<smt::Expression>)
    ensures
        smt::expression::terms_of(r@) == renamed(
            low::expression::terms_of(expressions@),
            converting::<C>(),
        ),
    decreases expressions,
{
    let ghost renaming = converting::<C>();
    let ghost terms = low::expression::terms_of(expressions@);
    let mut lowered: Vec<smt::Expression> = Vec::new();
    let mut i: usize = 0;
    while i < expressions.len()
        invariant
            i <= expressions@.len(),
            lowered@.len() == i,
            renaming == converting::<C>(),
            terms == low::expression::terms_of(expressions@),
            forall|k: int| 0 <= k < i ==> (#[trigger] lowered@[k])@ == terms[k].rename(renaming),
        decreases expressions@.len() - i,
    {
        let e = lower_expression(context, &expressions[i]);
        lowered.push(e);
        i += 1;
    }
    proof {
        assert(smt::expression::terms_of(lowered@) =~= renamed(terms, renaming));
    }
    lowered
}

} // verus!
