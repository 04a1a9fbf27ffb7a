//! Lowering of expressions: every variable becomes its current version.

use crate::common::expression::{
    first_bound_outside, first_outside_of, first_outside_of_triggers,
    lemma_first_bound_outside_stays, lemma_first_outside_of_triggers_stays,
    lemma_first_outside_stays, Name, Renaming, Term,
};
use crate::context::Context;
use crate::errors::{SvirptiError, SvirptiErrorKind, SvirptiResult};
use crate::high;
use crate::high::declaration::declarations_of;
use crate::low;
use crate::lower::versions::{declared, find_variable, known, names_of, reading};
use vstd::prelude::*;

verus! {

/// What lowering an expression gives: the expression renamed, where every
/// variable that it names is declared, and else an error that names the first
/// variable that is not.
pub open spec fn lowers_to<C: Context>(
    names: Seq<Name>,
    versions: Seq<usize>,
    term: Term,
    r: SvirptiResult<low::Expression>,
) -> bool {
    match r {
        Ok(e) => term.first_outside(known(names)) is None && e@ == term.rename(
            reading::<C>(names, versions),
        ),
        Err(error) => term.first_outside(known(names)) is Some && reports(
            error,
            term.first_outside(known(names))->0,
        ),
    }
}

/// `error` reports that the variable `name` is read and not declared.
pub open spec fn reports(error: SvirptiError, name: Name) -> bool {
    error.kind matches SvirptiErrorKind::UnknownVariable(variable) && variable@ == name
}

fn lower_kind(kind: &high::BinaryOperationKind) -> (r: low::BinaryOperationKind)
    ensures
        r@ == kind@,
{
    match kind {
        high::BinaryOperationKind::EqCmp => low::BinaryOperationKind::EqCmp,
        high::BinaryOperationKind::NeCmp => low::BinaryOperationKind::NeCmp,
        high::BinaryOperationKind::GtCmp => low::BinaryOperationKind::GtCmp,
        high::BinaryOperationKind::GeCmp => low::BinaryOperationKind::GeCmp,
        high::BinaryOperationKind::LtCmp => low::BinaryOperationKind::LtCmp,
        high::BinaryOperationKind::LeCmp => low::BinaryOperationKind::LeCmp,
        high::BinaryOperationKind::Add => low::BinaryOperationKind::Add,
        high::BinaryOperationKind::Sub => low::BinaryOperationKind::Sub,
        high::BinaryOperationKind::Mul => low::BinaryOperationKind::Mul,
        high::BinaryOperationKind::Div => low::BinaryOperationKind::Div,
        high::BinaryOperationKind::Mod => low::BinaryOperationKind::Mod,
        high::BinaryOperationKind::And => low::BinaryOperationKind::And,
        high::BinaryOperationKind::Or => low::BinaryOperationKind::Or,
        high::BinaryOperationKind::Implies => low::BinaryOperationKind::Implies,
    }
}

fn lower_unary_kind(kind: &high::UnaryOperationKind) -> (r: low::UnaryOperationKind)
    ensures
        r@ == kind@,
{
    match kind {
        high::UnaryOperationKind::Not => low::UnaryOperationKind::Not,
        high::UnaryOperationKind::Minus => low::UnaryOperationKind::Minus,
    }
}

fn lower_quantifier_kind(kind: &high::QuantifierKind) -> (r: low::QuantifierKind)
    ensures
        r@ == kind@,
{
    match kind {
        high::QuantifierKind::ForAll => low::QuantifierKind::ForAll,
        high::QuantifierKind::Exists => low::QuantifierKind::Exists,
    }
}

fn lower_constant(constant: &high::Constant) -> (r: low::Constant)
    ensures
        r@ == constant@,
{
    match constant {
        high::Constant::Bool(value) => low::Constant::Bool(*value),
        high::Constant::Int(value) => low::Constant::Int(*value),
    }
}

/// The sort of a bound variable keeps its name.
fn lower_bound_sort(sort: &high::Type) -> (r: low::Sort)
    ensures
        r@ == sort@,
{
    match sort {
        high::Type::Int => low::Sort::Int,
        high::Type::Bool => low::Sort::Bool,
        high::Type::Real => low::Sort::Real,
        high::Type::Domain(domain) => low::Sort::Uninterpreted {
            name: low::UninterpretedSortSymbol(domain.name.as_string()),
        },
    }
}

/// The current version of the variable `symbol`.
fn lower_variable_symbol<C: Context>(
    context: &mut C,
    variables: &Vec<high::VariableDeclaration>,
    variable_versions: &Vec<usize>,
    symbol: &high::VariableSymbol,
) -> (r: SvirptiResult<low::VariableSymbol>)
    requires
        variable_versions@.len() == variables@.len(),
    ensures
        match r {
            Ok(name) => declared(names_of(declarations_of(variables@)), symbol@) && name@ == (
            reading::<C>(names_of(declarations_of(variables@)), variable_versions@).variable)(
                symbol@,
            ),
            Err(error) => !declared(names_of(declarations_of(variables@)), symbol@) && reports(
                error,
                symbol@,
            ),
        },
{
    match find_variable(variables, symbol) {
        Some(index) => {
            let version = variable_versions[index];
            Ok(context.create_versioned_variable_symbol(symbol, version))
        },
        None => Err(SvirptiError::unknown_variable(symbol.clone())),
    }
}

/// `expression` as it reads while the variables have the versions
/// `variable_versions`.
pub fn lower_expression<C: Context>(
    context: &mut C,
    variables: &Vec<high::VariableDeclaration>,
    variable_versions: &Vec<usize>,
    expression: &high::Expression,
) -> (r: SvirptiResult<low::Expression>)
    requires
        variable_versions@.len() == variables@.len(),
    ensures
        lowers_to::<C>(
            names_of(declarations_of(variables@)),
            variable_versions@,
            expression@,
            r,
        ),
    decreases expression,
{
    let ghost names = names_of(declarations_of(variables@));
    let ghost renaming = reading::<C>(names, variable_versions@);
    match expression {
        high::Expression::Variable(e) => {
            match lower_variable_symbol(context, variables, variable_versions, &e.name) {
                Ok(name) => Ok(low::Expression::variable(name)),
                Err(error) => Err(error),
            }
        },
        high::Expression::Constant(e) => Ok(low::Expression::constant(lower_constant(e))),
        high::Expression::UnaryOperation(e) => {
            match lower_expression(context, variables, variable_versions, &e.arg) {
                Ok(arg) => Ok(low::Expression::unary(lower_unary_kind(&e.kind), arg)),
                Err(error) => Err(error),
            }
        },
        high::Expression::BinaryOperation(e) => {
            let left = match lower_expression(context, variables, variable_versions, &e.left) {
                Ok(left) => left,
                Err(error) => {
                    return Err(error);
                },
            };
            match lower_expression(context, variables, variable_versions, &e.right) {
                Ok(right) => Ok(low::Expression::binary(lower_kind(&e.kind), left, right)),
                Err(error) => Err(error),
            }
        },
        high::Expression::Conditional(e) => {
            let guard = match lower_expression(context, variables, variable_versions, &e.guard) {
                Ok(guard) => guard,
                Err(error) => {
                    return Err(error);
                },
            };
            let then_expr = match lower_expression(
                context,
                variables,
                variable_versions,
                &e.then_expr,
            ) {
                Ok(then_expr) => then_expr,
                Err(error) => {
                    return Err(error);
                },
            };
            match lower_expression(context, variables, variable_versions, &e.else_expr) {
                Ok(else_expr) => Ok(low::Expression::conditional(guard, then_expr, else_expr)),
                Err(error) => Err(error),
            }
        },
        high::Expression::Quantifier(e) => {
            proof {
                high::Expression::lemma_view_quantifier(*e);
            }
            let ghost bounds = high::expression::bounds_of(e.variables@);
            let ghost triggers_view = high::expression::triggers_of(e.triggers@);
            let mut bound: Vec<low::BoundedVariableDecl> = Vec::new();
            let mut i: usize = 0;
            while i < e.variables.len()
                invariant
                    i <= e.variables@.len(),
                    bound@.len() == i,
                    variable_versions@.len() == variables@.len(),
                    names == names_of(declarations_of(variables@)),
                    renaming == reading::<C>(names, variable_versions@),
                    bounds == high::expression::bounds_of(e.variables@),
                    expression@ == Term::Quantifier(
                        e.kind@,
                        bounds,
                        triggers_view,
                        Box::new(e.body@),
                    ),
                    first_bound_outside(bounds, known(names), i as int) is None,
                    forall|k: int| 0 <= k < i ==> (#[trigger] bound@[k])@ == bounds[k].rename(renaming),
                decreases e.variables@.len() - i,
            {
                let decl = &e.variables[i];
                let name = match lower_variable_symbol(
                    context,
                    variables,
                    variable_versions,
                    &decl.name,
                ) {
                    Ok(name) => name,
                    Err(error) => {
                        proof {
                            assert(!known(names).contains(bounds[i as int].name));
                            lemma_first_bound_outside_stays(
                                bounds,
                                known(names),
                                i + 1,
                                bounds.len() as int,
                            );
                        }
                        return Err(error);
                    },
                };
                bound.push(low::BoundedVariableDecl { name, sort: lower_bound_sort(&decl.sort) });
                i += 1;
            }
            let mut triggers: Vec<low::Trigger> = Vec::new();
            let mut j: usize = 0;
            while j < e.triggers.len()
                invariant
                    j <= e.triggers@.len(),
                    triggers@.len() == j,
                    variable_versions@.len() == variables@.len(),
                    names == names_of(declarations_of(variables@)),
                    renaming == reading::<C>(names, variable_versions@),
                    expression matches high::Expression::Quantifier(q) && q == e,
                    triggers_view == high::expression::triggers_of(e.triggers@),
                    bounds == high::expression::bounds_of(e.variables@),
                    bound@.len() == e.variables@.len(),
                    expression@ == Term::Quantifier(
                        e.kind@,
                        bounds,
                        triggers_view,
                        Box::new(e.body@),
                    ),
                    first_bound_outside(bounds, known(names), bounds.len() as int) is None,
                    forall|k: int|
                        0 <= k < bounds.len() ==> (#[trigger] bound@[k])@ == bounds[k].rename(
                            renaming,
                        ),
                    first_outside_of_triggers(triggers_view, known(names), j as int) is None,
                    forall|k: int|
                        0 <= k < j ==> low::expression::terms_of((#[trigger] triggers@[k]).parts@)
                            == renamed(triggers_view[k], renaming),
                decreases e.triggers@.len() - j,
            {
                proof {
                    assert(decreases_to!(e.triggers => e.triggers[j as int]));
                }
                let parts = match lower_expressions(
                    context,
                    variables,
                    variable_versions,
                    &e.triggers[j].parts,
                ) {
                    Ok(parts) => parts,
                    Err(error) => {
                        proof {
                            lemma_first_outside_of_triggers_stays(
                                triggers_view,
                                known(names),
                                j + 1,
                                triggers_view.len() as int,
                            );
                        }
                        return Err(error);
                    },
                };
                triggers.push(low::Trigger { parts });
                j += 1;
            }
            let body = match lower_expression(context, variables, variable_versions, &e.body) {
                Ok(body) => body,
                Err(error) => {
                    return Err(error);
                },
            };
            let kind = lower_quantifier_kind(&e.kind);
            proof {
                let renamed_term = expression@.rename(renaming);
                assert(low::expression::bounds_of(bound@) =~= renamed_term->Quantifier_1);
                assert forall|k: int| 0 <= k < triggers@.len() implies low::expression::triggers_of(
                    triggers@,
                )[k] =~= (#[trigger] renamed_term->Quantifier_2[k]) by {}
                assert(low::expression::triggers_of(triggers@) =~= renamed_term->Quantifier_2);
            }
            Ok(low::Expression::quantifier(kind, bound, triggers, body))
        },
        high::Expression::FunctionApplication(e) => {
            proof {
                high::Expression::lemma_view_application(*e);
            }
            match lower_expressions(context, variables, variable_versions, &e.args) {
                Ok(args) => {
                    proof {
                        assert(renamed(high::expression::terms_of(e.args@), renaming)
                            =~= expression@.rename(renaming)->Application_1);
                    }
                    Ok(low::Expression::call(low::FunctionSymbol(e.function.as_string()), args))
                },
                Err(error) => Err(error),
            }
        },
    }
}

/// Each of `terms` renamed by `r`.
pub open spec fn renamed(terms: Seq<Term>, r: Renaming) -> Seq<Term> {
    Seq::new(terms.len(), |i: int| terms[i].rename(r))
}

/// Each of `expressions` as it reads while the variables have the versions
/// `variable_versions`.
pub fn lower_expressions<C: Context>(
    context: &mut C,
    variables: &Vec<high::VariableDeclaration>,
    variable_versions: &Vec<usize>,
    expressions: &Vec<high::Expression>,
) -> (r: SvirptiResult<Vec<low::Expression>>)
    requires
        variable_versions@.len() == variables@.len(),
    ensures
        match r {
            Ok(lowered) => {
                &&& first_outside_of(
                    high::expression::terms_of(expressions@),
                    known(names_of(declarations_of(variables@))),
                    expressions@.len() as int,
                ) is None
                &&& low::expression::terms_of(lowered@) == renamed(
                    high::expression::terms_of(expressions@),
                    reading::<C>(names_of(declarations_of(variables@)), variable_versions@),
                )
            },
            Err(error) => {
                let first = first_outside_of(
                    high::expression::terms_of(expressions@),
                    known(names_of(declarations_of(variables@))),
                    expressions@.len() as int,
                );
                first is Some && reports(error, first->0)
            },
        },
    decreases expressions,
{
    let ghost names = names_of(declarations_of(variables@));
    let ghost renaming = reading::<C>(names, variable_versions@);
    let ghost terms = high::expression::terms_of(expressions@);
    let mut lowered: Vec<low::Expression> = Vec::new();
    let mut i: usize = 0;
    while i < expressions.len()
        invariant
            i <= expressions@.len(),
            lowered@.len() == i,
            variable_versions@.len() == variables@.len(),
            names == names_of(declarations_of(variables@)),
            renaming == reading::<C>(names, variable_versions@),
            terms == high::expression::terms_of(expressions@),
            first_outside_of(terms, known(names), i as int) is None,
            forall|k: int| 0 <= k < i ==> (#[trigger] lowered@[k])@ == terms[k].rename(renaming),
        decreases expressions@.len() - i,
    {
        match lower_expression(context, variables, variable_versions, &expressions[i]) {
            Ok(e) => {
                lowered.push(e);
            },
            Err(error) => {
                proof {
                    lemma_first_outside_stays(terms, known(names), i + 1, terms.len() as int);
                }
                return Err(error);
            },
        }
        i += 1;
    }
    proof {
        assert(low::expression::terms_of(lowered@) =~= renamed(terms, renaming));
    }
    Ok(lowered)
}

} // verus!
