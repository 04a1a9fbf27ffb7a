//! The verification condition of a program of the low tier.
//!
//! Every block gets a boolean variable that stands for its weakest
//! precondition: what has to hold when control enters the block for every
//! assertion from there on to hold. The blocks are taken in the order of the
//! reverse walk, so that the variables of the successors of a block are there
//! when its turn comes. The query asserts what each variable stands for, and
//! at last that the variable of the entry is false: the solver finds the
//! assertions unsatisfiable exactly if no run of the program fails.

use crate::common::cfg::{graph_of, reverse_walk_order, well_formed, Cfg};
use crate::common::expression::{BinaryKind, Name, Polarity, SortView, Term};
use crate::common::order::{lemma_reverse_walk_order, reverse_topological};
use crate::common::statement::{StatementView, VariableDeclView};
use crate::context::Context;
use crate::errors::SvirptiResult;
use crate::low;
use crate::low::program::ProgramView;
use crate::smt;
use crate::smt::query::QueryView;
use crate::wp::expression::{convert_sort_to_smt, converting, lower_expression};
use vstd::prelude::*;

verus! {

/// What the encoding has in hand inside a block.
pub struct WpState {
    /// The weakest precondition of what follows.
    pub wp: Term,
    /// The labels declared so far.
    pub labels: Seq<Name>,
}

/// What the encoding has in hand between two blocks.
pub struct EncodingState {
    pub variables: Seq<VariableDeclView>,
    pub labels: Seq<Name>,
    pub assertions: Seq<Term>,
}

/// The variable that stands for the block `id`.
pub open spec fn alias<C: Context>(id: int) -> Term {
    Term::Variable(C::block_alias_name(id as nat))
}

/// The variables that stand for `successors`.
pub open spec fn aliases<C: Context>(successors: Seq<usize>) -> Seq<Term> {
    Seq::new(successors.len(), |i: int| alias::<C>(successors[i] as int))
}

/// `labels` with `label` declared: a label is declared once.
pub open spec fn declare(labels: Seq<Name>, label: Name) -> Seq<Name> {
    if labels.contains(label) {
        labels
    } else {
        labels.push(label)
    }
}

/// The state before `statement`, given the state after it. An assertion has
/// to hold together with what follows; its label is negative, so that the
/// solver reports it where the assertion fails. An assumption has to imply
/// what follows; its label is positive, so that the solver reports it where
/// the assumption holds.
pub open spec fn wp_statement<C: Context>(s: WpState, statement: StatementView) -> WpState {
    match statement {
        StatementView::Assert { assertion, label: Some(label) } => WpState {
            wp: Term::and(
                Term::labelled(
                    C::smt_label_name(label),
                    Polarity::Negative,
                    assertion.rename(converting::<C>()),
                ),
                s.wp,
            ),
            labels: declare(s.labels, C::smt_label_name(label)),
        },
        StatementView::Assert { assertion, label: None } => WpState {
            wp: Term::and(assertion.rename(converting::<C>()), s.wp),
            labels: s.labels,
        },
        StatementView::Assume { assertion, label: Some(label) } => WpState {
            wp: Term::implies(
                Term::labelled(
                    C::smt_label_name(label),
                    Polarity::Positive,
                    assertion.rename(converting::<C>()),
                ),
                s.wp,
            ),
            labels: declare(s.labels, C::smt_label_name(label)),
        },
        StatementView::Assume { assertion, label: None } => WpState {
            wp: Term::implies(assertion.rename(converting::<C>()), s.wp),
            labels: s.labels,
        },
        _ => s,
    }
}

/// The state before the last `k` of `statements`, given the state `s` after
/// the last of them.
pub open spec fn wp_statements<C: Context>(s: WpState, statements: Seq<StatementView>, k: int) -> WpState
    decreases k,
{
    if k <= 0 {
        s
    } else {
        wp_statement::<C>(
            wp_statements::<C>(s, statements, k - 1),
            statements[statements.len() - k],
        )
    }
}

/// The state after the block `b` was encoded: its variable is declared and
/// asserted to be equal to its weakest precondition.
pub open spec fn encode_block<C: Context>(p: ProgramView, s: EncodingState, b: int) -> EncodingState {
    let block = p.blocks[b];
    let first = WpState { wp: Term::conjoin(aliases::<C>(block.successors)), labels: s.labels };
    let last = wp_statements::<C>(first, block.statements, block.statements.len() as int);
    EncodingState {
        variables: s.variables.push(
            VariableDeclView { name: C::block_alias_name(b as nat), sort: SortView::Bool },
        ),
        labels: last.labels,
        assertions: s.assertions.push(Term::equals(alias::<C>(b), last.wp)),
    }
}

/// The variables of `decls` in the solver's language.
pub open spec fn converted<C: Context>(decls: Seq<VariableDeclView>) -> Seq<VariableDeclView> {
    Seq::new(
        decls.len(),
        |i: int|
            VariableDeclView {
                name: C::smt_variable_name(decls[i].name),
                sort: decls[i].sort.rename(converting::<C>()),
            },
    )
}

/// The state after the first `k` blocks of `order` were encoded.
pub open spec fn encode_along<C: Context>(p: ProgramView, order: Seq<usize>, k: int) -> EncodingState
    decreases k,
{
    if k <= 0 {
        EncodingState {
            variables: converted::<C>(p.variables),
            labels: Seq::empty(),
            assertions: Seq::empty(),
        }
    } else {
        encode_block::<C>(p, encode_along::<C>(p, order, k - 1), order[k - 1] as int)
    }
}

/// The verification condition of `p`.
pub open spec fn encoded<C: Context>(p: ProgramView) -> QueryView {
    let order = reverse_walk_order(p.graph());
    let s = encode_along::<C>(p, order, order.len() as int);
    QueryView {
        variables: s.variables,
        labels: s.labels,
        assertions: s.assertions.push(Term::not(alias::<C>(0))),
    }
}

/// `term` is an equality with the variable of the block `b` on its left.
pub open spec fn defines<C: Context>(term: Term, b: int) -> bool {
    term matches Term::Binary(BinaryKind::EqCmp, left, _) && *left == alias::<C>(b)
}

pub proof fn lemma_encode_along_len<C: Context>(p: ProgramView, order: Seq<usize>, k: int)
    requires
        0 <= k <= order.len(),
    ensures
        encode_along::<C>(p, order, k).assertions.len() == k,
        encode_along::<C>(p, order, k).variables.len() == p.variables.len() + k,
        forall|i: int|
            0 <= i < k ==> defines::<C>(
                #[trigger] encode_along::<C>(p, order, k).assertions[i],
                order[i] as int,
            ),
        forall|i: int|
            0 <= i < k ==> (#[trigger] encode_along::<C>(p, order, k).variables[p.variables.len()
                + i]) == (VariableDeclView {
                name: C::block_alias_name(order[i] as nat),
                sort: SortView::Bool,
            }),
    decreases k,
{
    if k > 0 {
        lemma_encode_along_len::<C>(p, order, k - 1);
    }
}

/// The verification condition of a well-formed program asserts one
/// equality for each block, with the variable of the block on its left,
/// and after them one negation: that of the variable of the entry. It
/// declares one variable for each block beside those of the program.
pub proof fn lemma_encoded_shape<C: Context>(p: ProgramView)
    requires
        well_formed(p.graph()),
    ensures
        reverse_topological(p.graph(), reverse_walk_order(p.graph())),
        encoded::<C>(p).assertions.len() == p.blocks.len() + 1,
        encoded::<C>(p).assertions.last() == Term::not(alias::<C>(0)),
        forall|i: int|
            0 <= i < p.blocks.len() ==> defines::<C>(
                #[trigger] encoded::<C>(p).assertions[i],
                reverse_walk_order(p.graph())[i] as int,
            ),
        encoded::<C>(p).variables.len() == p.variables.len() + p.blocks.len(),
{
    let order = reverse_walk_order(p.graph());
    lemma_reverse_walk_order(p.graph());
    lemma_encode_along_len::<C>(p, order, order.len() as int);
}

/// The conjunction of the variables that stand for `successors`.
fn conjoin_aliases<C: Context>(context: &mut C, successors: &Vec<usize>) -> (r: smt::Expression)
    ensures
        r@ == Term::conjoin(aliases::<C>(successors@)),
{
    if successors.len() == 0 {
        return smt::Expression::Constant(smt::Constant::Bool(true));
    }
    let mut r = smt::Expression::variable(context.create_label_for_basic_block(successors[0]));
    let mut i: usize = 1;
    while i < successors.len()
        invariant
            1 <= i <= successors@.len(),
            r@ == Term::conjoin(aliases::<C>(successors@).take(i as int)),
        decreases successors@.len() - i,
    {
        let next = smt::Expression::variable(context.create_label_for_basic_block(successors[i]));
        r = smt::Expression::and(r, next);
        proof {
            let all = aliases::<C>(successors@);
            assert(all.take(i + 1).drop_last() =~= all.take(i as int));
        }
        i += 1;
    }
    proof {
        let all = aliases::<C>(successors@);
        assert(all.take(i as int) =~= all);
    }
    r
}

/// Declares `name` among `labels` unless it is declared there.
fn declare_label(labels: &mut Vec<smt::LabelDeclaration>, name: &smt::LabelSymbol)
    ensures
        smt::declaration::label_names_of(final(labels)@) == declare(
            smt::declaration::label_names_of(old(labels)@),
            name@,
        ),
{
    let ghost names = smt::declaration::label_names_of(labels@);
    let mut i: usize = 0;
    while i < labels.len()
        invariant
            i <= labels@.len(),
            labels@ == old(labels)@,
            names == smt::declaration::label_names_of(labels@),
            forall|k: int| 0 <= k < i ==> names[k] != name@,
        decreases labels@.len() - i,
    {
        if labels[i].name == *name {
            assert(names[i as int] == name@);
            return ;
        }
        i += 1;
    }
    labels.push(smt::LabelDeclaration { name: name.clone() });
}

/// Puts `statement` before the weakest precondition `wp`.
fn encode_statement<C: Context>(
    context: &mut C,
    statement: &low::Statement,
    wp: smt::Expression,
    labels: &mut Vec<smt::LabelDeclaration>,
) -> (r: smt::Expression)
    ensures
        (WpState { wp: r@, labels: smt::declaration::label_names_of(final(labels)@) })
            == wp_statement::<C>(
            WpState { wp: wp@, labels: smt::declaration::label_names_of(old(labels)@) },
            statement@,
        ),
{
    match statement {
        low::Statement::Assert(low::Assert { assertion, label }) => {
            if let Some(label) = label {
                let name = context.convert_label_name_to_smt(label);
                declare_label(labels, &name);
                let conjunct = smt::Expression::label_negative(
                    name,
                    lower_expression(context, assertion),
                );
                smt::Expression::and(conjunct, wp)
            } else {
                smt::Expression::and(lower_expression(context, assertion), wp)
            }
        },
        low::Statement::Assume(low::Assume { assertion, label }) => {
            if let Some(label) = label {
                let name = context.convert_label_name_to_smt(label);
                declare_label(labels, &name);
                let condition = smt::Expression::label_positive(
                    name,
                    lower_expression(context, assertion),
                );
                smt::Expression::implies(condition, wp)
            } else {
                smt::Expression::implies(lower_expression(context, assertion), wp)
            }
        },
    }
}

/// The variables of `program` in the solver's language.
fn convert_variables<C: Context>(context: &mut C, variables: &Vec<low::VariableDeclaration>) -> (r:
    Vec<smt::VariableDeclaration>)
    ensures
        smt::declaration::declarations_of(r@) == converted::<C>(
            low::declaration::declarations_of(variables@),
        ),
{
    let mut r: Vec<smt::VariableDeclaration> = Vec::new();
    let mut i: usize = 0;
    while i < variables.len()
        invariant
            i <= variables@.len(),
            r@.len() == i,
            forall|k: int|
                0 <= k < i ==> (#[trigger] r@[k])@ == converted::<C>(
                    low::declaration::declarations_of(variables@),
                )[k],
        decreases variables@.len() - i,
    {
        let variable = &variables[i];
        let name = context.convert_variable_name_to_smt(&variable.name);
        let sort = convert_sort_to_smt(context, &variable.sort);
        r.push(smt::VariableDeclaration { name, sort });
        i += 1;
    }
    r
}

/// The verification condition of `program`: the solver finds its assertions
/// unsatisfiable exactly if every assertion of `program` holds on every path.
pub fn encode<C: Context>(program: &low::ProgramFragment, context: &mut C) -> (r: SvirptiResult<
    smt::Query,
>)
    requires
        well_formed(program@.graph()),
    ensures
        r matches Ok(query) && query@ == encoded::<C>(program@)
            && query.declarations.sorts@.len() == 0 && query.declarations.functions@.len() == 0
            && query.assertions@.len() == program.basic_blocks@.len() + 1,
{
    let ghost p = program@;
    let ghost g = p.graph();
    let ghost order = reverse_walk_order(g);
    proof {
        assert(graph_of(program.basic_blocks@) =~= g);
        lemma_encoded_shape::<C>(p);
    }
    let mut assertions: Vec<smt::Expression> = Vec::new();
    let mut variables = convert_variables(context, &program.variables);
    let mut labels: Vec<smt::LabelDeclaration> = Vec::new();
    proof {
        assert(smt::declaration::label_names_of(labels@) =~= Seq::<Name>::empty());
        assert(smt::expression::terms_of(assertions@) =~= Seq::<Term>::empty());
    }
    let mut walker = program.reverse_walk();
    loop
        invariant
            p == program@,
            g == p.graph(),
            g == graph_of(program.basic_blocks@),
            order == reverse_walk_order(g),
            walker.wf(),
            walker.blocks() == program.basic_blocks@,
            walker.yielded().len() <= order.len(),
            (EncodingState {
                variables: smt::declaration::declarations_of(variables@),
                labels: smt::declaration::label_names_of(labels@),
                assertions: smt::expression::terms_of(assertions@),
            }) == encode_along::<C>(p, order, walker.yielded().len() as int),
        ensures
            walker.yielded() == order,
        decreases order.len() - walker.yielded().len(),
    {
        match walker.next() {
            Some((id, block)) => {
                let ghost high_statements = p.blocks[id as int].statements;
                let mut wp = conjoin_aliases(context, &block.successors);
                let ghost first = WpState {
                    wp: wp@,
                    labels: smt::declaration::label_names_of(labels@),
                };
                let mut j: usize = block.statements.len();
                while j > 0
                    invariant
                        j <= block.statements@.len(),
                        high_statements == low::statement::statements_of(block.statements@),
                        (WpState { wp: wp@, labels: smt::declaration::label_names_of(labels@) })
                            == wp_statements::<C>(
                            first,
                            high_statements,
                            block.statements@.len() - j,
                        ),
                    decreases j,
                {
                    j -= 1;
                    wp = encode_statement(context, &block.statements[j], wp, &mut labels);
                }
                let basic_block_label = context.create_label_for_basic_block(id);
                let ghost declared_before = smt::declaration::declarations_of(variables@);
                let ghost asserted_before = smt::expression::terms_of(assertions@);
                let declaration = smt::VariableDeclaration {
                    name: basic_block_label.clone(),
                    sort: smt::Sort::Bool,
                };
                variables.push(declaration);
                let assertion = smt::Expression::equals(
                    smt::Expression::variable(basic_block_label),
                    wp,
                );
                assertions.push(assertion);
                proof {
                    assert(smt::declaration::declarations_of(variables@) =~= declared_before.push(
                        declaration@,
                    ));
                    assert(smt::expression::terms_of(assertions@) =~= asserted_before.push(
                        assertion@,
                    ));
                }
            },
            None => {
                break ;
            },
        }
    }
    let ghost asserted_before = smt::expression::terms_of(assertions@);
    let last = smt::Expression::not(
        smt::Expression::variable(context.create_label_for_basic_block(0)),
    );
    assertions.push(last);
    proof {
        assert(smt::expression::terms_of(assertions@) =~= asserted_before.push(last@));
    }
    let declarations = smt::Declarations {
        sorts: Vec::new(),
        functions: Vec::new(),
        labels,
        variables,
    };
    Ok(smt::Query { declarations, assertions })
}

} // verus!
