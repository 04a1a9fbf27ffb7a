//! What a verification condition says when it is read as propositional
//! logic: conjunction, disjunction, implication and negation mean what they
//! always mean, a label says nothing, and every other expression is an atom
//! of which nothing is known. What cannot hold under this reading cannot hold
//! under any.

use crate::common::cfg::{has_edge, reverse_walk_order, well_formed};
use crate::common::expression::{BinaryKind, ConstantView, Polarity, Term, UnaryKind};
use crate::common::order::{before, lemma_reverse_walk_order};
use crate::common::statement::StatementView;
use crate::context::Context;
use crate::low::program::ProgramView;
use crate::wp::expression::converting;
use crate::wp::encode_wp::{
    alias, aliases, encode_along, encode_block, encoded, wp_statement, wp_statements, WpState,
};
use vstd::prelude::*;

verus! {

/// Which atoms hold.
pub type Valuation = spec_fn(Term) -> bool;

/// Whether `term` holds under `v`.
pub open spec fn holds(term: Term, v: Valuation) -> bool
    decreases term,
{
    match term {
        Term::Constant(ConstantView::Bool(value)) => value,
        Term::Unary(UnaryKind::Not, arg) => !holds(*arg, v),
        Term::Binary(BinaryKind::And, left, right) => holds(*left, v) && holds(*right, v),
        Term::Binary(BinaryKind::Or, left, right) => holds(*left, v) || holds(*right, v),
        Term::Binary(BinaryKind::Implies, left, right) => holds(*left, v) ==> holds(*right, v),
        Term::Labelled(label, polarity, inner) => holds(*inner, v),
        atom => v(atom),
    }
}

/// Whether the assertion `assertion` of a verification condition holds
/// under `v`: an equality says that its two sides hold together or not at
/// all.
pub open spec fn satisfied(assertion: Term, v: Valuation) -> bool {
    match assertion {
        Term::Binary(BinaryKind::EqCmp, left, right) => holds(*left, v) == holds(*right, v),
        other => holds(other, v),
    }
}

/// No statement of `p` is an assertion.
pub open spec fn without_assertions(p: ProgramView) -> bool {
    forall|b: int, j: int|
        0 <= b < p.blocks.len() && 0 <= j < p.blocks[b].statements.len() ==> !(
        #[trigger] p.blocks[b].statements[j] is Assert)
}

pub proof fn lemma_conjoin_holds(terms: Seq<Term>, v: Valuation)
    requires
        forall|i: int| 0 <= i < terms.len() ==> holds(#[trigger] terms[i], v),
    ensures
        holds(Term::conjoin(terms), v),
    decreases terms.len(),
{
    if terms.len() > 1 {
        assert forall|i: int| 0 <= i < terms.drop_last().len() implies holds(
            #[trigger] terms.drop_last()[i],
            v,
        ) by {}
        lemma_conjoin_holds(terms.drop_last(), v);
    }
}

/// What holds after assumptions holds before them.
pub proof fn lemma_assumptions_keep<C: Context>(
    s: WpState,
    statements: Seq<StatementView>,
    k: int,
    v: Valuation,
)
    requires
        0 <= k <= statements.len(),
        holds(s.wp, v),
        forall|j: int| 0 <= j < statements.len() ==> !(#[trigger] statements[j] is Assert),
    ensures
        holds(wp_statements::<C>(s, statements, k).wp, v),
    decreases k,
{
    if k > 0 {
        lemma_assumptions_keep::<C>(s, statements, k - 1, v);
    }
}

/// The assertion that is made for a block stays the assertion at its place.
pub proof fn lemma_assertion_at<C: Context>(p: ProgramView, order: Seq<usize>, k: int, i: int)
    requires
        0 <= i < k <= order.len(),
    ensures
        encode_along::<C>(p, order, k).assertions.len() == k,
        encode_along::<C>(p, order, k).assertions[i] == encode_block::<C>(
            p,
            encode_along::<C>(p, order, i),
            order[i] as int,
        ).assertions.last(),
    decreases k,
{
    lemma_assertions_len::<C>(p, order, k - 1);
    if i < k - 1 {
        lemma_assertion_at::<C>(p, order, k - 1, i);
    }
}

pub proof fn lemma_assertions_len<C: Context>(p: ProgramView, order: Seq<usize>, k: int)
    requires
        0 <= k <= order.len(),
    ensures
        encode_along::<C>(p, order, k).assertions.len() == k,
    decreases k,
{
    if k > 0 {
        lemma_assertions_len::<C>(p, order, k - 1);
    }
}

/// Where the equalities of the first `k` blocks hold and no statement is an
/// assertion, the variables of those blocks hold.
pub proof fn lemma_aliases_hold<C: Context>(p: ProgramView, v: Valuation, k: int)
    requires
        well_formed(p.graph()),
        without_assertions(p),
        0 <= k <= p.blocks.len(),
        forall|i: int| 0 <= i < k ==> satisfied(#[trigger] encoded::<C>(p).assertions[i], v),
    ensures
        forall|i: int|
            0 <= i < k ==> holds(alias::<C>(#[trigger] reverse_walk_order(p.graph())[i] as int), v),
    decreases k,
{
    let g = p.graph();
    let order = reverse_walk_order(g);
    lemma_reverse_walk_order(g);
    if k > 0 {
        lemma_aliases_hold::<C>(p, v, k - 1);
        let b = order[k - 1] as int;
        let n = order.len() as int;
        lemma_assertion_at::<C>(p, order, n, k - 1);
        let before_block = encode_along::<C>(p, order, k - 1);
        let block = p.blocks[b];
        let first = WpState {
            wp: Term::conjoin(aliases::<C>(block.successors)),
            labels: before_block.labels,
        };
        let assertion = encoded::<C>(p).assertions[k - 1];
        let successors = aliases::<C>(block.successors);
        assert forall|i: int| 0 <= i < successors.len() implies holds(
            #[trigger] successors[i],
            v,
        ) by {
            let s = block.successors[i] as int;
            assert(g[b][i] == s);
            assert(has_edge(g, order[k - 1] as int, s));
        }
        lemma_conjoin_holds(successors, v);
        assert forall|j: int| 0 <= j < block.statements.len() implies !(
        #[trigger] block.statements[j] is Assert) by {}
        lemma_assumptions_keep::<C>(first, block.statements, block.statements.len() as int, v);
    }
}

/// The verification condition of a program without assertions cannot be
/// satisfied: where the equalities of its blocks hold, the variable of the
/// entry holds, and the last assertion denies it.
pub proof fn lemma_without_assertions_unsatisfiable<C: Context>(p: ProgramView, v: Valuation)
    requires
        well_formed(p.graph()),
        without_assertions(p),
        forall|i: int|
            0 <= i < p.blocks.len() ==> satisfied(#[trigger] encoded::<C>(p).assertions[i], v),
    ensures
        !satisfied(encoded::<C>(p).assertions.last(), v),
{
    let g = p.graph();
    let order = reverse_walk_order(g);
    lemma_reverse_walk_order(g);
    lemma_aliases_hold::<C>(p, v, p.blocks.len() as int);
}

/// Whether every run of `statements` from the `j`th on is safe under `v`,
/// where `after` says whether what follows them is: an assertion has to
/// hold, and an assumption that does not hold ends the run.
pub open spec fn run_safe<C: Context>(
    statements: Seq<StatementView>,
    j: int,
    after: bool,
    v: Valuation,
) -> bool
    decreases statements.len() - j,
{
    if j < 0 || j >= statements.len() {
        after
    } else {
        match statements[j] {
            StatementView::Assert { assertion, .. } => holds(
                assertion.rename(converting::<C>()),
                v,
            ) && run_safe::<C>(statements, j + 1, after, v),
            StatementView::Assume { assertion, .. } => holds(
                assertion.rename(converting::<C>()),
                v,
            ) ==> run_safe::<C>(statements, j + 1, after, v),
            _ => run_safe::<C>(statements, j + 1, after, v),
        }
    }
}

/// Whether every run of `p` from the block `b` on is safe under `v`: the
/// statements of the block are, and after them every successor is. A run
/// passes at most `fuel` blocks.
pub open spec fn safe_from<C: Context>(p: ProgramView, b: int, fuel: nat, v: Valuation) -> bool
    decreases fuel,
{
    if fuel == 0 {
        true
    } else {
        run_safe::<C>(
            p.blocks[b].statements,
            0,
            forall|i: int|
                0 <= i < p.blocks[b].successors.len() ==> safe_from::<C>(
                    p,
                    #[trigger] p.blocks[b].successors[i] as int,
                    (fuel - 1) as nat,
                    v,
                ),
            v,
        )
    }
}

/// Every equality of the condition of `p` holds under `v`.
pub open spec fn equalities_hold<C: Context>(p: ProgramView, v: Valuation) -> bool {
    forall|i: int| 0 <= i < p.blocks.len() ==> satisfied(#[trigger] encoded::<C>(p).assertions[i], v)
}

pub proof fn lemma_conjoin_means_all(terms: Seq<Term>, v: Valuation)
    ensures
        holds(Term::conjoin(terms), v) <==> forall|i: int|
            0 <= i < terms.len() ==> holds(#[trigger] terms[i], v),
    decreases terms.len(),
{
    if terms.len() > 1 {
        lemma_conjoin_means_all(terms.drop_last(), v);
        if holds(Term::conjoin(terms), v) {
            assert forall|i: int| 0 <= i < terms.len() implies holds(#[trigger] terms[i], v) by {
                if i < terms.len() - 1 {
                    assert(holds(terms.drop_last()[i], v));
                }
            }
        }
        if forall|i: int| 0 <= i < terms.len() ==> holds(#[trigger] terms[i], v) {
            assert forall|i: int| 0 <= i < terms.drop_last().len() implies holds(
                #[trigger] terms.drop_last()[i],
                v,
            ) by {
                assert(holds(terms[i], v));
            }
            assert(holds(terms[terms.len() - 1], v));
        }
    } else if terms.len() == 1 {
        if holds(Term::conjoin(terms), v) {
            assert forall|i: int| 0 <= i < terms.len() implies holds(#[trigger] terms[i], v) by {
                assert(terms[i] == terms[0]);
            }
        } else {
            assert(!holds(terms[0], v));
        }
    }
}

/// The weakest precondition of statements holds exactly if every run of
/// them is safe.
pub proof fn lemma_wp_means_safe<C: Context>(
    s: WpState,
    statements: Seq<StatementView>,
    k: int,
    v: Valuation,
)
    requires
        0 <= k <= statements.len(),
    ensures
        holds(wp_statements::<C>(s, statements, k).wp, v) == run_safe::<C>(
            statements,
            statements.len() - k,
            holds(s.wp, v),
            v,
        ),
    decreases k,
{
    if k > 0 {
        lemma_wp_means_safe::<C>(s, statements, k - 1, v);
        let rest = wp_statements::<C>(s, statements, k - 1);
        let statement = statements[statements.len() - k];
        let now = wp_statement::<C>(rest, statement);
        match statement {
            StatementView::Assert { assertion, label } => {
                let read = assertion.rename(converting::<C>());
                match label {
                    Some(name) => {
                        let marked = Term::labelled(C::smt_label_name(name), Polarity::Negative, read);
                        assert(holds(marked, v) == holds(read, v));
                        assert(now.wp == Term::and(marked, rest.wp));
                    },
                    None => {
                        assert(now.wp == Term::and(read, rest.wp));
                    },
                }
            },
            StatementView::Assume { assertion, label } => {
                let read = assertion.rename(converting::<C>());
                match label {
                    Some(name) => {
                        let marked = Term::labelled(C::smt_label_name(name), Polarity::Positive, read);
                        assert(holds(marked, v) == holds(read, v));
                        assert(now.wp == Term::implies(marked, rest.wp));
                    },
                    None => {
                        assert(now.wp == Term::implies(read, rest.wp));
                    },
                }
            },
            _ => {},
        }
    }
}

/// Where the equalities of a condition hold, the variable of a block holds
/// exactly if every run from the block is safe.
pub proof fn lemma_alias_means_safe<C: Context>(p: ProgramView, v: Valuation, k: int, fuel: nat)
    requires
        well_formed(p.graph()),
        equalities_hold::<C>(p, v),
        0 <= k < p.blocks.len(),
        fuel > k,
    ensures
        holds(alias::<C>(reverse_walk_order(p.graph())[k] as int), v) == safe_from::<C>(
            p,
            reverse_walk_order(p.graph())[k] as int,
            fuel,
            v,
        ),
    decreases k,
{
    let g = p.graph();
    let order = reverse_walk_order(g);
    lemma_reverse_walk_order(g);
    let b = order[k] as int;
    let n = order.len() as int;
    lemma_assertion_at::<C>(p, order, n, k);
    let block = p.blocks[b];
    let first = WpState {
        wp: Term::conjoin(aliases::<C>(block.successors)),
        labels: encode_along::<C>(p, order, k).labels,
    };
    let last = wp_statements::<C>(first, block.statements, block.statements.len() as int);
    let assertion = encoded::<C>(p).assertions[k];
    assert(assertion == Term::equals(alias::<C>(b), last.wp));
    assert(satisfied(assertion, v));
    let successors = aliases::<C>(block.successors);
    let after = forall|i: int|
        0 <= i < block.successors.len() ==> safe_from::<C>(
            p,
            #[trigger] block.successors[i] as int,
            (fuel - 1) as nat,
            v,
        );
    lemma_conjoin_means_all(successors, v);
    assert forall|i: int| 0 <= i < block.successors.len() implies holds(
        #[trigger] successors[i],
        v,
    ) == safe_from::<C>(p, block.successors[i] as int, (fuel - 1) as nat, v) by {
        let s = block.successors[i] as int;
        assert(g[b][i] == s);
        assert(has_edge(g, order[k] as int, s));
        assert(before(order, k, s));
        let j = choose|j: int| 0 <= j < k && #[trigger] order[j] == s;
        lemma_alias_means_safe::<C>(p, v, j, (fuel - 1) as nat);
    }
    assert(holds(first.wp, v) == after) by {
        if after {
            assert forall|i: int| 0 <= i < successors.len() implies holds(
                #[trigger] successors[i],
                v,
            ) by {
                assert(safe_from::<C>(p, block.successors[i] as int, (fuel - 1) as nat, v));
            }
        }
        if holds(first.wp, v) {
            assert forall|i: int| 0 <= i < block.successors.len() implies safe_from::<C>(
                p,
                #[trigger] block.successors[i] as int,
                (fuel - 1) as nat,
                v,
            ) by {
                assert(holds(successors[i], v));
            }
        }
    }
    lemma_wp_means_safe::<C>(first, block.statements, block.statements.len() as int, v);
}

/// The condition of a program says what it is to say: where its equalities
/// hold, its last assertion holds exactly if some run of the program from
/// the entry fails.
pub proof fn lemma_condition_means_failure<C: Context>(p: ProgramView, v: Valuation)
    requires
        well_formed(p.graph()),
        equalities_hold::<C>(p, v),
    ensures
        satisfied(encoded::<C>(p).assertions.last(), v) == !safe_from::<C>(
            p,
            0,
            p.blocks.len(),
            v,
        ),
{
    let g = p.graph();
    let order = reverse_walk_order(g);
    lemma_reverse_walk_order(g);
    lemma_assertions_len::<C>(p, order, order.len() as int);
    lemma_alias_means_safe::<C>(p, v, order.len() - 1, p.blocks.len());
}

} // verus!
