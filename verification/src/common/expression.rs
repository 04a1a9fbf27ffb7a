//! The mathematical model of expressions, shared by the three tiers.
//!
//! Every tier has its own executable expression type whose names are nominal
//! symbols of that tier. Contracts speak of a [`Term`]: the tree of an
//! expression with every symbol replaced by the characters of its name.

use vstd::prelude::*;

verus! {

/// The characters of a symbol's name.
pub type Name = Seq<char>;

/// The model of a sort.
pub enum SortView {
    Bool,
    Int,
    Real,
    Uninterpreted(Name),
}

/// The model of a constant.
pub enum ConstantView {
    Bool(bool),
    Int(int),
}

/// The model of a unary operator.
pub enum UnaryKind {
    Not,
    Minus,
}

/// The model of a binary operator.
pub enum BinaryKind {
    EqCmp,
    NeCmp,
    GtCmp,
    GeCmp,
    LtCmp,
    LeCmp,
    Add,
    Sub,
    Mul,
    Div,
    Mod,
    And,
    Or,
    Implies,
}

/// The model of a quantifier's kind.
pub enum QuantKind {
    ForAll,
    Exists,
}

/// The model of a label's positivity.
pub enum Polarity {
    Positive,
    Negative,
}

/// The model of a variable bound by a quantifier.
pub struct BoundView {
    pub name: Name,
    pub sort: SortView,
}

/// The model of an expression of any tier. Only the last tier produces
/// `Labelled` nodes.
pub enum Term {
    Variable(Name),
    Constant(ConstantView),
    Unary(UnaryKind, Box<Term>),
    Binary(BinaryKind, Box<Term>, Box<Term>),
    Conditional(Box<Term>, Box<Term>, Box<Term>),
    Quantifier(QuantKind, Seq<BoundView>, Seq<Seq<Term>>, Box<Term>),
    Application(Name, Seq<Term>),
    Labelled(Name, Polarity, Box<Term>),
}

/// How the symbols of one tier are named in the next one.
pub struct Renaming {
    pub variable: spec_fn(Name) -> Name,
    pub function: spec_fn(Name) -> Name,
    pub sort: spec_fn(Name) -> Name,
}

impl SortView {
    /// The sort with its symbol renamed.
    pub open spec fn rename(self, r: Renaming) -> SortView {
        match self {
            SortView::Uninterpreted(name) => SortView::Uninterpreted((r.sort)(name)),
            other => other,
        }
    }
}

impl BoundView {
    /// The bound variable with its symbols renamed.
    pub open spec fn rename(self, r: Renaming) -> BoundView {
        BoundView { name: (r.variable)(self.name), sort: self.sort.rename(r) }
    }
}

impl Term {
    pub open spec fn truth() -> Term {
        Term::Constant(ConstantView::Bool(true))
    }

    pub open spec fn variable(name: Name) -> Term {
        Term::Variable(name)
    }

    pub open spec fn not(arg: Term) -> Term {
        Term::Unary(UnaryKind::Not, Box::new(arg))
    }

    pub open spec fn binary(kind: BinaryKind, left: Term, right: Term) -> Term {
        Term::Binary(kind, Box::new(left), Box::new(right))
    }

    pub open spec fn equals(left: Term, right: Term) -> Term {
        Term::binary(BinaryKind::EqCmp, left, right)
    }

    pub open spec fn and(left: Term, right: Term) -> Term {
        Term::binary(BinaryKind::And, left, right)
    }

    pub open spec fn implies(left: Term, right: Term) -> Term {
        Term::binary(BinaryKind::Implies, left, right)
    }

    pub open spec fn labelled(label: Name, polarity: Polarity, inner: Term) -> Term {
        Term::Labelled(label, polarity, Box::new(inner))
    }

    /// The conjunction of `terms`, associated to the left; `true` when there
    /// are none.
    pub open spec fn conjoin(terms: Seq<Term>) -> Term
        decreases terms.len(),
    {
        if terms.len() == 0 {
            Term::truth()
        } else if terms.len() == 1 {
            terms[0]
        } else {
            Term::and(Term::conjoin(terms.drop_last()), terms.last())
        }
    }

    /// The tree with every symbol renamed by `r`: variables, bound ones
    /// included, function symbols and the symbols of uninterpreted sorts.
    /// Labels keep their names.
    pub open spec fn rename(self, r: Renaming) -> Term
        decreases self,
    {
        match self {
            Term::Variable(name) => Term::Variable((r.variable)(name)),
            Term::Constant(c) => Term::Constant(c),
            Term::Unary(kind, arg) => Term::Unary(kind, Box::new(arg.rename(r))),
            Term::Binary(kind, left, right) => Term::Binary(
                kind,
                Box::new(left.rename(r)),
                Box::new(right.rename(r)),
            ),
            Term::Conditional(guard, then_expr, else_expr) => Term::Conditional(
                Box::new(guard.rename(r)),
                Box::new(then_expr.rename(r)),
                Box::new(else_expr.rename(r)),
            ),
            Term::Quantifier(kind, variables, triggers, body) => Term::Quantifier(
                kind,
                Seq::new(variables.len(), |i: int| variables[i].rename(r)),
                Seq::new(
                    triggers.len(),
                    |i: int|
                        if 0 <= i < triggers.len() {
                            Seq::new(
                                triggers[i].len(),
                                |j: int|
                                    if 0 <= j < triggers[i].len() {
                                        triggers[i][j].rename(r)
                                    } else {
                                        Term::truth()
                                    },
                            )
                        } else {
                            Seq::empty()
                        },
                ),
                Box::new(body.rename(r)),
            ),
            Term::Application(function, args) => Term::Application(
                (r.function)(function),
                Seq::new(
                    args.len(),
                    |i: int|
                        if 0 <= i < args.len() {
                            args[i].rename(r)
                        } else {
                            Term::truth()
                        },
                ),
            ),
            Term::Labelled(label, polarity, inner) => Term::Labelled(
                label,
                polarity,
                Box::new(inner.rename(r)),
            ),
        }
    }

    /// Whether every variable symbol of the tree, bound ones included, is in
    /// `known`.
    pub open spec fn variables_within(self, known: Set<Name>) -> bool
        decreases self,
    {
        match self {
            Term::Variable(name) => known.contains(name),
            Term::Constant(c) => true,
            Term::Unary(kind, arg) => arg.variables_within(known),
            Term::Binary(kind, left, right) => left.variables_within(known)
                && right.variables_within(known),
            Term::Conditional(guard, then_expr, else_expr) => guard.variables_within(known)
                && then_expr.variables_within(known) && else_expr.variables_within(known),
            Term::Quantifier(kind, variables, triggers, body) => {
                &&& forall|i: int| 0 <= i < variables.len() ==> known.contains(variables[i].name)
                &&& forall|i: int, j: int|
                    0 <= i < triggers.len() && 0 <= j < triggers[i].len()
                        ==> triggers[i][j].variables_within(known)
                &&& body.variables_within(known)
            },
            Term::Application(function, args) => forall|i: int|
                0 <= i < args.len() ==> args[i].variables_within(known),
            Term::Labelled(label, polarity, inner) => inner.variables_within(known),
        }
    }
}

/// `first` where it is something, and else `second`.
pub open spec fn or_else(first: Option<Name>, second: Option<Name>) -> Option<Name> {
    match first {
        Some(name) => Some(name),
        None => second,
    }
}

/// The first of the first `k` bound variables whose name is not in `known`.
pub open spec fn first_bound_outside(bounds: Seq<BoundView>, known: Set<Name>, k: int) -> Option<
    Name,
>
    decreases k,
{
    if k <= 0 {
        None
    } else {
        or_else(
            first_bound_outside(bounds, known, k - 1),
            if known.contains(bounds[k - 1].name) {
                None
            } else {
                Some(bounds[k - 1].name)
            },
        )
    }
}

impl Term {
    /// The first variable symbol of the tree that is not in `known`, in the
    /// order in which the tree is read: an operator before its operands, the
    /// operands from left to right, and of a quantifier the bound variables,
    /// the triggers and the body.
    pub open spec fn first_outside(self, known: Set<Name>) -> Option<Name>
        decreases self, 0int,
    {
        match self {
            Term::Variable(name) => if known.contains(name) {
                None
            } else {
                Some(name)
            },
            Term::Constant(c) => None,
            Term::Unary(kind, arg) => arg.first_outside(known),
            Term::Binary(kind, left, right) => or_else(
                left.first_outside(known),
                right.first_outside(known),
            ),
            Term::Conditional(guard, then_expr, else_expr) => or_else(
                guard.first_outside(known),
                or_else(then_expr.first_outside(known), else_expr.first_outside(known)),
            ),
            Term::Quantifier(kind, variables, triggers, body) => or_else(
                first_bound_outside(variables, known, variables.len() as int),
                or_else(
                    first_outside_of_triggers(triggers, known, triggers.len() as int),
                    body.first_outside(known),
                ),
            ),
            Term::Application(function, args) => first_outside_of(args, known, args.len() as int),
            Term::Labelled(label, polarity, inner) => inner.first_outside(known),
        }
    }
}

/// The first variable symbol of the first `k` of `terms` that is not in
/// `known`.
pub open spec fn first_outside_of(terms: Seq<Term>, known: Set<Name>, k: int) -> Option<Name>
    decreases terms, k,
{
    if k <= 0 || k > terms.len() {
        None
    } else {
        or_else(first_outside_of(terms, known, k - 1), terms[k - 1].first_outside(known))
    }
}

/// The first variable symbol of the first `k` of `triggers` that is not in
/// `known`.
pub open spec fn first_outside_of_triggers(triggers: Seq<Seq<Term>>, known: Set<Name>, k: int) -> Option<
    Name,
>
    decreases triggers, k,
{
    if k <= 0 || k > triggers.len() {
        None
    } else {
        or_else(
            first_outside_of_triggers(triggers, known, k - 1),
            first_outside_of(triggers[k - 1], known, triggers[k - 1].len() as int),
        )
    }
}

pub proof fn lemma_first_bound_outside(bounds: Seq<BoundView>, known: Set<Name>, k: int)
    requires
        0 <= k <= bounds.len(),
    ensures
        first_bound_outside(bounds, known, k) is None <==> forall|i: int|
            0 <= i < k ==> known.contains(bounds[i].name),
        first_bound_outside(bounds, known, k) matches Some(name) ==> !known.contains(name),
    decreases k,
{
    if k > 0 {
        lemma_first_bound_outside(bounds, known, k - 1);
    }
}

/// Every variable symbol of a tree is in `known` exactly if the tree has no
/// first one that is not; and the first one that is not, is not.
pub proof fn lemma_first_outside(t: Term, known: Set<Name>)
    ensures
        t.first_outside(known) is None <==> t.variables_within(known),
        t.first_outside(known) matches Some(name) ==> !known.contains(name),
    decreases t, 0int,
{
    match t {
        Term::Variable(name) => {},
        Term::Constant(c) => {},
        Term::Unary(kind, arg) => {
            lemma_first_outside(*arg, known);
        },
        Term::Binary(kind, left, right) => {
            lemma_first_outside(*left, known);
            lemma_first_outside(*right, known);
        },
        Term::Conditional(guard, then_expr, else_expr) => {
            lemma_first_outside(*guard, known);
            lemma_first_outside(*then_expr, known);
            lemma_first_outside(*else_expr, known);
        },
        Term::Quantifier(kind, variables, triggers, body) => {
            lemma_first_bound_outside(variables, known, variables.len() as int);
            lemma_first_outside_of_triggers(triggers, known, triggers.len() as int);
            lemma_first_outside(*body, known);
        },
        Term::Application(function, args) => {
            lemma_first_outside_of(args, known, args.len() as int);
        },
        Term::Labelled(label, polarity, inner) => {
            lemma_first_outside(*inner, known);
        },
    }
}

pub proof fn lemma_first_outside_of(terms: Seq<Term>, known: Set<Name>, k: int)
    requires
        0 <= k <= terms.len(),
    ensures
        first_outside_of(terms, known, k) is None <==> forall|i: int|
            0 <= i < k ==> terms[i].variables_within(known),
        first_outside_of(terms, known, k) matches Some(name) ==> !known.contains(name),
    decreases terms, k,
{
    if k > 0 {
        lemma_first_outside_of(terms, known, k - 1);
        lemma_first_outside(terms[k - 1], known);
    }
}

pub proof fn lemma_first_outside_of_triggers(triggers: Seq<Seq<Term>>, known: Set<Name>, k: int)
    requires
        0 <= k <= triggers.len(),
    ensures
        first_outside_of_triggers(triggers, known, k) is None <==> forall|i: int, j: int|
            0 <= i < k && 0 <= j < triggers[i].len() ==> triggers[i][j].variables_within(known),
        first_outside_of_triggers(triggers, known, k) matches Some(name) ==> !known.contains(name),
    decreases triggers, k,
{
    if k > 0 {
        lemma_first_outside_of_triggers(triggers, known, k - 1);
        lemma_first_outside_of(triggers[k - 1], known, triggers[k - 1].len() as int);
    }
}

/// Once a variable symbol that is not in `known` is found, it stays the
/// first.
pub proof fn lemma_first_outside_stays(terms: Seq<Term>, known: Set<Name>, k: int, later: int)
    requires
        0 <= k <= later <= terms.len(),
        first_outside_of(terms, known, k) is Some,
    ensures
        first_outside_of(terms, known, later) == first_outside_of(terms, known, k),
    decreases later - k,
{
    if k < later {
        lemma_first_outside_stays(terms, known, k, later - 1);
    }
}

pub proof fn lemma_first_bound_outside_stays(
    bounds: Seq<BoundView>,
    known: Set<Name>,
    k: int,
    later: int,
)
    requires
        0 <= k <= later,
        first_bound_outside(bounds, known, k) is Some,
    ensures
        first_bound_outside(bounds, known, later) == first_bound_outside(bounds, known, k),
    decreases later - k,
{
    if k < later {
        lemma_first_bound_outside_stays(bounds, known, k, later - 1);
    }
}

pub proof fn lemma_first_outside_of_triggers_stays(
    triggers: Seq<Seq<Term>>,
    known: Set<Name>,
    k: int,
    later: int,
)
    requires
        0 <= k <= later <= triggers.len(),
        first_outside_of_triggers(triggers, known, k) is Some,
    ensures
        first_outside_of_triggers(triggers, known, later) == first_outside_of_triggers(
            triggers,
            known,
            k,
        ),
    decreases later - k,
{
    if k < later {
        lemma_first_outside_of_triggers_stays(triggers, known, k, later - 1);
    }
}

/// `back` undoes `forth`: it gives every symbol its old name again.
pub open spec fn inverts(back: Renaming, forth: Renaming) -> bool {
    &&& forall|x: Name| (back.variable)(#[trigger] (forth.variable)(x)) == x
    &&& forall|x: Name| (back.function)(#[trigger] (forth.function)(x)) == x
    &&& forall|x: Name| (back.sort)(#[trigger] (forth.sort)(x)) == x
}

/// The renaming that keeps every name.
pub open spec fn keeping() -> Renaming {
    Renaming { variable: |x: Name| x, function: |x: Name| x, sort: |x: Name| x }
}

/// An expression that is renamed, and then renamed back, is the expression
/// that it was: node for node, whatever its form.
pub proof fn lemma_rename_round_trip(t: Term, forth: Renaming, back: Renaming)
    requires
        inverts(back, forth),
    ensures
        t.rename(forth).rename(back) == t,
    decreases t,
{
    match t {
        Term::Variable(name) => {},
        Term::Constant(c) => {},
        Term::Unary(kind, arg) => {
            lemma_rename_round_trip(*arg, forth, back);
        },
        Term::Binary(kind, left, right) => {
            lemma_rename_round_trip(*left, forth, back);
            lemma_rename_round_trip(*right, forth, back);
        },
        Term::Conditional(guard, then_expr, else_expr) => {
            lemma_rename_round_trip(*guard, forth, back);
            lemma_rename_round_trip(*then_expr, forth, back);
            lemma_rename_round_trip(*else_expr, forth, back);
        },
        Term::Quantifier(kind, variables, triggers, body) => {
            lemma_rename_round_trip(*body, forth, back);
            let there = t.rename(forth);
            let again = there.rename(back);
            assert(again->Quantifier_1 =~= variables);
            assert forall|i: int| 0 <= i < triggers.len() implies again->Quantifier_2[i]
                == triggers[i] by {
                assert forall|j: int| 0 <= j < triggers[i].len() implies again->Quantifier_2[i][j]
                    == triggers[i][j] by {
                    lemma_rename_round_trip(triggers[i][j], forth, back);
                }
                assert(again->Quantifier_2[i] =~= triggers[i]);
            }
            assert(again->Quantifier_2 =~= triggers);
        },
        Term::Application(function, args) => {
            let again = t.rename(forth).rename(back);
            assert forall|i: int| 0 <= i < args.len() implies again->Application_1[i]
                == args[i] by {
                lemma_rename_round_trip(args[i], forth, back);
            }
            assert(again->Application_1 =~= args);
        },
        Term::Labelled(label, polarity, inner) => {
            lemma_rename_round_trip(*inner, forth, back);
        },
    }
}

/// An expression that is lowered with every name kept, and lifted back in
/// the same way, is the expression that it was.
pub proof fn lemma_round_trip_keeping(t: Term)
    ensures
        t.rename(keeping()).rename(keeping()) == t,
{
    lemma_rename_round_trip(t, keeping(), keeping());
}

} // verus!
