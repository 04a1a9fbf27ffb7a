//! The expressions of the low tier, over versioned variables.
use crate::common::expression::{BinaryKind, BoundView, ConstantView, QuantKind, Term, UnaryKind};
use crate::low::context::{FunctionSymbol, VariableSymbol};
use crate::low::sort::Sort;
use vstd::prelude::*;
use vstd::std_specs::convert::FromSpecImpl;

verus! {

/// A use of a variable.
#[derive(Debug, Clone, PartialEq, Eq)]
pub struct Variable {
    pub name: VariableSymbol,
}

/// A literal.
#[derive(Debug, Clone, Copy, PartialEq, Eq)]
pub enum Constant {
    Bool(bool),
    Int(i64),
}

#[derive(Debug, Clone, Copy, PartialEq, Eq)]
pub enum UnaryOperationKind {
    Not,
    Minus,
}

#[derive(Debug, Clone, PartialEq, Eq)]
pub struct UnaryOperation {
    pub kind: UnaryOperationKind,
    pub arg: Box<Expression>,
}

#[derive(Debug, Clone, Copy, PartialEq, Eq)]
pub enum BinaryOperationKind {
    EqCmp,
    NeCmp,
    GtCmp,
    GeCmp,
    LtCmp,
    LeCmp,
    Add,
    Sub,
    Mul,
    Div,
    Mod,
    And,
    Or,
    Implies,
}

#[derive(Debug, Clone, PartialEq, Eq)]
pub struct BinaryOperation {
    pub kind: BinaryOperationKind,
    pub left: Box<Expression>,
    pub right: Box<Expression>,
}

/// `if guard { then_expr } else { else_expr }` as an expression.
#[derive(Debug, Clone, PartialEq, Eq)]
pub struct Conditional {
    pub guard: Box<Expression>,
    pub then_expr: Box<Expression>,
    pub else_expr: Box<Expression>,
}

#[derive(Debug, Clone, Copy, PartialEq, Eq)]
pub enum QuantifierKind {
    ForAll,
    Exists,
}

/// A variable that a quantifier binds.
#[derive(Debug, Clone, PartialEq, Eq)]
pub struct BoundedVariableDecl {
    pub name: VariableSymbol,
    pub sort: Sort,
}

/// The terms that together trigger an instantiation of a quantifier.
#[derive(Debug, Clone, PartialEq, Eq)]
pub struct Trigger {
    pub parts: Vec<Expression>,
}

#[derive(Debug, Clone, PartialEq, Eq)]
pub struct Quantifier {
    pub kind: QuantifierKind,
    pub variables: Vec<BoundedVariableDecl>,
    pub triggers: Vec<Trigger>,
    pub body: Box<Expression>,
}

#[derive(Debug, Clone, PartialEq, Eq)]
pub struct FunctionApplication {
    pub function: FunctionSymbol,
    pub args: Vec<Expression>,
}

/// An expression of the low tier.
#[derive(Debug, PartialEq, Eq)]
pub enum Expression {
    Variable(Variable),
    Constant(Constant),
    UnaryOperation(UnaryOperation),
    BinaryOperation(BinaryOperation),
    Conditional(Conditional),
    Quantifier(Quantifier),
    FunctionApplication(FunctionApplication),
}

impl View for Constant {
    type V = ConstantView;

    open spec fn view(&self) -> ConstantView {
        match self {
            Constant::Bool(value) => ConstantView::Bool(*value),
            Constant::Int(value) => ConstantView::Int(*value as int),
        }
    }
}

impl View for UnaryOperationKind {
    type V = UnaryKind;

    open spec fn view(&self) -> UnaryKind {
        match self {
            UnaryOperationKind::Not => UnaryKind::Not,
            UnaryOperationKind::Minus => UnaryKind::Minus,
        }
    }
}

impl View for BinaryOperationKind {
    type V = BinaryKind;

    open spec fn view(&self) -> BinaryKind {
        match self {
            BinaryOperationKind::EqCmp => BinaryKind::EqCmp,
            BinaryOperationKind::NeCmp => BinaryKind::NeCmp,
            BinaryOperationKind::GtCmp => BinaryKind::GtCmp,
            BinaryOperationKind::GeCmp => BinaryKind::GeCmp,
            BinaryOperationKind::LtCmp => BinaryKind::LtCmp,
            BinaryOperationKind::LeCmp => BinaryKind::LeCmp,
            BinaryOperationKind::Add => BinaryKind::Add,
            BinaryOperationKind::Sub => BinaryKind::Sub,
            BinaryOperationKind::Mul => BinaryKind::Mul,
            BinaryOperationKind::Div => BinaryKind::Div,
            BinaryOperationKind::Mod => BinaryKind::Mod,
            BinaryOperationKind::And => BinaryKind::And,
            BinaryOperationKind::Or => BinaryKind::Or,
            BinaryOperationKind::Implies => BinaryKind::Implies,
        }
    }
}

impl View for QuantifierKind {
    type V = QuantKind;

    open spec fn view(&self) -> QuantKind {
        match self {
            QuantifierKind::ForAll => QuantKind::ForAll,
            QuantifierKind::Exists => QuantKind::Exists,
        }
    }
}

impl View for BoundedVariableDecl {
    type V = BoundView;

    open spec fn view(&self) -> BoundView {
        BoundView { name: self.name@, sort: self.sort@ }
    }
}

/// The models of the expressions of `exprs`, in order.
pub open spec fn terms_of(exprs: Seq<Expression>) -> Seq<Term> {
    Seq::new(exprs.len(), |i: int| exprs[i]@)
}

/// The models of the bound variables of `decls`, in order.
pub open spec fn bounds_of(decls: Seq<BoundedVariableDecl>) -> Seq<BoundView> {
    Seq::new(decls.len(), |i: int| decls[i]@)
}

/// The models of the triggers of `triggers`, in order.
pub open spec fn triggers_of(triggers: Seq<Trigger>) -> Seq<Seq<Term>> {
    Seq::new(triggers.len(), |i: int| terms_of(triggers[i].parts@))
}

impl Expression {
    /// The tree of the expression over the characters of its names.
    pub open spec fn view(&self) -> Term
        decreases self,
    {
        match self {
            Expression::Variable(e) => Term::Variable(e.name@),
            Expression::Constant(e) => Term::Constant(e@),
            Expression::UnaryOperation(e) => Term::Unary(e.kind@, Box::new(e.arg.view())),
            Expression::BinaryOperation(e) => Term::Binary(
                e.kind@,
                Box::new(e.left.view()),
                Box::new(e.right.view()),
            ),
            Expression::Conditional(e) => Term::Conditional(
                Box::new(e.guard.view()),
                Box::new(e.then_expr.view()),
                Box::new(e.else_expr.view()),
            ),
            Expression::Quantifier(e) => Term::Quantifier(
                e.kind@,
                bounds_of(e.variables@),
                Seq::new(
                    e.triggers@.len(),
                    |i: int|
                        if 0 <= i < e.triggers@.len() {
                            Seq::new(
                                e.triggers@[i].parts@.len(),
                                |j: int|
                                    if 0 <= j < e.triggers@[i].parts@.len() {
                                        e.triggers@[i].parts@[j].view()
                                    } else {
                                        Term::truth()
                                    },
                            )
                        } else {
                            Seq::empty()
                        },
                ),
                Box::new(e.body.view()),
            ),
            Expression::FunctionApplication(e) => Term::Application(
                e.function@,
                Seq::new(
                    e.args@.len(),
                    |i: int|
                        if 0 <= i < e.args@.len() {
                            e.args@[i].view()
                        } else {
                            Term::truth()
                        },
                ),
            ),
        }
    }

    /// The arguments of an application are modelled one by one.
    pub proof fn lemma_view_application(e: FunctionApplication)
        ensures
            Expression::FunctionApplication(e)@ == Term::Application(
                e.function@,
                terms_of(e.args@),
            ),
    {
        assert(Expression::FunctionApplication(e)@->Application_1 =~= terms_of(e.args@));
    }

    /// The bound variables and the triggers of a quantifier are modelled one
    /// by one.
    pub proof fn lemma_view_quantifier(e: Quantifier)
        ensures
            Expression::Quantifier(e)@ == Term::Quantifier(
                e.kind@,
                bounds_of(e.variables@),
                triggers_of(e.triggers@),
                Box::new(e.body@),
            ),
    {
        let t = Expression::Quantifier(e)@->Quantifier_2;
        assert forall|i: int| 0 <= i < e.triggers@.len() implies t[i] =~= #[trigger] triggers_of(
            e.triggers@,
        )[i] by {}
        assert(t =~= triggers_of(e.triggers@));
    }

    /// A use of the variable `name`.
    pub fn variable(name: VariableSymbol) -> (r: Expression)
        ensures
            r@ == Term::Variable(name@),
    {
        Expression::Variable(Variable { name })
    }

    /// The literal `value`.
    pub fn constant(value: Constant) -> (r: Expression)
        ensures
            r@ == Term::Constant(value@),
    {
        Expression::Constant(value)
    }

    /// The operator `kind` applied to `arg`.
    pub fn unary(kind: UnaryOperationKind, arg: Expression) -> (r: Expression)
        ensures
            r@ == Term::Unary(kind@, Box::new(arg@)),
    {
        Expression::UnaryOperation(UnaryOperation { kind, arg: Box::new(arg) })
    }

    /// `!arg`.
    pub fn not(arg: Expression) -> (r: Expression)
        ensures
            r@ == Term::not(arg@),
    {
        Expression::unary(UnaryOperationKind::Not, arg)
    }

    /// `-arg`.
    pub fn minus(arg: Expression) -> (r: Expression)
        ensures
            r@ == Term::Unary(UnaryKind::Minus, Box::new(arg@)),
    {
        Expression::unary(UnaryOperationKind::Minus, arg)
    }

    /// The operator `kind` applied to `left` and `right`.
    pub fn binary(kind: BinaryOperationKind, left: Expression, right: Expression) -> (r:
        Expression)
        ensures
            r@ == Term::binary(kind@, left@, right@),
    {
        Expression::BinaryOperation(
            BinaryOperation { kind, left: Box::new(left), right: Box::new(right) },
        )
    }

    /// `left == right`.
    pub fn equals(left: Expression, right: Expression) -> (r: Expression)
        ensures
            r@ == Term::binary(BinaryKind::EqCmp, left@, right@),
    {
        Expression::binary(BinaryOperationKind::EqCmp, left, right)
    }

    /// `left != right`.
    pub fn not_equals(left: Expression, right: Expression) -> (r: Expression)
        ensures
            r@ == Term::binary(BinaryKind::NeCmp, left@, right@),
    {
        Expression::binary(BinaryOperationKind::NeCmp, left, right)
    }

    /// `left > right`.
    pub fn greater_than(left: Expression, right: Expression) -> (r: Expression)
        ensures
            r@ == Term::binary(BinaryKind::GtCmp, left@, right@),
    {
        Expression::binary(BinaryOperationKind::GtCmp, left, right)
    }

    /// `left >= right`.
    pub fn greater_equals(left: Expression, right: Expression) -> (r: Expression)
        ensures
            r@ == Term::binary(BinaryKind::GeCmp, left@, right@),
    {
        Expression::binary(BinaryOperationKind::GeCmp, left, right)
    }

    /// `left < right`.
    pub fn less_than(left: Expression, right: Expression) -> (r: Expression)
        ensures
            r@ == Term::binary(BinaryKind::LtCmp, left@, right@),
    {
        Expression::binary(BinaryOperationKind::LtCmp, left, right)
    }

    /// `left <= right`.
    pub fn less_equals(left: Expression, right: Expression) -> (r: Expression)
        ensures
            r@ == Term::binary(BinaryKind::LeCmp, left@, right@),
    {
        Expression::binary(BinaryOperationKind::LeCmp, left, right)
    }

    /// `left + right`.
    pub fn add(left: Expression, right: Expression) -> (r: Expression)
        ensures
            r@ == Term::binary(BinaryKind::Add, left@, right@),
    {
        Expression::binary(BinaryOperationKind::Add, left, right)
    }

    /// `left - right`.
    pub fn subtract(left: Expression, right: Expression) -> (r: Expression)
        ensures
            r@ == Term::binary(BinaryKind::Sub, left@, right@),
    {
        Expression::binary(BinaryOperationKind::Sub, left, right)
    }

    /// `left * right`.
    pub fn multiply(left: Expression, right: Expression) -> (r: Expression)
        ensures
            r@ == Term::binary(BinaryKind::Mul, left@, right@),
    {
        Expression::binary(BinaryOperationKind::Mul, left, right)
    }

    /// `left / right`.
    pub fn divide(left: Expression, right: Expression) -> (r: Expression)
        ensures
            r@ == Term::binary(BinaryKind::Div, left@, right@),
    {
        Expression::binary(BinaryOperationKind::Div, left, right)
    }

    /// `left % right`.
    pub fn module(left: Expression, right: Expression) -> (r: Expression)
        ensures
            r@ == Term::binary(BinaryKind::Mod, left@, right@),
    {
        Expression::binary(BinaryOperationKind::Mod, left, right)
    }

    /// `left && right`.
    pub fn and(left: Expression, right: Expression) -> (r: Expression)
        ensures
            r@ == Term::binary(BinaryKind::And, left@, right@),
    {
        Expression::binary(BinaryOperationKind::And, left, right)
    }

    /// `left || right`.
    pub fn or(left: Expression, right: Expression) -> (r: Expression)
        ensures
            r@ == Term::binary(BinaryKind::Or, left@, right@),
    {
        Expression::binary(BinaryOperationKind::Or, left, right)
    }

    /// `left ==> right`.
    pub fn implies(left: Expression, right: Expression) -> (r: Expression)
        ensures
            r@ == Term::binary(BinaryKind::Implies, left@, right@),
    {
        Expression::binary(BinaryOperationKind::Implies, left, right)
    }

    /// `if guard { then_expr } else { else_expr }`.
    pub fn conditional(guard: Expression, then_expr: Expression, else_expr: Expression) -> (r:
        Expression)
        ensures
            r@ == Term::Conditional(Box::new(guard@), Box::new(then_expr@), Box::new(else_expr@)),
    {
        Expression::Conditional(
            Conditional {
                guard: Box::new(guard),
                then_expr: Box::new(then_expr),
                else_expr: Box::new(else_expr),
            },
        )
    }

    /// The quantifier of `kind` over `variables` with `triggers` and `body`.
    pub fn quantifier(
        kind: QuantifierKind,
        variables: Vec<BoundedVariableDecl>,
        triggers: Vec<Trigger>,
        body: Expression,
    ) -> (r: Expression)
        ensures
            r@ == Term::Quantifier(
                kind@,
                bounds_of(variables@),
                triggers_of(triggers@),
                Box::new(body@),
            ),
    {
        let q = Quantifier { kind, variables, triggers, body: Box::new(body) };
        proof {
            Expression::lemma_view_quantifier(q);
        }
        Expression::Quantifier(q)
    }

    /// `forall variables :: {triggers} body`.
    pub fn for_all(variables: Vec<BoundedVariableDecl>, triggers: Vec<Trigger>, body: Expression) -> (r:
        Expression)
        ensures
            r@ == Term::Quantifier(
                QuantKind::ForAll,
                bounds_of(variables@),
                triggers_of(triggers@),
                Box::new(body@),
            ),
    {
        Expression::quantifier(QuantifierKind::ForAll, variables, triggers, body)
    }

    /// `exists variables :: {triggers} body`.
    pub fn there_exists(variables: Vec<BoundedVariableDecl>, triggers: Vec<Trigger>, body: Expression) -> (r:
        Expression)
        ensures
            r@ == Term::Quantifier(
                QuantKind::Exists,
                bounds_of(variables@),
                triggers_of(triggers@),
                Box::new(body@),
            ),
    {
        Expression::quantifier(QuantifierKind::Exists, variables, triggers, body)
    }

    /// The application of `function` to `args`.
    pub fn call(function: FunctionSymbol, args: Vec<Expression>) -> (r: Expression)
        ensures
            r@ == Term::Application(function@, terms_of(args@)),
    {
        let e = FunctionApplication { function, args };
        proof {
            Expression::lemma_view_application(e);
        }
        Expression::FunctionApplication(e)
    }

    /// A copy of the expression.
    pub fn duplicate(&self) -> (r: Expression)
        ensures
            r@ == self@,
        decreases self,
    {
        match self {
            Expression::Variable(e) => Expression::variable(e.name.clone()),
            Expression::Constant(e) => Expression::Constant(*e),
            Expression::UnaryOperation(e) => Expression::unary(e.kind, e.arg.duplicate()),
            Expression::BinaryOperation(e) => Expression::binary(
                e.kind,
                e.left.duplicate(),
                e.right.duplicate(),
            ),
            Expression::Conditional(e) => Expression::conditional(
                e.guard.duplicate(),
                e.then_expr.duplicate(),
                e.else_expr.duplicate(),
            ),
            Expression::Quantifier(e) => {
                proof {
                    Expression::lemma_view_quantifier(*e);
                }
                let mut variables: Vec<BoundedVariableDecl> = Vec::new();
                let mut i: usize = 0;
                while i < e.variables.len()
                    invariant
                        i <= e.variables.len(),
                        variables@.len() == i,
                        forall|k: int| 0 <= k < i ==> (#[trigger] variables@[k])@ == e.variables@[k]@,
                    decreases e.variables.len() - i,
                {
                    let decl = &e.variables[i];
                    variables.push(
                        BoundedVariableDecl { name: decl.name.clone(), sort: decl.sort.duplicate() },
                    );
                    i += 1;
                }
                let mut triggers: Vec<Trigger> = Vec::new();
                let mut j: usize = 0;
                while j < e.triggers.len()
                    invariant
                        j <= e.triggers.len(),
                        triggers@.len() == j,
                        self matches Expression::Quantifier(q) && q == e,
                        forall|k: int|
                            0 <= k < j ==> terms_of((#[trigger] triggers@[k]).parts@) == terms_of(
                                e.triggers@[k].parts@,
                            ),
                    decreases e.triggers.len() - j,
                {
                    proof {
                        assert(decreases_to!(e.triggers => e.triggers[j as int]));
                    }
                    let parts = duplicate_all(&e.triggers[j].parts);
                    triggers.push(Trigger { parts });
                    j += 1;
                }
                proof {
                    assert(bounds_of(variables@) =~= bounds_of(e.variables@));
                    assert(triggers_of(triggers@) =~= triggers_of(e.triggers@));
                }
                Expression::quantifier(e.kind, variables, triggers, e.body.duplicate())
            },
            Expression::FunctionApplication(e) => {
                proof {
                    Expression::lemma_view_application(*e);
                }
                Expression::call(e.function.clone(), duplicate_all(&e.args))
            },
        }
    }

    /// Whether the expression is the literal `true`.
    pub fn is_true(&self) -> (r: bool)
        ensures
            r == (self@ == Term::truth()),
    {
        match self {
            Expression::Constant(Constant::Bool(value)) => *value,
            _ => false,
        }
    }

    /// Whether the expression is the literal `false`.
    pub fn is_false(&self) -> (r: bool)
        ensures
            r == (self@ == Term::Constant(ConstantView::Bool(false))),
    {
        match self {
            Expression::Constant(Constant::Bool(value)) => !*value,
            _ => false,
        }
    }
}

impl Clone for Expression {
    fn clone(&self) -> (r: Self)
        ensures
            r@ == self@,
    {
        self.duplicate()
    }
}

/// A copy of each expression of `exprs`, in order.
pub fn duplicate_all(exprs: &Vec<Expression>) -> (r: Vec<Expression>)
    ensures
        terms_of(r@) == terms_of(exprs@),
    decreases exprs,
{
    let mut out: Vec<Expression> = Vec::new();
    let mut i: usize = 0;
    while i < exprs.len()
        invariant
            i <= exprs.len(),
            out@.len() == i,
            forall|k: int| 0 <= k < i ==> (#[trigger] out@[k])@ == exprs@[k]@,
        decreases exprs.len() - i,
    {
        out.push(exprs[i].duplicate());
        i += 1;
    }
    proof {
        assert(terms_of(out@) =~= terms_of(exprs@));
    }
    out
}

impl From<bool> for Expression {
    fn from(value: bool) -> (r: Self) {
        Expression::Constant(Constant::Bool(value))
    }
}

impl FromSpecImpl<bool> for Expression {
    open spec fn obeys_from_spec() -> bool {
        true
    }

    open spec fn from_spec(value: bool) -> Self {
        Expression::Constant(Constant::Bool(value))
    }
}

impl From<i64> for Expression {
    fn from(value: i64) -> (r: Self) {
        Expression::Constant(Constant::Int(value))
    }
}

impl FromSpecImpl<i64> for Expression {
    open spec fn obeys_from_spec() -> bool {
        true
    }

    open spec fn from_spec(value: i64) -> Self {
        Expression::Constant(Constant::Int(value))
    }
}

} // verus!
