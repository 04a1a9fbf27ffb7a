//! The result of a verification, in the terms of the program that was
//! verified.

use crate::common::cfg::{has_edge, well_formed};
use crate::common::expression::Name;
use crate::context::Context;
use crate::errors::{SvirptiError, SvirptiErrorKind, SvirptiResult};
use crate::high;
use crate::low;
use crate::lower::smt_context::SmtContext;
use crate::smt;
use crate::smt::model::ValueView;
use crate::solvers::SatResult;
use crate::wp;
use crate::wp::labels::{
    all_known, all_labels, names_of, numbers_of, unknown_label_error, LabelOrder,
};
use crate::wp::search::{advance, labels_at, literals, valued, FailureSearch, SearchView};
use crate::wp::trace::reconstructed;
use crate::wp::verification_result::{entries_of, projected, resolved, variable_names};
use vstd::prelude::*;

verus! {

/// The values of the variables at a failure, in the order of the names of
/// the variables. A variable is named by its version.
#[derive(Debug)]
pub struct Model {
    pub variables: Vec<(low::VariableSymbol, smt::Value)>,
}

/// What is reported of one failure.
#[derive(Debug)]
pub struct VerificationError {
    /// The assertion that failed.
    pub failing_assertion: high::LabelSymbol,
    /// The basic blocks that lead to the failing assertion. It is a path to
    /// the assertion; there may be other paths that pass the same `labels`.
    pub trace: Vec<high::BasicBlockId>,
    /// The labels that the solver reported, in the order of the program: the
    /// label of the failing assertion is the last of them.
    pub labels: Vec<high::LabelSymbol>,
    /// The model that the solver reported.
    pub model: Model,
}

/// A failed verification and the search for all its failures.
pub struct VerificationFailure<'a, C: Context> {
    pub smt_context: SmtContext<'a, C>,
    pub search: FailureSearch,
    pub errors: Vec<wp::verification_result::VerificationError>,
}

/// The result of a verification.
pub enum VerificationResult<'a, C: Context> {
    Success,
    Failure(VerificationFailure<'a, C>),
}

/// The names of `labels`, in order.
pub open spec fn high_names_of(labels: Seq<high::LabelSymbol>) -> Seq<Name> {
    Seq::new(labels.len(), |i: int| labels[i]@)
}

/// The label of the failing assertion among the reported labels: the last
/// one in the order of the program.
pub open spec fn failing_label(order: Seq<Name>, labels: Seq<Name>) -> Name {
    order[numbers_of(order, labels, labels.len() as int).last() as int]
}

/// The reported labels but that of the failing assertion, in the order of
/// the program.
pub open spec fn passed_labels(order: Seq<Name>, labels: Seq<Name>) -> Seq<Name> {
    labels_at(order, numbers_of(order, labels, labels.len() as int).drop_last())
}

/// `error` is the report of the failure of which the solver reported the
/// labels `labels` and the model `items`.
pub open spec fn describes<C: Context>(
    program: low::program::ProgramView,
    variables: Seq<Name>,
    order: Seq<Name>,
    labels: Seq<Name>,
    items: Seq<smt::ModelItem>,
    error: wp::verification_result::VerificationError,
) -> bool {
    let failing = C::low_label_of(failing_label(order, labels));
    let passed = Seq::new(
        passed_labels(order, labels).len(),
        |i: int| C::low_label_of(passed_labels(order, labels)[i]),
    );
    &&& error.failing_assertion@ == failing
    &&& wp::trace::names_of(error.labels@) == passed.push(failing)
    &&& reconstructed(program, passed, failing) == Some(error.trace@)
    &&& projected::<C>(variables, items, items.len() as int) == Some(error.model@)
}

/// What is reported of a failure is settled by what the solver reported: two
/// reports of one answer name the same assertion, the same labels, the same
/// path and the same values.
pub proof fn lemma_report_determined<C: Context>(
    program: low::program::ProgramView,
    variables: Seq<Name>,
    order: Seq<Name>,
    labels: Seq<Name>,
    items: Seq<smt::ModelItem>,
    first: wp::verification_result::VerificationError,
    second: wp::verification_result::VerificationError,
)
    requires
        describes::<C>(program, variables, order, labels, items, first),
        describes::<C>(program, variables, order, labels, items, second),
    ensures
        first.failing_assertion@ == second.failing_assertion@,
        wp::trace::names_of(first.labels@) == wp::trace::names_of(second.labels@),
        first.trace@ == second.trace@,
        first.model@ == second.model@,
{
}

/// `error` says why no failure can be reported for the labels `labels` and
/// the model `items`: no label was reported; or a label that the program does
/// not have; or no path passes the labels in their order; or the model gives
/// two values to one variable.
pub open spec fn rejects<C: Context>(
    program: low::program::ProgramView,
    variables: Seq<Name>,
    order: Seq<Name>,
    labels: Seq<Name>,
    items: Seq<smt::ModelItem>,
    error: SvirptiError,
) -> bool {
    let failing = C::low_label_of(failing_label(order, labels));
    let passed = Seq::new(
        passed_labels(order, labels).len(),
        |i: int| C::low_label_of(passed_labels(order, labels)[i]),
    );
    if labels.len() == 0 {
        error.kind is NoFailingLabel
    } else if !all_known(order, labels) {
        unknown_label_error(order, error)
    } else if reconstructed(program, passed, failing) is None {
        error.kind is UntraceableFailure
    } else {
        projected::<C>(variables, items, items.len() as int) is None
            && error.kind is DuplicateModelEntry
    }
}

/// The report of the failure of which the solver reported `labels` and
/// `model`.
pub fn describe_failure<C: Context>(
    smt_context: &SmtContext<C>,
    order: &LabelOrder,
    labels: &Vec<smt::LabelSymbol>,
    model: &smt::Model,
) -> (r: SvirptiResult<wp::verification_result::VerificationError>)
    requires
        well_formed(smt_context.vir@.graph()),
    ensures
        match r {
            Ok(error) => {
                &&& labels@.len() > 0
                &&& all_known(order.names(), names_of(labels@))
                &&& describes::<C>(
                    smt_context.vir@,
                    variable_names(smt_context.vir.variables@),
                    order.names(),
                    names_of(labels@),
                    model.items@,
                    error,
                )
                &&& error.trace@.len() > 0
                &&& error.trace@[0] == 0
                &&& forall|i: int|
                    0 <= i < error.trace@.len() ==> (#[trigger] error.trace@[i])
                        < smt_context.vir.basic_blocks@.len()
                &&& wp::path::has_label(
                    smt_context.vir@.blocks[error.trace@.last() as int],
                    error.failing_assertion@,
                )
                &&& forall|i: int|
                    0 <= i < error.trace@.len() - 1 ==> has_edge(
                        smt_context.vir@.graph(),
                        #[trigger] error.trace@[i] as int,
                        error.trace@[i + 1] as int,
                    )
            },
            Err(error) => rejects::<C>(
                smt_context.vir@,
                variable_names(smt_context.vir.variables@),
                order.names(),
                names_of(labels@),
                model.items@,
                error,
            ),
        },
{
    if labels.len() == 0 {
        return Err(SvirptiError { kind: SvirptiErrorKind::NoFailingLabel });
    }
    let numbers = match order.numbers(labels) {
        Ok(numbers) => numbers,
        Err(error) => {
            return Err(error);
        },
    };
    let failing_assertion = order.find_last_label(&numbers);
    let failing_trace = order.compute_failing_trace(&numbers);
    proof {
        let passed = passed_labels(order.names(), names_of(labels@));
        assert(resolved::<C>(failing_trace@) =~= Seq::new(
            passed.len(),
            |i: int| C::low_label_of(passed[i]),
        ));
    }
    wp::verification_result::VerificationError::new(
        smt_context,
        failing_assertion,
        failing_trace,
        model,
    )
}

/// `high` is `low` in the terms of the program that was lowered: the same
/// path and the same values, and every label under its high name.
pub open spec fn raised<C: Context>(
    low: wp::verification_result::VerificationError,
    high: VerificationError,
) -> bool {
    &&& high.failing_assertion@ == C::high_label_name(low.failing_assertion@)
    &&& high.trace@ == low.trace@
    &&& high.labels@.len() == low.labels@.len()
    &&& forall|i: int|
        0 <= i < low.labels@.len() ==> (#[trigger] high.labels@[i])@ == C::high_label_name(
            low.labels@[i]@,
        )
    &&& high.model@ == low.model@
}

impl Model {
    /// The model of the model.
    pub open spec fn view(&self) -> Seq<(Name, ValueView)> {
        entries_of(self.variables@)
    }

    /// The values of `model`.
    pub fn new<C: Context>(_context: &C, model: &wp::verification_result::Model) -> (r: Self)
        ensures
            r@ == model@,
    {
        let mut variables: Vec<(low::VariableSymbol, smt::Value)> = Vec::new();
        let mut i: usize = 0;
        while i < model.variables.len()
            invariant
                i <= model.variables@.len(),
                variables@.len() == i,
                forall|k: int|
                    0 <= k < i ==> (#[trigger] variables@[k]).0@ == model.variables@[k].0@
                        && variables@[k].1@ == model.variables@[k].1@,
            decreases model.variables@.len() - i,
        {
            variables.push((model.variables[i].0.clone(), model.variables[i].1.duplicate()));
            i += 1;
        }
        assert(entries_of(variables@) =~= model@);
        Model { variables }
    }
}

impl VerificationError {
    /// `error` in the terms of the program that was lowered.
    pub fn new<C: Context>(context: &C, error: &wp::verification_result::VerificationError) -> (r:
        Self)
        ensures
            raised::<C>(*error, r),
    {
        let mut labels: Vec<high::LabelSymbol> = Vec::new();
        let mut i: usize = 0;
        while i < error.labels.len()
            invariant
                i <= error.labels@.len(),
                labels@.len() == i,
                forall|k: int|
                    0 <= k < i ==> (#[trigger] labels@[k])@ == C::high_label_name(error.labels@[k]@),
            decreases error.labels@.len() - i,
        {
            labels.push(context.resolve_high_label(&error.labels[i]));
            i += 1;
        }
        let mut trace: Vec<high::BasicBlockId> = Vec::new();
        let mut j: usize = 0;
        while j < error.trace.len()
            invariant
                j <= error.trace@.len(),
                trace@.len() == j,
                forall|k: int| 0 <= k < j ==> trace@[k] == error.trace@[k],
            decreases error.trace@.len() - j,
        {
            trace.push(error.trace[j]);
            j += 1;
        }
        assert(trace@ =~= error.trace@);
        VerificationError {
            failing_assertion: context.resolve_high_label(&error.failing_assertion),
            labels,
            trace,
            model: Model::new(context, &error.model),
        }
    }

    /// The labels of the basic blocks of the trace.
    pub fn get_trace_labels(&self, procedure: &high::ProcedureDeclaration) -> (r: Vec<
        high::LabelSymbol,
    >)
        requires
            forall|i: int|
                0 <= i < self.trace@.len() ==> (#[trigger] self.trace@[i])
                    < procedure.basic_blocks@.len(),
        ensures
            r@.len() == self.trace@.len(),
            forall|i: int|
                0 <= i < self.trace@.len() ==> (#[trigger] r@[i])@
                    == procedure.basic_blocks@[self.trace@[i] as int].label@,
    {
        let mut labels: Vec<high::LabelSymbol> = Vec::new();
        let mut i: usize = 0;
        while i < self.trace.len()
            invariant
                i <= self.trace@.len(),
                labels@.len() == i,
                forall|k: int|
                    0 <= k < self.trace@.len() ==> (#[trigger] self.trace@[k])
                        < procedure.basic_blocks@.len(),
                forall|k: int|
                    0 <= k < i ==> (#[trigger] labels@[k])@
                        == procedure.basic_blocks@[self.trace@[k] as int].label@,
            decreases self.trace@.len() - i,
        {
            labels.push(procedure.basic_blocks[self.trace[i]].label.clone());
            i += 1;
        }
        labels
    }
}

impl<'a, C: Context> VerificationResult<'a, C> {
    pub fn is_success(&self) -> (r: bool)
        ensures
            r == (self is Success),
    {
        matches!(self, VerificationResult::Success)
    }

    /// The result for the first answer of the solver: success where the
    /// verification condition cannot be satisfied, and else the failure of
    /// which the solver reported `labels` and `model`.
    pub fn new(
        smt_context: SmtContext<'a, C>,
        answer: SatResult,
        labels: &Vec<smt::LabelSymbol>,
        model: &smt::Model,
    ) -> (r: SvirptiResult<Self>)
        requires
            well_formed(smt_context.vir@.graph()),
        ensures
            match r {
                Ok(result) => if answer == SatResult::Unsat {
                    result is Success
                } else {
                    result matches VerificationResult::Failure(failure) && failure.wf()
                        && failure.smt_context == smt_context && failure.errors@.len() == 1
                        && describes::<C>(
                        smt_context.vir@,
                        variable_names(smt_context.vir.variables@),
                        all_labels::<C>(smt_context.vir@),
                        names_of(labels@),
                        model.items@,
                        failure.errors@[0],
                    )
                },
                Err(error) => answer != SatResult::Unsat && rejects::<C>(
                    smt_context.vir@,
                    variable_names(smt_context.vir.variables@),
                    all_labels::<C>(smt_context.vir@),
                    names_of(labels@),
                    model.items@,
                    error,
                ),
            },
    {
        if answer.is_success() {
            Ok(VerificationResult::Success)
        } else {
            match VerificationFailure::new(smt_context, labels, model) {
                Ok(failure) => Ok(VerificationResult::Failure(failure)),
                Err(error) => Err(error),
            }
        }
    }
}

impl<'a, C: Context> VerificationFailure<'a, C> {
    /// The search works on the labels of the program of the failure.
    pub open spec fn wf(&self) -> bool {
        &&& well_formed(self.smt_context.vir@.graph())
        &&& self.search.wf()
        &&& self.search.order.names() == all_labels::<C>(self.smt_context.vir@)
    }

    /// The failure of which the solver reported `labels` and `model`.
    pub fn new(smt_context: SmtContext<'a, C>, labels: &Vec<smt::LabelSymbol>, model: &smt::Model) -> (r:
        SvirptiResult<Self>)
        requires
            well_formed(smt_context.vir@.graph()),
        ensures
            match r {
                Ok(failure) => {
                    let order = all_labels::<C>(smt_context.vir@);
                    let first = valued(
                        order,
                        numbers_of(order, names_of(labels@), labels@.len() as int),
                        model.items@,
                    );
                    &&& failure.wf()
                    &&& failure.smt_context == smt_context
                    &&& failure.search@ == (SearchView { working: first, explored: seq![first] })
                    &&& failure.errors@.len() == 1
                    &&& describes::<C>(
                        smt_context.vir@,
                        variable_names(smt_context.vir.variables@),
                        order,
                        names_of(labels@),
                        model.items@,
                        failure.errors@[0],
                    )
                },
                Err(error) => rejects::<C>(
                    smt_context.vir@,
                    variable_names(smt_context.vir.variables@),
                    all_labels::<C>(smt_context.vir@),
                    names_of(labels@),
                    model.items@,
                    error,
                ),
            },
    {
        let order = LabelOrder::new(&smt_context.vir, smt_context.context);
        let error = match describe_failure(&smt_context, &order, labels, model) {
            Ok(error) => error,
            Err(error) => {
                return Err(error);
            },
        };
        let search = match FailureSearch::new(order, labels, model) {
            Ok(search) => search,
            Err(error) => {
                return Err(error);
            },
        };
        let mut errors: Vec<wp::verification_result::VerificationError> = Vec::new();
        errors.push(error);
        Ok(VerificationFailure { smt_context, search, errors })
    }

    /// What to ask the solver next: the assumptions to check the
    /// verification condition with. Nothing when every failure was found.
    pub fn next_assumptions(&mut self) -> (r: Option<Vec<smt::Expression>>)
        requires
            old(self).wf(),
        ensures
            final(self).wf(),
            final(self).smt_context == old(self).smt_context,
            final(self).errors == old(self).errors,
            final(self).search.order == old(self).search.order,
            final(self).search@ == advance(old(self).search@).0,
            match r {
                Some(assumptions) => advance(old(self).search@).1 matches Some(question)
                    && smt::expression::terms_of(assumptions@) == literals(
                    old(self).search.order.names(),
                    question,
                ),
                None => advance(old(self).search@).1 is None,
            },
    {
        self.search.next_assumptions()
    }

    /// Takes note of a failure that the solver found for the last question,
    /// with its `labels` and its `model`: it is reported, and the search goes
    /// on from its labels. After an error nothing has changed.
    pub fn found(&mut self, labels: &Vec<smt::LabelSymbol>, model: &smt::Model) -> (r:
        SvirptiResult<()>)
        requires
            old(self).wf(),
        ensures
            final(self).wf(),
            final(self).smt_context == old(self).smt_context,
            final(self).search.order == old(self).search.order,
            match r {
                Ok(_) => {
                    let order = old(self).search.order.names();
                    &&& final(self).search@ == (SearchView {
                        working: valued(
                            order,
                            numbers_of(order, names_of(labels@), labels@.len() as int),
                            model.items@,
                        ),
                        explored: old(self).search@.explored,
                    })
                    &&& final(self).errors@.len() == old(self).errors@.len() + 1
                    &&& final(self).errors@.drop_last() == old(self).errors@
                    &&& describes::<C>(
                        old(self).smt_context.vir@,
                        variable_names(old(self).smt_context.vir.variables@),
                        order,
                        names_of(labels@),
                        model.items@,
                        final(self).errors@.last(),
                    )
                },
                Err(error) => final(self).search@ == old(self).search@ && final(self).errors
                    == old(self).errors && rejects::<C>(
                    old(self).smt_context.vir@,
                    variable_names(old(self).smt_context.vir.variables@),
                    old(self).search.order.names(),
                    names_of(labels@),
                    model.items@,
                    error,
                ),
            },
    {
        let error = match describe_failure(&self.smt_context, &self.search.order, labels, model) {
            Ok(error) => error,
            Err(error) => {
                return Err(error);
            },
        };
        match self.search.found(labels, model) {
            Ok(_) => {},
            Err(error) => {
                return Err(error);
            },
        }
        let ghost before = self.errors@;
        self.errors.push(error);
        assert(self.errors@.drop_last() =~= before);
        Ok(())
    }

    /// The failures found so far, in the terms of the program that was
    /// lowered.
    pub fn reported_errors(&self) -> (r: Vec<VerificationError>)
        ensures
            r@.len() == self.errors@.len(),
            forall|i: int| 0 <= i < r@.len() ==> raised::<C>(self.errors@[i], #[trigger] r@[i]),
    {
        let mut errors: Vec<VerificationError> = Vec::new();
        let mut i: usize = 0;
        while i < self.errors.len()
            invariant
                i <= self.errors@.len(),
                errors@.len() == i,
                forall|k: int| 0 <= k < i ==> raised::<C>(self.errors@[k], #[trigger] errors@[k]),
            decreases self.errors@.len() - i,
        {
            errors.push(VerificationError::new(self.smt_context.context, &self.errors[i]));
            i += 1;
        }
        errors
    }
}

} // verus!
