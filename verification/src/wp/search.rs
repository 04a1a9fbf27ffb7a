//! The search for every failure of a program.
//!
//! When the solver finds the verification condition satisfiable it reports
//! the labels of one failure. The search then asks the solver again, with
//! more assumptions each time: the labels of the last failure, each with the
//! value that it has in the model, but for the last of them, whose value is
//! turned round. What the solver is asked is remembered, and nothing is asked
//! twice. The search keeps the state and says what to ask next; asking is
//! left to the caller.

use crate::common::expression::{Name, Term};
use crate::errors::{SvirptiError, SvirptiErrorKind, SvirptiResult};
use crate::smt;
use crate::smt::model::{holds_in, ModelItem};
use crate::wp::labels::{all_known, names_of, numbers_of, unknown_label_error, LabelOrder};
use vstd::prelude::*;

verus! {

/// A set of labels with a value for each: the numbers rise.
pub type Signature = Vec<(usize, bool)>;

/// The state of a search.
#[derive(Debug)]
pub struct FailureSearch {
    /// The labels of the program.
    pub order: LabelOrder,
    /// The labels of the last failure that were not turned round yet, each
    /// with its value in the model of that failure.
    pub working: Signature,
    /// What the solver was asked.
    pub explored: Vec<Signature>,
}

/// The model of the state of a search.
pub struct SearchView {
    pub working: Seq<(usize, bool)>,
    pub explored: Seq<Seq<(usize, bool)>>,
}

/// The signatures of `rows`, in order.
pub open spec fn signatures_of(rows: Seq<Signature>) -> Seq<Seq<(usize, bool)>> {
    Seq::new(rows.len(), |i: int| rows[i]@)
}

/// Each of `numbers` with the value that `items` gives to its label.
pub open spec fn valued(names: Seq<Name>, numbers: Seq<usize>, items: Seq<ModelItem>) -> Seq<
    (usize, bool),
> {
    Seq::new(numbers.len(), |i: int| (numbers[i], holds_in(items, names[numbers[i] as int])))
}

/// `working` with the value of its last label turned round.
pub open spec fn turned(working: Seq<(usize, bool)>) -> Seq<(usize, bool)> {
    working.drop_last().push((working.last().0, !working.last().1))
}

/// The state after the search has looked for the next question, and the
/// question, if there is one. The last label leaves `working`; where the
/// labels that are left, with the last one turned round, were not asked
/// before, they are the question and are remembered; else the search goes on
/// with the labels that are left.
pub open spec fn advance(s: SearchView) -> (SearchView, Option<Seq<(usize, bool)>>)
    decreases s.working.len(),
{
    if s.working.len() == 0 {
        (s, None)
    } else {
        let candidate = turned(s.working);
        let rest = s.working.drop_last();
        if s.explored.contains(candidate) {
            advance(SearchView { working: rest, explored: s.explored })
        } else {
            (SearchView { working: rest, explored: s.explored.push(candidate) }, Some(candidate))
        }
    }
}

/// Every question is a new one, and every look for a question takes labels
/// out of the search: where there is a question, it was not asked before and
/// is remembered, and fewer labels are left; where there is none, no label
/// is left and nothing more is remembered.
pub proof fn lemma_advance(s: SearchView)
    ensures
        advance(s).0.working.len() <= s.working.len(),
        match advance(s).1 {
            Some(question) => {
                &&& !s.explored.contains(question)
                &&& advance(s).0.explored == s.explored.push(question)
                &&& advance(s).0.working.len() < s.working.len()
                &&& question.len() <= s.working.len()
            },
            None => advance(s).0.working.len() == 0 && advance(s).0.explored == s.explored,
        },
    decreases s.working.len(),
{
    if s.working.len() > 0 {
        let candidate = turned(s.working);
        if s.explored.contains(candidate) {
            lemma_advance(SearchView { working: s.working.drop_last(), explored: s.explored });
        }
    }
}

/// The assumption that the label `entry.0` has the value `entry.1`.
pub open spec fn literal(names: Seq<Name>, entry: (usize, bool)) -> Term {
    if entry.1 {
        Term::Variable(names[entry.0 as int])
    } else {
        Term::not(Term::Variable(names[entry.0 as int]))
    }
}

/// The assumptions that ask for `signature`.
pub open spec fn literals(names: Seq<Name>, signature: Seq<(usize, bool)>) -> Seq<Term> {
    Seq::new(signature.len(), |i: int| literal(names, signature[i]))
}

/// The labels of `numbers`, in order.
pub open spec fn labels_at(names: Seq<Name>, numbers: Seq<usize>) -> Seq<Name> {
    Seq::new(numbers.len(), |i: int| names[numbers[i] as int])
}

fn same_signature(a: &Signature, b: &Signature) -> (r: bool)
    ensures
        r == (a@ == b@),
{
    if a.len() != b.len() {
        return false;
    }
    let mut i: usize = 0;
    while i < a.len()
        invariant
            i <= a@.len(),
            a@.len() == b@.len(),
            forall|k: int| 0 <= k < i ==> a@[k] == b@[k],
        decreases a@.len() - i,
    {
        if a[i].0 != b[i].0 || a[i].1 != b[i].1 {
            return false;
        }
        i += 1;
    }
    assert(a@ =~= b@);
    true
}

fn is_explored(explored: &Vec<Signature>, candidate: &Signature) -> (r: bool)
    ensures
        r == signatures_of(explored@).contains(candidate@),
{
    let mut i: usize = 0;
    while i < explored.len()
        invariant
            i <= explored@.len(),
            forall|k: int| 0 <= k < i ==> signatures_of(explored@)[k] != candidate@,
        decreases explored@.len() - i,
    {
        if same_signature(&explored[i], candidate) {
            assert(signatures_of(explored@)[i as int] == candidate@);
            return true;
        }
        i += 1;
    }
    false
}

fn copy_signature(signature: &Signature) -> (r: Signature)
    ensures
        r@ == signature@,
{
    let mut r: Signature = Vec::new();
    let mut i: usize = 0;
    while i < signature.len()
        invariant
            i <= signature@.len(),
            r@.len() == i,
            forall|k: int| 0 <= k < i ==> r@[k] == signature@[k],
        decreases signature@.len() - i,
    {
        r.push((signature[i].0, signature[i].1));
        i += 1;
    }
    r
}

impl LabelOrder {
    /// Each of `numbers` with the value that `model` gives to its label.
    pub fn values(&self, numbers: &Vec<usize>, model: &smt::Model) -> (r: Signature)
        requires
            forall|i: int| 0 <= i < numbers@.len() ==> (#[trigger] numbers@[i]) < self.labels@.len(),
        ensures
            r@ == valued(self.names(), numbers@, model.items@),
    {
        let mut r: Signature = Vec::new();
        let mut i: usize = 0;
        while i < numbers.len()
            invariant
                i <= numbers@.len(),
                r@.len() == i,
                forall|k: int|
                    0 <= k < numbers@.len() ==> (#[trigger] numbers@[k]) < self.labels@.len(),
                forall|k: int|
                    0 <= k < i ==> r@[k] == valued(self.names(), numbers@, model.items@)[k],
            decreases numbers@.len() - i,
        {
            let id = numbers[i];
            let value = model.get_label(&self.labels[id]);
            r.push((id, value));
            i += 1;
        }
        r
    }

    /// The label of the assertion that failed: the last of the reported
    /// labels in the order of the program.
    pub fn find_last_label(&self, numbers: &Vec<usize>) -> (r: smt::LabelSymbol)
        requires
            numbers@.len() > 0,
            forall|i: int| 0 <= i < numbers@.len() ==> (#[trigger] numbers@[i]) < self.labels@.len(),
        ensures
            r@ == self.names()[numbers@.last() as int],
    {
        self.labels[numbers[numbers.len() - 1]].clone()
    }

    /// The labels that control passed on its way to the assertion that
    /// failed: the reported labels but the last, in the order of the program.
    pub fn compute_failing_trace(&self, numbers: &Vec<usize>) -> (r: Vec<smt::LabelSymbol>)
        requires
            numbers@.len() > 0,
            forall|i: int| 0 <= i < numbers@.len() ==> (#[trigger] numbers@[i]) < self.labels@.len(),
        ensures
            names_of(r@) == labels_at(self.names(), numbers@.drop_last()),
    {
        let mut r: Vec<smt::LabelSymbol> = Vec::new();
        let mut i: usize = 0;
        while i < numbers.len() - 1
            invariant
                numbers@.len() > 0,
                i <= numbers@.len() - 1,
                r@.len() == i,
                forall|k: int|
                    0 <= k < numbers@.len() ==> (#[trigger] numbers@[k]) < self.labels@.len(),
                forall|k: int|
                    0 <= k < i ==> (#[trigger] r@[k])@ == self.names()[numbers@[k] as int],
            decreases numbers@.len() - i,
        {
            r.push(self.labels[numbers[i]].clone());
            i += 1;
        }
        r
    }
}

impl FailureSearch {
    /// The model of the state.
    pub open spec fn view(&self) -> SearchView {
        SearchView { working: self.working@, explored: signatures_of(self.explored@) }
    }

    /// Every label that the search works on is a label of the program.
    pub open spec fn wf(&self) -> bool {
        forall|i: int|
            0 <= i < self.working@.len() ==> (#[trigger] self.working@[i]).0 < self.order.labels@.len()
    }

    /// The search after the first failure, of which the solver reported
    /// `labels` and `model`.
    pub fn new(order: LabelOrder, labels: &Vec<smt::LabelSymbol>, model: &smt::Model) -> (r:
        SvirptiResult<FailureSearch>)
        ensures
            match r {
                Ok(search) => {
                    let first = valued(
                        order.names(),
                        numbers_of(order.names(), names_of(labels@), labels@.len() as int),
                        model.items@,
                    );
                    &&& labels@.len() > 0
                    &&& all_known(order.names(), names_of(labels@))
                    &&& search.wf()
                    &&& search.order == order
                    &&& search@ == (SearchView { working: first, explored: seq![first] })
                },
                Err(error) => if labels@.len() == 0 {
                    error.kind is NoFailingLabel
                } else {
                    !all_known(order.names(), names_of(labels@)) && unknown_label_error(
                        order.names(),
                        error,
                    )
                },
            },
    {
        if labels.len() == 0 {
            return Err(SvirptiError { kind: SvirptiErrorKind::NoFailingLabel });
        }
        let numbers = match order.numbers(labels) {
            Ok(numbers) => numbers,
            Err(error) => {
                return Err(error);
            },
        };
        let working = order.values(&numbers, model);
        let mut explored: Vec<Signature> = Vec::new();
        explored.push(copy_signature(&working));
        assert(signatures_of(explored@) =~= seq![working@]);
        Ok(FailureSearch { order, working, explored })
    }

    /// What to ask the solver next: the assumptions to check the
    /// verification condition with. Nothing when the search has ended.
    pub fn next_assumptions(&mut self) -> (r: Option<Vec<smt::Expression>>)
        requires
            old(self).wf(),
        ensures
            final(self).wf(),
            final(self).order == old(self).order,
            final(self)@ == advance(old(self)@).0,
            match r {
                Some(assumptions) => advance(old(self)@).1 matches Some(question)
                    && smt::expression::terms_of(assumptions@) == literals(
                    old(self).order.names(),
                    question,
                ),
                None => advance(old(self)@).1 is None,
            },
    {
        while self.working.len() > 0
            invariant
                self.wf(),
                self.order == old(self).order,
                advance(self@) == advance(old(self)@),
            decreases self.working@.len(),
        {
            let ghost before = self@;
            let mut candidate = copy_signature(&self.working);
            let last = self.working.pop().unwrap();
            candidate.pop();
            candidate.push((last.0, !last.1));
            if !is_explored(&self.explored, &candidate) {
                let mut assumptions: Vec<smt::Expression> = Vec::new();
                let mut i: usize = 0;
                while i < candidate.len()
                    invariant
                        i <= candidate@.len(),
                        assumptions@.len() == i,
                        forall|k: int|
                            0 <= k < candidate@.len() ==> (#[trigger] candidate@[k]).0
                                < self.order.labels@.len(),
                        forall|k: int|
                            0 <= k < i ==> (#[trigger] assumptions@[k])@ == literal(
                                self.order.names(),
                                candidate@[k],
                            ),
                    decreases candidate@.len() - i,
                {
                    let variable = smt::Expression::variable(
                        self.order.labels[candidate[i].0].clone(),
                    );
                    if candidate[i].1 {
                        assumptions.push(variable);
                    } else {
                        assumptions.push(smt::Expression::not(variable));
                    }
                    i += 1;
                }
                let ghost explored_before = signatures_of(self.explored@);
                self.explored.push(candidate);
                proof {
                    assert(signatures_of(self.explored@) =~= explored_before.push(
                        turned(before.working),
                    ));
                }
                return Some(assumptions);
            }
        }
        None
    }

    /// Takes note of a failure that the solver found for the last question,
    /// with its `labels` and its `model`: the search goes on from them.
    pub fn found(&mut self, labels: &Vec<smt::LabelSymbol>, model: &smt::Model) -> (r:
        SvirptiResult<()>)
        requires
            old(self).wf(),
        ensures
            final(self).order == old(self).order,
            final(self).wf(),
            match r {
                Ok(_) => {
                    &&& labels@.len() > 0
                    &&& all_known(old(self).order.names(), names_of(labels@))
                    &&& final(self)@ == (SearchView {
                        working: valued(
                            old(self).order.names(),
                            numbers_of(
                                old(self).order.names(),
                                names_of(labels@),
                                labels@.len() as int,
                            ),
                            model.items@,
                        ),
                        explored: old(self)@.explored,
                    })
                },
                Err(error) => final(self)@ == old(self)@ && if labels@.len() == 0 {
                    error.kind is NoFailingLabel
                } else {
                    !all_known(old(self).order.names(), names_of(labels@)) && unknown_label_error(
                        old(self).order.names(),
                        error,
                    )
                },
            },
    {
        if labels.len() == 0 {
            return Err(SvirptiError { kind: SvirptiErrorKind::NoFailingLabel });
        }
        let numbers = match self.order.numbers(labels) {
            Ok(numbers) => numbers,
            Err(error) => {
                return Err(error);
            },
        };
        self.working = self.order.values(&numbers, model);
        Ok(())
    }
}

} // verus!
