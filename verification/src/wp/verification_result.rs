//! What is reported of one failure: the assertion that failed, the path to
//! it, the labels on the way and the values of the variables.

use crate::common::cfg::{has_edge, well_formed};
use crate::common::expression::Name;
use crate::context::Context;
use crate::errors::{SvirptiError, SvirptiErrorKind, SvirptiResult};
use crate::low;
use crate::lower::smt_context::SmtContext;
use crate::smt;
use crate::smt::model::{ModelItem, ValueView};
use crate::wp::path::has_label;
use crate::wp::trace::{reconstruct_trace, reconstructed};
use vstd::prelude::*;
use vstd::string::StrSliceExecFns;

verus! {

/// The values that a model gives to the variables of a program, in the
/// order of the names of the variables.
#[derive(Debug)]
pub struct Model {
    pub variables: Vec<(low::VariableSymbol, smt::Value)>,
}

/// What is reported of one failure.
#[derive(Debug)]
pub struct VerificationError {
    /// The assertion that failed.
    pub failing_assertion: low::LabelSymbol,
    /// The basic blocks that lead to the failing assertion. It is one of the
    /// paths that pass `labels`: there may be others.
    pub trace: Vec<low::BasicBlockId>,
    /// The labels that the solver reported, in the order of the program: the
    /// label of the assertion is the last of them.
    pub labels: Vec<low::LabelSymbol>,
    /// The model that the solver reported.
    pub model: Model,
}

/// The names and the values of `entries`, in order.
pub open spec fn entries_of(entries: Seq<(low::VariableSymbol, smt::Value)>) -> Seq<
    (Name, ValueView),
> {
    Seq::new(entries.len(), |i: int| (entries[i].0@, entries[i].1@))
}

/// The names of the declarations of `variables`, in order.
pub open spec fn variable_names(variables: Seq<low::VariableDeclaration>) -> Seq<Name> {
    Seq::new(variables.len(), |i: int| variables[i].name@)
}

/// One of `entries` is for `name`.
pub open spec fn has_entry(entries: Seq<(Name, ValueView)>, name: Name) -> bool {
    exists|i: int| 0 <= i < entries.len() && (#[trigger] entries[i]).0 == name
}

/// Whether the name `a` comes before the name `b`, from their characters at
/// `i` on: the first character in which they differ decides, and a name
/// comes before every name that goes on after it.
pub open spec fn comes_before_from(a: Name, b: Name, i: int) -> bool
    decreases a.len() - i,
{
    if i >= a.len() {
        i < b.len()
    } else if i < 0 || i >= b.len() {
        false
    } else if (a[i] as u32) < (b[i] as u32) {
        true
    } else if (a[i] as u32) > (b[i] as u32) {
        false
    } else {
        comes_before_from(a, b, i + 1)
    }
}

/// Whether the name `a` comes before the name `b`.
pub open spec fn comes_before(a: Name, b: Name) -> bool {
    comes_before_from(a, b, 0)
}

/// The first position at or after `i` whose entry has a name that `name`
/// comes before; the length of `entries` where there is none.
pub open spec fn place_from(entries: Seq<(Name, ValueView)>, name: Name, i: int) -> int
    decreases entries.len() - i,
{
    if i >= entries.len() {
        entries.len() as int
    } else if i >= 0 && comes_before(name, entries[i].0) {
        i
    } else {
        place_from(entries, name, i + 1)
    }
}

/// The first `k` of `items` in the order of their names, with those left
/// out that are not for a variable of `names`. Nothing where two of them are
/// for one variable.
pub open spec fn projected<C: Context>(names: Seq<Name>, items: Seq<ModelItem>, k: int) -> Option<
    Seq<(Name, ValueView)>,
>
    decreases k,
{
    if k <= 0 {
        Some(Seq::empty())
    } else {
        match projected::<C>(names, items, k - 1) {
            None => None,
            Some(rest) => {
                let name = C::low_variable_of(items[k - 1].name@);
                if !names.contains(name) {
                    Some(rest)
                } else if has_entry(rest, name) {
                    None
                } else {
                    Some(rest.insert(place_from(rest, name, 0), (name, items[k - 1].value@)))
                }
            },
        }
    }
}

/// Once two items are for one variable, more items do not mend it.
pub proof fn lemma_projected_stuck<C: Context>(
    names: Seq<Name>,
    items: Seq<ModelItem>,
    k: int,
    later: int,
)
    requires
        0 <= k <= later,
        projected::<C>(names, items, k) is None,
    ensures
        projected::<C>(names, items, later) is None,
    decreases later - k,
{
    if k < later {
        lemma_projected_stuck::<C>(names, items, k, later - 1);
    }
}

/// The names of `labels`, turned into low labels.
pub open spec fn resolved<C: Context>(labels: Seq<smt::LabelSymbol>) -> Seq<Name> {
    Seq::new(labels.len(), |i: int| C::low_label_of(labels[i]@))
}

fn name_comes_before(a: &low::VariableSymbol, b: &low::VariableSymbol) -> (r: bool)
    ensures
        r == comes_before(a@, b@),
{
    let first = a.0.as_str();
    let second = b.0.as_str();
    let first_length = first.unicode_len();
    let second_length = second.unicode_len();
    let mut i: usize = 0;
    while i < first_length
        invariant
            i <= first_length,
            first_length == a@.len(),
            second_length == b@.len(),
            first@ == a@,
            second@ == b@,
            comes_before(a@, b@) == comes_before_from(a@, b@, i as int),
        decreases first_length - i,
    {
        if i >= second_length {
            return false;
        }
        let x = first.get_char(i) as u32;
        let y = second.get_char(i) as u32;
        if x < y {
            return true;
        }
        if x > y {
            return false;
        }
        i += 1;
    }
    i < second_length
}

impl Model {
    /// The model of the model.
    pub open spec fn view(&self) -> Seq<(Name, ValueView)> {
        entries_of(self.variables@)
    }

    /// What `model` says of the variables of the program: what it says of
    /// the labels and of the variables of the blocks is left out.
    pub fn new<C: Context>(smt_context: &SmtContext<C>, model: &smt::Model) -> (r: SvirptiResult<
        Model,
    >)
        ensures
            match r {
                Ok(projection) => projected::<C>(
                    variable_names(smt_context.vir.variables@),
                    model.items@,
                    model.items@.len() as int,
                ) == Some(projection@),
                Err(error) => projected::<C>(
                    variable_names(smt_context.vir.variables@),
                    model.items@,
                    model.items@.len() as int,
                ) is None && error.kind is DuplicateModelEntry,
            },
    {
        let ghost names = variable_names(smt_context.vir.variables@);
        let mut variables: Vec<(low::VariableSymbol, smt::Value)> = Vec::new();
        let mut k: usize = 0;
        while k < model.items.len()
            invariant
                k <= model.items@.len(),
                names == variable_names(smt_context.vir.variables@),
                projected::<C>(names, model.items@, k as int) == Some(entries_of(variables@)),
            decreases model.items@.len() - k,
        {
            let item = &model.items[k];
            let name = smt_context.context.resolve_low_variable(&item.name);
            let mut declared = false;
            let mut i: usize = 0;
            while i < smt_context.vir.variables.len()
                invariant
                    i <= smt_context.vir.variables@.len(),
                    names == variable_names(smt_context.vir.variables@),
                    declared <==> exists|j: int| 0 <= j < i && names[j] == name@,
                decreases smt_context.vir.variables@.len() - i,
            {
                if smt_context.vir.variables[i].name == name {
                    assert(names[i as int] == name@);
                    declared = true;
                }
                i += 1;
            }
            if declared {
                let ghost rest = entries_of(variables@);
                let mut j: usize = 0;
                while j < variables.len()
                    invariant
                        j <= variables@.len(),
                        k < model.items@.len(),
                        names == variable_names(smt_context.vir.variables@),
                        rest == entries_of(variables@),
                        names.contains(name@),
                        name@ == C::low_variable_of(model.items@[k as int].name@),
                        projected::<C>(names, model.items@, k as int) == Some(rest),
                        forall|l: int| 0 <= l < j ==> (#[trigger] rest[l]).0 != name@,
                    decreases variables@.len() - j,
                {
                    if variables[j].0 == name {
                        assert(rest[j as int].0 == name@);
                        proof {
                            lemma_projected_stuck::<C>(
                                names,
                                model.items@,
                                k + 1,
                                model.items@.len() as int,
                            );
                        }
                        return Err(
                            SvirptiError {
                                kind: SvirptiErrorKind::DuplicateModelEntry(item.name.clone()),
                            },
                        );
                    }
                    j += 1;
                }
                let value = item.value.duplicate();
                let mut at: usize = 0;
                while at < variables.len() && !name_comes_before(&name, &variables[at].0)
                    invariant
                        at <= variables@.len(),
                        rest == entries_of(variables@),
                        place_from(rest, name@, 0) == place_from(rest, name@, at as int),
                    decreases variables@.len() - at,
                {
                    at += 1;
                }
                variables.insert(at, (name, value));
            }
            k += 1;
        }
        Ok(Model { variables })
    }

    /// The value of the variable `name`, if the model has one.
    pub fn get(&self, name: &low::VariableSymbol) -> (r: Option<&smt::Value>)
        ensures
            match r {
                Some(value) => exists|i: int|
                    0 <= i < self@.len() && #[trigger] self@[i] == (name@, value@) && forall|
                        l: int,
                    | 0 <= l < i ==> (#[trigger] self@[l]).0 != name@,
                None => !has_entry(self@, name@),
            },
    {
        let mut i: usize = 0;
        while i < self.variables.len()
            invariant
                i <= self.variables@.len(),
                forall|l: int| 0 <= l < i ==> (#[trigger] self@[l]).0 != name@,
            decreases self.variables@.len() - i,
        {
            if self.variables[i].0 == *name {
                assert(self@[i as int] == (name@, self.variables@[i as int].1@));
                return Some(&self.variables[i].1);
            }
            i += 1;
        }
        None
    }
}

impl VerificationError {
    /// The report of the failure of `failing_assertion` after control has
    /// passed the labels of `trace`, with the values of `model`.
    pub fn new<C: Context>(
        smt_context: &SmtContext<C>,
        failing_assertion: smt::LabelSymbol,
        trace: Vec<smt::LabelSymbol>,
        model: &smt::Model,
    ) -> (r: SvirptiResult<VerificationError>)
        requires
            well_formed(smt_context.vir@.graph()),
        ensures
            match r {
                Ok(error) => {
                    &&& error.failing_assertion@ == C::low_label_of(failing_assertion@)
                    &&& crate::wp::trace::names_of(error.labels@) == resolved::<C>(trace@).push(
                        C::low_label_of(failing_assertion@),
                    )
                    &&& reconstructed(
                        smt_context.vir@,
                        resolved::<C>(trace@),
                        C::low_label_of(failing_assertion@),
                    ) == Some(error.trace@)
                    &&& projected::<C>(
                        variable_names(smt_context.vir.variables@),
                        model.items@,
                        model.items@.len() as int,
                    ) == Some(error.model@)
                    &&& error.trace@.len() > 0
                    &&& error.trace@[0] == 0
                    &&& forall|i: int|
                        0 <= i < error.trace@.len() ==> (#[trigger] error.trace@[i])
                            < smt_context.vir.basic_blocks@.len()
                    &&& has_label(
                        smt_context.vir@.blocks[error.trace@.last() as int],
                        error.failing_assertion@,
                    )
                    &&& forall|i: int|
                        0 <= i < error.trace@.len() - 1 ==> has_edge(
                            smt_context.vir@.graph(),
                            #[trigger] error.trace@[i] as int,
                            error.trace@[i + 1] as int,
                        )
                },
                Err(error) => if reconstructed(
                    smt_context.vir@,
                    resolved::<C>(trace@),
                    C::low_label_of(failing_assertion@),
                ) is None {
                    error.kind is UntraceableFailure
                } else {
                    projected::<C>(
                        variable_names(smt_context.vir.variables@),
                        model.items@,
                        model.items@.len() as int,
                    ) is None && error.kind is DuplicateModelEntry
                },
            },
    {
        let failing = smt_context.context.resolve_low_label(&failing_assertion);
        let mut labels: Vec<low::LabelSymbol> = Vec::new();
        let mut i: usize = 0;
        while i < trace.len()
            invariant
                i <= trace@.len(),
                labels@.len() == i,
                forall|k: int| 0 <= k < i ==> (#[trigger] labels@[k])@ == C::low_label_of(trace@[k]@),
            decreases trace@.len() - i,
        {
            labels.push(smt_context.context.resolve_low_label(&trace[i]));
            i += 1;
        }
        assert(crate::wp::trace::names_of(labels@) =~= resolved::<C>(trace@));
        let basic_block_trace = match reconstruct_trace(&smt_context.vir, &failing, &labels) {
            Some(basic_block_trace) => basic_block_trace,
            None => {
                return Err(
                    SvirptiError { kind: SvirptiErrorKind::UntraceableFailure(failing_assertion) },
                );
            },
        };
        let model = match Model::new(smt_context, model) {
            Ok(model) => model,
            Err(error) => {
                return Err(error);
            },
        };
        labels.push(failing.clone());
        Ok(VerificationError { failing_assertion: failing, model, trace: basic_block_trace, labels })
    }
}

} // verus!
