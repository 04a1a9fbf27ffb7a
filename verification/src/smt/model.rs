//! What the solver answers when the assertions can hold together: a value
//! for each symbol.

use crate::common::expression::Name;
use crate::smt::context::{LabelSymbol, UninterpretedSortValue, VariableSymbol};
use crate::smt::sort::Sort;
use vstd::prelude::*;

verus! {

/// A value of a model.
#[derive(Debug, Clone, PartialEq, Eq)]
pub enum Value {
    Bool(bool),
    Int(i64),
    Uninterpreted(UninterpretedSortValue),
}

/// A parameter of a function of a model.
#[derive(Debug, Clone, PartialEq, Eq)]
pub struct ModelItemArg {
    pub name: VariableSymbol,
    pub sort: Sort,
}

/// The value that a model gives to one symbol.
#[derive(Debug, Clone, PartialEq, Eq)]
pub struct ModelItem {
    pub name: VariableSymbol,
    pub args: Vec<ModelItemArg>,
    pub sort: Sort,
    pub value: Value,
}

/// A model, in the order in which the solver lists it.
#[derive(Debug, Clone, PartialEq, Eq)]
pub struct Model {
    pub items: Vec<ModelItem>,
}

/// The model of a value.
pub enum ValueView {
    Bool(bool),
    Int(int),
    Uninterpreted(Seq<char>),
}

impl View for Value {
    type V = ValueView;

    open spec fn view(&self) -> ValueView {
        match self {
            Value::Bool(value) => ValueView::Bool(*value),
            Value::Int(value) => ValueView::Int(*value as int),
            Value::Uninterpreted(value) => ValueView::Uninterpreted(value@),
        }
    }
}

/// Whether `items` gives the symbol `name` the value `true`: the first item
/// of that name decides.
pub open spec fn holds_in(items: Seq<ModelItem>, name: Name) -> bool
    decreases items.len(),
{
    if items.len() == 0 {
        false
    } else if items[0].name@ == name {
        items[0].value@ == ValueView::Bool(true)
    } else {
        holds_in(items.drop_first(), name)
    }
}

impl Value {
    /// A copy of the value.
    pub fn duplicate(&self) -> (r: Value)
        ensures
            r@ == self@,
    {
        match self {
            Value::Bool(value) => Value::Bool(*value),
            Value::Int(value) => Value::Int(*value),
            Value::Uninterpreted(value) => Value::Uninterpreted(value.clone()),
        }
    }
}

impl Model {
    /// Whether the model gives `label` the value `true`. A label that the
    /// model does not list is taken to be false.
    pub fn get_label(&self, label: &LabelSymbol) -> (r: bool)
        ensures
            r == holds_in(self.items@, label@),
    {
        let mut i: usize = 0;
        assert(self.items@.subrange(0, self.items@.len() as int) =~= self.items@);
        while i < self.items.len()
            invariant
                i <= self.items@.len(),
                holds_in(self.items@, label@) == holds_in(
                    self.items@.subrange(i as int, self.items@.len() as int),
                    label@,
                ),
            decreases self.items@.len() - i,
        {
            let ghost rest = self.items@.subrange(i as int, self.items@.len() as int);
            assert(rest[0] == self.items@[i as int]);
            assert(rest.drop_first() =~= self.items@.subrange(i + 1, self.items@.len() as int));
            if self.items[i].name == *label {
                return match self.items[i].value {
                    Value::Bool(value) => value,
                    _ => false,
                };
            }
            i += 1;
        }
        false
    }
}

} // verus!
