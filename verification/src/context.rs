//! How the names of one tier are made from those of another.

use crate::common::expression::Name;
use crate::{high, low, smt};
use vstd::prelude::*;
use vstd::string::{StrSliceExecFns, StringExecFns};

verus! {

/// The renaming between the tiers. Every name that a context gives is a
/// function of the name it was made from: two programs lowered with contexts
/// of one type name their symbols alike.
pub trait Context {
    /// The name of version `version` of the high variable `name`.
    spec fn versioned_name(name: Name, version: nat) -> Name;

    /// The low name of the domain `name`.
    spec fn low_domain_name(name: Name) -> Name;

    /// The low name of the reference type `name`.
    spec fn low_reference_name(name: Name) -> Name;

    /// The low name of the label `name`.
    spec fn low_label_name(name: Name) -> Name;

    /// The solver's name of the low variable `name`.
    spec fn smt_variable_name(name: Name) -> Name;

    /// The solver's name of the low sort `name`.
    spec fn smt_sort_name(name: Name) -> Name;

    /// The solver's name of the low function `name`.
    spec fn smt_function_name(name: Name) -> Name;

    /// The solver's name of the low label `name`.
    spec fn smt_label_name(name: Name) -> Name;

    /// The solver's name of the variable that stands for the block `id`.
    spec fn block_alias_name(id: nat) -> Name;

    /// The high label that the low label `name` was made from.
    spec fn high_label_name(name: Name) -> Name;

    /// Whether the low variable `name` is a version of a high variable.
    spec fn is_versioned(name: Name) -> bool;

    /// The high variable that the low variable `name` is a version of.
    spec fn high_variable_name(name: Name) -> Name;

    /// The low label that the solver's label `name` was made from.
    spec fn low_label_of(name: Name) -> Name;

    /// The low variable that the solver's variable `name` was made from.
    spec fn low_variable_of(name: Name) -> Name;

    fn create_versioned_variable_symbol(&mut self, name: &high::VariableSymbol, version: usize) -> (r:
        low::VariableSymbol)
        ensures
            r@ == Self::versioned_name(name@, version as nat),
    ;

    fn lower_domain_name(&mut self, name: &high::UninterpretedSortSymbol) -> (r:
        low::UninterpretedSortSymbol)
        ensures
            r@ == Self::low_domain_name(name@),
    ;

    fn lower_reference_name(&mut self, name: &high::AdtNameSymbol) -> (r:
        low::UninterpretedSortSymbol)
        ensures
            r@ == Self::low_reference_name(name@),
    ;

    fn lower_label(&mut self, label: &high::LabelSymbol) -> (r: low::LabelSymbol)
        ensures
            r@ == Self::low_label_name(label@),
    ;

    fn convert_variable_name_to_smt(&mut self, name: &low::VariableSymbol) -> (r:
        smt::VariableSymbol)
        ensures
            r@ == Self::smt_variable_name(name@),
    ;

    fn convert_uninterpreted_sort_to_smt(&mut self, name: &low::UninterpretedSortSymbol) -> (r:
        smt::UninterpretedSortSymbol)
        ensures
            r@ == Self::smt_sort_name(name@),
    ;

    fn convert_function_name_to_smt(&mut self, name: &low::FunctionSymbol) -> (r:
        smt::FunctionSymbol)
        ensures
            r@ == Self::smt_function_name(name@),
    ;

    fn convert_label_name_to_smt(&mut self, name: &low::LabelSymbol) -> (r: smt::LabelSymbol)
        ensures
            r@ == Self::smt_label_name(name@),
    ;

    /// The solver's name of a label that was converted before.
    fn convert_known_label_name_to_smt(&self, name: &low::LabelSymbol) -> (r: smt::LabelSymbol)
        ensures
            r@ == Self::smt_label_name(name@),
    ;

    fn create_label_for_basic_block(&mut self, id: low::BasicBlockId) -> (r: smt::VariableSymbol)
        ensures
            r@ == Self::block_alias_name(id as nat),
    ;

    fn resolve_high_label(&self, name: &low::LabelSymbol) -> (r: high::LabelSymbol)
        ensures
            r@ == Self::high_label_name(name@),
    ;

    fn resolve_high_variable(&self, name: &low::VariableSymbol) -> (r: high::VariableSymbol)
        requires
            Self::is_versioned(name@),
        ensures
            r@ == Self::high_variable_name(name@),
    ;

    fn resolve_low_label(&self, name: &smt::LabelSymbol) -> (r: low::LabelSymbol)
        ensures
            r@ == Self::low_label_of(name@),
    ;

    fn resolve_low_variable(&self, name: &smt::VariableSymbol) -> (r: low::VariableSymbol)
        ensures
            r@ == Self::low_variable_of(name@),
    ;
}

/// The character of the digit `d`.
pub open spec fn digit(d: nat) -> char {
    if d == 0 {
        '0'
    } else if d == 1 {
        '1'
    } else if d == 2 {
        '2'
    } else if d == 3 {
        '3'
    } else if d == 4 {
        '4'
    } else if d == 5 {
        '5'
    } else if d == 6 {
        '6'
    } else if d == 7 {
        '7'
    } else if d == 8 {
        '8'
    } else {
        '9'
    }
}

/// The digits of `n` to base ten, without leading zeros.
pub open spec fn decimal(n: nat) -> Seq<char>
    decreases n,
{
    if n < 10 {
        seq![digit(n)]
    } else {
        decimal(n / 10).push(digit(n % 10))
    }
}

/// The position of the last `c` in `s`, or -1 where there is none.
pub open spec fn last_position(s: Seq<char>, c: char) -> int
    decreases s.len(),
{
    if s.len() == 0 {
        -1
    } else if s.last() == c {
        s.len() - 1
    } else {
        last_position(s.drop_last(), c)
    }
}

fn digit_text(d: u64) -> (r: &'static str)
    requires
        d < 10,
    ensures
        r@ == seq![digit(d as nat)],
{
    proof {
        reveal_strlit("0");
        reveal_strlit("1");
        reveal_strlit("2");
        reveal_strlit("3");
        reveal_strlit("4");
        reveal_strlit("5");
        reveal_strlit("6");
        reveal_strlit("7");
        reveal_strlit("8");
        reveal_strlit("9");
    }
    if d == 0 {
        "0"
    } else if d == 1 {
        "1"
    } else if d == 2 {
        "2"
    } else if d == 3 {
        "3"
    } else if d == 4 {
        "4"
    } else if d == 5 {
        "5"
    } else if d == 6 {
        "6"
    } else if d == 7 {
        "7"
    } else if d == 8 {
        "8"
    } else {
        "9"
    }
}

/// `n` written to base ten.
pub fn decimal_text(n: u64) -> (r: String)
    ensures
        r@ == decimal(n as nat),
    decreases n,
{
    if n < 10 {
        String::from_str(digit_text(n))
    } else {
        let mut text = decimal_text(n / 10);
        text.append(digit_text(n % 10));
        text
    }
}

/// `prefix`, then `@`, then `n` to base ten.
pub open spec fn at_number(prefix: Seq<char>, n: nat) -> Seq<char> {
    prefix + seq!['@'] + decimal(n)
}

fn at_number_text(prefix: &str, n: usize) -> (r: String)
    ensures
        r@ == at_number(prefix@, n as nat),
{
    proof {
        reveal_strlit("@");
    }
    let mut text = String::from_str(prefix);
    text.append("@");
    let number = decimal_text(n as u64);
    text.append(number.as_str());
    text
}

/// The context that keeps every name as it is, but for two: version `k` of
/// the variable `x` is `x@k`, and the block `i` is `BB@i`.
pub struct StringContext {}

impl Context for StringContext {
    open spec fn versioned_name(name: Name, version: nat) -> Name {
        at_number(name, version)
    }

    open spec fn low_domain_name(name: Name) -> Name {
        name
    }

    open spec fn low_reference_name(name: Name) -> Name {
        name
    }

    open spec fn low_label_name(name: Name) -> Name {
        name
    }

    open spec fn smt_variable_name(name: Name) -> Name {
        name
    }

    open spec fn smt_sort_name(name: Name) -> Name {
        name
    }

    open spec fn smt_function_name(name: Name) -> Name {
        name
    }

    open spec fn smt_label_name(name: Name) -> Name {
        name
    }

    open spec fn block_alias_name(id: nat) -> Name {
        at_number("BB"@, id)
    }

    open spec fn high_label_name(name: Name) -> Name {
        name
    }

    open spec fn is_versioned(name: Name) -> bool {
        last_position(name, '@') >= 0
    }

    open spec fn high_variable_name(name: Name) -> Name {
        name.subrange(0, last_position(name, '@'))
    }

    open spec fn low_label_of(name: Name) -> Name {
        name
    }

    open spec fn low_variable_of(name: Name) -> Name {
        name
    }

    fn create_versioned_variable_symbol(&mut self, name: &high::VariableSymbol, version: usize) -> (r:
        low::VariableSymbol) {
        low::VariableSymbol(at_number_text(name.0.as_str(), version))
    }

    fn lower_domain_name(&mut self, name: &high::UninterpretedSortSymbol) -> (r:
        low::UninterpretedSortSymbol) {
        low::UninterpretedSortSymbol(name.as_string())
    }

    fn lower_reference_name(&mut self, name: &high::AdtNameSymbol) -> (r:
        low::UninterpretedSortSymbol) {
        low::UninterpretedSortSymbol(name.as_string())
    }

    fn lower_label(&mut self, label: &high::LabelSymbol) -> (r: low::LabelSymbol) {
        low::LabelSymbol(label.as_string())
    }

    fn convert_variable_name_to_smt(&mut self, name: &low::VariableSymbol) -> (r:
        smt::VariableSymbol) {
        smt::IdentSymbol(name.as_string())
    }

    fn convert_uninterpreted_sort_to_smt(&mut self, name: &low::UninterpretedSortSymbol) -> (r:
        smt::UninterpretedSortSymbol) {
        smt::IdentSymbol(name.as_string())
    }

    fn convert_function_name_to_smt(&mut self, name: &low::FunctionSymbol) -> (r:
        smt::FunctionSymbol) {
        smt::IdentSymbol(name.as_string())
    }

    fn convert_label_name_to_smt(&mut self, name: &low::LabelSymbol) -> (r: smt::LabelSymbol) {
        smt::IdentSymbol(name.as_string())
    }

    fn convert_known_label_name_to_smt(&self, name: &low::LabelSymbol) -> (r: smt::LabelSymbol) {
        smt::IdentSymbol(name.as_string())
    }

    fn create_label_for_basic_block(&mut self, id: low::BasicBlockId) -> (r: smt::VariableSymbol) {
        smt::IdentSymbol(at_number_text("BB", id))
    }

    fn resolve_high_label(&self, name: &low::LabelSymbol) -> (r: high::LabelSymbol) {
        high::LabelSymbol(name.as_string())
    }

    fn resolve_high_variable(&self, name: &low::VariableSymbol) -> (r: high::VariableSymbol) {
        let text = name.0.as_str();
        let mut end: usize = text.unicode_len();
        assert(text@.subrange(0, end as int) =~= text@);
        while end > 0 && text.get_char(end - 1) != '@'
            invariant
                end <= text@.len(),
                last_position(text@, '@') == last_position(text@.subrange(0, end as int), '@'),
                last_position(text@, '@') >= 0,
            decreases end,
        {
            proof {
                assert(text@.subrange(0, end as int).drop_last() =~= text@.subrange(0, end - 1));
            }
            end -= 1;
        }
        high::VariableSymbol(String::from_str(text.substring_char(0, end - 1)))
    }

    fn resolve_low_label(&self, name: &smt::LabelSymbol) -> (r: low::LabelSymbol) {
        low::LabelSymbol(name.as_string())
    }

    fn resolve_low_variable(&self, name: &smt::VariableSymbol) -> (r: low::VariableSymbol) {
        low::VariableSymbol(name.as_string())
    }
}

/// No digit of a number is an `@`.
pub proof fn lemma_decimal_has_no_at(n: nat, i: int)
    requires
        0 <= i < decimal(n).len(),
    ensures
        decimal(n)[i] != '@',
        decimal(n).len() > 0,
    decreases n,
{
    if n >= 10 {
        if i < decimal(n / 10).len() {
            lemma_decimal_has_no_at(n / 10, i);
        }
    }
}

pub proof fn lemma_last_position_before(prefix: Seq<char>, rest: Seq<char>)
    requires
        forall|i: int| 0 <= i < rest.len() ==> rest[i] != '@',
    ensures
        last_position(prefix + seq!['@'] + rest, '@') == prefix.len(),
    decreases rest.len(),
{
    let all = prefix + seq!['@'] + rest;
    if !(rest.len() == 0) {
        assert(all.drop_last() =~= prefix + seq!['@'] + rest.drop_last());
        lemma_last_position_before(prefix, rest.drop_last());
    }
}

/// The name of a version is the name of a version, and the variable that it
/// is a version of is the variable that it was made from: whatever the name
/// of the variable, with an `@` in it or without.
pub proof fn lemma_versioned_name_resolves(name: Seq<char>, version: nat)
    ensures
        StringContext::is_versioned(StringContext::versioned_name(name, version)),
        StringContext::high_variable_name(StringContext::versioned_name(name, version)) == name,
{
    let digits = decimal(version);
    assert forall|i: int| 0 <= i < digits.len() implies digits[i] != '@' by {
        lemma_decimal_has_no_at(version, i);
    }
    lemma_last_position_before(name, digits);
}

} // verus!
