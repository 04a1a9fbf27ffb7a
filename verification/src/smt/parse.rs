//! The reading of what the solver writes of a model: sorts and numbers.

use crate::smt::ident::IdentSymbol;
use crate::smt::sort::Sort;
use crate::common::expression::SortView;
use vstd::prelude::*;
use vstd::string::{StrSliceExecFns, StringExecFns};

verus! {

/// The sort that the solver writes as `text`.
pub open spec fn sort_named(text: Seq<char>) -> SortView {
    if text == "Bool"@ {
        SortView::Bool
    } else if text == "Int"@ {
        SortView::Int
    } else if text == "Real"@ {
        SortView::Real
    } else {
        SortView::Uninterpreted(text)
    }
}

/// The value of the digit `c`; nothing where `c` is no digit.
pub open spec fn digit_value(c: char) -> Option<nat> {
    if c == '0' {
        Some(0)
    } else if c == '1' {
        Some(1)
    } else if c == '2' {
        Some(2)
    } else if c == '3' {
        Some(3)
    } else if c == '4' {
        Some(4)
    } else if c == '5' {
        Some(5)
    } else if c == '6' {
        Some(6)
    } else if c == '7' {
        Some(7)
    } else if c == '8' {
        Some(8)
    } else if c == '9' {
        Some(9)
    } else {
        None
    }
}

/// The number that the digits `text` stand for; nothing where `text` holds
/// anything but digits. No digits stand for zero.
pub open spec fn number_of(text: Seq<char>) -> Option<nat>
    decreases text.len(),
{
    if text.len() == 0 {
        Some(0)
    } else {
        match (number_of(text.drop_last()), digit_value(text.last())) {
            (Some(rest), Some(digit)) => Some(rest * 10 + digit),
            _ => None,
        }
    }
}

/// The number that `text` stands for under the sign `positive`, where it
/// is one or more digits and the number fits.
pub open spec fn integer_of(text: Seq<char>, positive: bool) -> Option<int> {
    if text.len() == 0 {
        None
    } else {
        match number_of(text) {
            Some(magnitude) => if magnitude <= i64::MAX {
                Some(
                    if positive {
                        magnitude as int
                    } else {
                        -(magnitude as int)
                    },
                )
            } else {
                None
            },
            None => None,
        }
    }
}

/// The sort that the solver writes as `input`.
pub fn parse_type(input: &str) -> (r: Sort)
    ensures
        r@ == sort_named(input@),
{
    let text = String::from_str(input);
    if text == String::from_str("Bool") {
        Sort::Bool
    } else if text == String::from_str("Int") {
        Sort::Int
    } else if text == String::from_str("Real") {
        Sort::Real
    } else {
        Sort::Uninterpreted { name: IdentSymbol(text) }
    }
}

fn digit_of(c: char) -> (r: Option<u64>)
    ensures
        match r {
            Some(value) => digit_value(c) == Some(value as nat) && value < 10,
            None => digit_value(c) is None,
        },
{
    if c == '0' {
        Some(0)
    } else if c == '1' {
        Some(1)
    } else if c == '2' {
        Some(2)
    } else if c == '3' {
        Some(3)
    } else if c == '4' {
        Some(4)
    } else if c == '5' {
        Some(5)
    } else if c == '6' {
        Some(6)
    } else if c == '7' {
        Some(7)
    } else if c == '8' {
        Some(8)
    } else if c == '9' {
        Some(9)
    } else {
        None
    }
}

pub proof fn lemma_number_grows(text: Seq<char>, k: int)
    requires
        0 <= k <= text.len(),
        number_of(text) is Some,
    ensures
        number_of(text.take(k)) is Some,
        number_of(text.take(k))->0 <= number_of(text)->0,
    decreases text.len() - k,
{
    if k < text.len() {
        lemma_number_grows(text, k + 1);
        assert(text.take(k + 1).drop_last() =~= text.take(k));
    } else {
        assert(text.take(k) =~= text);
    }
}

pub proof fn lemma_number_fails(text: Seq<char>, k: int)
    requires
        0 <= k <= text.len(),
        number_of(text.take(k)) is None,
    ensures
        number_of(text) is None,
    decreases text.len() - k,
{
    if k < text.len() {
        assert(text.take(k + 1).drop_last() =~= text.take(k));
        lemma_number_fails(text, k + 1);
    } else {
        assert(text.take(k) =~= text);
    }
}

/// The number that the digits `input` stand for, negated unless `positive`.
pub fn parse_int(input: &str, positive: bool) -> (r: Option<i64>)
    ensures
        match r {
            Some(value) => integer_of(input@, positive) == Some(value as int),
            None => integer_of(input@, positive) is None,
        },
{
    let length = input.unicode_len();
    if length == 0 {
        return None;
    }
    let mut magnitude: u64 = 0;
    let mut i: usize = 0;
    while i < length
        invariant
            i <= length,
            length == input@.len(),
            number_of(input@.take(i as int)) == Some(magnitude as nat),
            magnitude <= i64::MAX,
        decreases length - i,
    {
        let c = input.get_char(i);
        proof {
            assert(input@.take(i + 1).drop_last() =~= input@.take(i as int));
        }
        let digit = match digit_of(c) {
            Some(digit) => digit,
            None => {
                proof {
                    lemma_number_fails(input@, i + 1);
                }
                return None;
            },
        };
        if magnitude > (i64::MAX as u64 - digit) / 10 {
            proof {
                if number_of(input@) is Some {
                    lemma_number_grows(input@, i + 1);
                }
            }
            return None;
        }
        magnitude = magnitude * 10 + digit;
        i += 1;
    }
    assert(input@.take(i as int) =~= input@);
    if positive {
        Some(magnitude as i64)
    } else {
        Some(-(magnitude as i64))
    }
}

impl Sort {
    /// Whether the values of the sort can be read from a model: those of
    /// `Bool` and `Int` can.
    pub fn is_supported_in_models(&self) -> (r: bool)
        ensures
            r == (self@ == SortView::Bool || self@ == SortView::Int),
    {
        match self {
            Sort::Bool => true,
            Sort::Int => true,
            _ => false,
        }
    }
}

/// Whether `c` stands between two words: a blank, a bracket or the end of a
/// line.
pub open spec fn is_separator(c: char) -> bool {
    c == ' ' || c == '(' || c == ')' || c == '\n' || c == '\t' || c == '\r'
}

/// What is known after some characters of a text were read: the words that
/// have ended, and where the word begins that has not.
pub struct WordsState {
    pub words: Seq<Seq<char>>,
    pub start: int,
}

/// The state after the first `k` characters of `text`.
pub open spec fn words_upto(text: Seq<char>, k: int) -> WordsState
    decreases k,
{
    if k <= 0 {
        WordsState { words: Seq::empty(), start: 0 }
    } else {
        let s = words_upto(text, k - 1);
        if is_separator(text[k - 1]) {
            WordsState {
                words: if s.start < k - 1 {
                    s.words.push(text.subrange(s.start, k - 1))
                } else {
                    s.words
                },
                start: k,
            }
        } else {
            s
        }
    }
}

/// The words of `text`: what stands between its separators.
pub open spec fn words_of(text: Seq<char>) -> Seq<Seq<char>> {
    let s = words_upto(text, text.len() as int);
    if s.start < text.len() {
        s.words.push(text.subrange(s.start, text.len() as int))
    } else {
        s.words
    }
}

/// The names of `symbols`, in order.
pub open spec fn symbol_names(symbols: Seq<IdentSymbol>) -> Seq<Seq<char>> {
    Seq::new(symbols.len(), |i: int| symbols[i]@)
}

fn is_separator_char(c: char) -> (r: bool)
    ensures
        r == is_separator(c),
{
    c == ' ' || c == '(' || c == ')' || c == '\n' || c == '\t' || c == '\r'
}

/// The words of `input`.
pub fn split_words(input: &str) -> (r: Vec<IdentSymbol>)
    ensures
        symbol_names(r@) == words_of(input@),
{
    let length = input.unicode_len();
    let mut words: Vec<IdentSymbol> = Vec::new();
    let mut start: usize = 0;
    let mut i: usize = 0;
    assert(symbol_names(words@) =~= Seq::<Seq<char>>::empty());
    while i < length
        invariant
            i <= length,
            length == input@.len(),
            start <= i,
            (WordsState { words: symbol_names(words@), start: start as int }) == words_upto(
                input@,
                i as int,
            ),
        decreases length - i,
    {
        let c = input.get_char(i);
        if is_separator_char(c) {
            if start < i {
                let ghost before = symbol_names(words@);
                let word = IdentSymbol::new(input.substring_char(start, i));
                words.push(word);
                assert(symbol_names(words@) =~= before.push(input@.subrange(start as int, i as int)));
            }
            start = i + 1;
        }
        i += 1;
    }
    if start < length {
        let word = IdentSymbol::new(input.substring_char(start, length));
        words.push(word);
    }
    words
}

/// The labels that the answer `input` of the solver lists: its words after
/// the first, which is `labels`. Nothing where the first word is another.
pub fn parse_labels(input: &str) -> (r: Option<Vec<IdentSymbol>>)
    ensures
        match r {
            Some(labels) => words_of(input@).len() > 0 && words_of(input@)[0] == "labels"@
                && symbol_names(labels@) == words_of(input@).drop_first(),
            None => words_of(input@).len() == 0 || words_of(input@)[0] != "labels"@,
        },
{
    let mut words = split_words(input);
    if words.len() == 0 {
        return None;
    }
    if words[0].0 != String::from_str("labels") {
        return None;
    }
    words.remove(0);
    Some(words)
}

} // verus!
