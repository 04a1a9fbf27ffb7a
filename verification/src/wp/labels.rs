//! The labels of a program in the order in which control passes them.
//!
//! The labels of the statements are listed block by block in the order of
//! the forward walk, and within a block in the order of the statements. The
//! number of a label is its position in that list; of a label that stands
//! more than once, the last position. A set of labels is kept as the rising
//! list of its numbers.

use crate::common::cfg::{graph_of, walk_order, well_formed, Cfg};
use crate::common::expression::Name;
use crate::common::statement::StatementView;
use crate::context::Context;
use crate::errors::{SvirptiError, SvirptiErrorKind, SvirptiResult};
use crate::low;
use crate::low::program::ProgramView;
use crate::lower::versions::last_index_below;
use crate::smt;
use vstd::prelude::*;

verus! {

/// The labels of a program, in order.
#[derive(Debug)]
pub struct LabelOrder {
    pub labels: Vec<smt::LabelSymbol>,
}

/// The names of `labels`, in order.
pub open spec fn names_of(labels: Seq<smt::LabelSymbol>) -> Seq<Name> {
    Seq::new(labels.len(), |i: int| labels[i]@)
}

/// The number of the label `label`; -1 where `names` does not hold it.
pub open spec fn label_id(names: Seq<Name>, label: Name) -> int {
    last_index_below(names, label, names.len() as int)
}

/// `labels` with the labels of the first `k` of `statements` after them.
pub open spec fn statement_labels<C: Context>(
    labels: Seq<Name>,
    statements: Seq<StatementView>,
    k: int,
) -> Seq<Name>
    decreases k,
{
    if k <= 0 {
        labels
    } else {
        let rest = statement_labels::<C>(labels, statements, k - 1);
        match statements[k - 1].label() {
            Some(label) => rest.push(C::smt_label_name(label)),
            None => rest,
        }
    }
}

/// The labels of the first `k` blocks of `order`.
pub open spec fn labels_along<C: Context>(p: ProgramView, order: Seq<usize>, k: int) -> Seq<Name>
    decreases k,
{
    if k <= 0 {
        Seq::empty()
    } else {
        let block = p.blocks[order[k - 1] as int];
        statement_labels::<C>(
            labels_along::<C>(p, order, k - 1),
            block.statements,
            block.statements.len() as int,
        )
    }
}

/// The labels of `p` in the order in which control passes them.
pub open spec fn all_labels<C: Context>(p: ProgramView) -> Seq<Name> {
    labels_along::<C>(p, walk_order(p.graph()), walk_order(p.graph()).len() as int)
}

/// `s` rises from each member to the next.
pub open spec fn increasing(s: Seq<usize>) -> bool {
    forall|i: int, j: int| 0 <= i < j < s.len() ==> s[i] < s[j]
}

/// The rising list `s` with `x` in its place, once.
pub open spec fn with_member(s: Seq<usize>, x: usize) -> Seq<usize>
    decreases s.len(),
{
    if s.len() == 0 {
        seq![x]
    } else if s.last() < x {
        s.push(x)
    } else if s.last() == x {
        s
    } else {
        with_member(s.drop_last(), x).push(s.last())
    }
}

/// The rising list of the numbers of the first `k` of `labels`.
pub open spec fn numbers_of(names: Seq<Name>, labels: Seq<Name>, k: int) -> Seq<usize>
    decreases k,
{
    if k <= 0 {
        Seq::empty()
    } else {
        with_member(numbers_of(names, labels, k - 1), number_at(names, labels, k - 1))
    }
}

/// The number of the label at `i` of `labels`.
pub open spec fn number_at(names: Seq<Name>, labels: Seq<Name>, i: int) -> usize {
    #[verifier::truncate]
    (label_id(names, labels[i]) as usize)
}

/// Whether `names` holds each of `labels`.
pub open spec fn all_known(names: Seq<Name>, labels: Seq<Name>) -> bool {
    forall|k: int| 0 <= k < labels.len() ==> label_id(names, #[trigger] labels[k]) >= 0
}

/// `error` reports a label that `names` does not hold.
pub open spec fn unknown_label_error(names: Seq<Name>, error: SvirptiError) -> bool {
    error.kind matches SvirptiErrorKind::UnknownLabel(label) && label_id(names, label@) < 0
}

/// The list that holds `x` has it in the place that the order gives it.
pub proof fn lemma_with_member(s: Seq<usize>, x: usize, at: int)
    requires
        increasing(s),
        0 <= at <= s.len(),
        forall|j: int| at <= j < s.len() ==> s[j] > x,
        at > 0 ==> s[at - 1] <= x,
    ensures
        at > 0 && s[at - 1] == x ==> with_member(s, x) == s,
        at == 0 || s[at - 1] < x ==> with_member(s, x) == s.insert(at, x),
    decreases s.len(),
{
    if s.len() > 0 && s.last() > x {
        lemma_with_member(s.drop_last(), x, at);
    }
}

/// The list that holds `x` rises, and it holds `x` and what it held.
pub proof fn lemma_with_member_rises(s: Seq<usize>, x: usize)
    requires
        increasing(s),
    ensures
        increasing(with_member(s, x)),
        forall|y: usize| with_member(s, x).contains(y) <==> (s.contains(y) || y == x),
{
    let at = lemma_place(s, x, s.len() as int);
    lemma_with_member(s, x, at);
    let r = with_member(s, x);
    if !(at > 0 && s[at - 1] == x) {
        assert forall|i: int, j: int| 0 <= i < j < r.len() implies r[i] < r[j] by {}
        assert forall|y: usize| r.contains(y) <==> (s.contains(y) || y == x) by {
            if s.contains(y) {
                let k = choose|k: int| 0 <= k < s.len() && s[k] == y;
                if k < at {
                    assert(r[k] == y);
                } else {
                    assert(r[k + 1] == y);
                }
            }
            if y == x {
                assert(r[at] == x);
            }
        }
    }
}

/// The numbers of a list of labels that the program has rise, and they are
/// the numbers of its labels and no others.
pub proof fn lemma_numbers_of(names: Seq<Name>, labels: Seq<Name>, k: int)
    requires
        0 <= k <= labels.len(),
        names.len() <= usize::MAX,
    ensures
        increasing(numbers_of(names, labels, k)),
        forall|y: usize|
            numbers_of(names, labels, k).contains(y) <==> exists|i: int|
                0 <= i < k && #[trigger] number_at(names, labels, i) == y,
    decreases k,
{
    if k > 0 {
        lemma_numbers_of(names, labels, k - 1);
        let s = numbers_of(names, labels, k - 1);
        let x = number_at(names, labels, k - 1);
        lemma_with_member_rises(s, x);
        let r = numbers_of(names, labels, k);
        assert forall|y: usize| r.contains(y) implies exists|i: int|
            0 <= i < k && #[trigger] number_at(names, labels, i) == y by {
            if !(y == x) {
                assert(s.contains(y));
            }
        }
        assert forall|y: usize|
            (exists|i: int| 0 <= i < k && #[trigger] number_at(names, labels, i) == y)
                implies r.contains(y) by {
            let i = choose|i: int| 0 <= i < k && #[trigger] number_at(names, labels, i) == y;
            if i < k - 1 {
                assert(s.contains(y));
            } else {
                assert(y == x);
            }
        }
    } else {
        assert forall|y: usize| !numbers_of(names, labels, k).contains(y) by {}
    }
}

/// The place of `x` in the rising list `s`, looked for from `from` down.
pub proof fn lemma_place(s: Seq<usize>, x: usize, from: int) -> (at: int)
    requires
        increasing(s),
        0 <= from <= s.len(),
        forall|j: int| from <= j < s.len() ==> s[j] > x,
    ensures
        0 <= at <= from,
        forall|j: int| at <= j < s.len() ==> s[j] > x,
        at > 0 ==> s[at - 1] <= x,
    decreases from,
{
    if from > 0 && s[from - 1] > x {
        lemma_place(s, x, from - 1)
    } else {
        from
    }
}

impl LabelOrder {
    /// The names of the labels, in order.
    pub open spec fn names(&self) -> Seq<Name> {
        names_of(self.labels@)
    }

    /// The labels of `program` in the order in which control passes them.
    pub fn new<C: Context>(program: &low::ProgramFragment, context: &C) -> (r: LabelOrder)
        requires
            well_formed(program@.graph()),
        ensures
            r.names() == all_labels::<C>(program@),
    {
        let ghost p = program@;
        let ghost order = walk_order(p.graph());
        assert(graph_of(program.basic_blocks@) =~= p.graph());
        let mut labels: Vec<smt::LabelSymbol> = Vec::new();
        let mut walker = program.walk();
        loop
            invariant
                p == program@,
                order == walk_order(p.graph()),
                p.graph() == graph_of(program.basic_blocks@),
                walker.wf(),
                walker.blocks() == program.basic_blocks@,
                walker.yielded().len() <= order.len(),
                names_of(labels@) == labels_along::<C>(p, order, walker.yielded().len() as int),
            ensures
                walker.yielded() == order,
            decreases order.len() - walker.yielded().len(),
        {
            match walker.next() {
                Some((id, block)) => {
                    let ghost first = names_of(labels@);
                    let ghost statements = p.blocks[id as int].statements;
                    let mut j: usize = 0;
                    while j < block.statements.len()
                        invariant
                            j <= block.statements@.len(),
                            statements == low::statement::statements_of(block.statements@),
                            names_of(labels@) == statement_labels::<C>(first, statements, j as int),
                        decreases block.statements@.len() - j,
                    {
                        if let Some(label) = block.statements[j].get_label() {
                            let name = context.convert_known_label_name_to_smt(label);
                            labels.push(name);
                        }
                        j += 1;
                    }
                },
                None => {
                    break ;
                },
            }
        }
        LabelOrder { labels }
    }

    /// The number of `label`, if the program has it.
    pub fn id_of(&self, label: &smt::LabelSymbol) -> (r: Option<usize>)
        ensures
            match r {
                Some(id) => id == label_id(self.names(), label@) && id < self.labels@.len(),
                None => label_id(self.names(), label@) == -1,
            },
    {
        let ghost names = self.names();
        let mut i: usize = self.labels.len();
        while i > 0
            invariant
                i <= self.labels@.len(),
                names == self.names(),
                label_id(names, label@) == last_index_below(names, label@, i as int),
            decreases i,
        {
            if self.labels[i - 1] == *label {
                return Some(i - 1);
            }
            i -= 1;
        }
        None
    }

    /// The rising list of the numbers of `labels`, or an error that names one
    /// of them that the program does not have.
    pub fn numbers(&self, labels: &Vec<smt::LabelSymbol>) -> (r: SvirptiResult<Vec<usize>>)
        ensures
            match r {
                Ok(numbers) => {
                    &&& all_known(self.names(), names_of(labels@))
                    &&& numbers@ == numbers_of(
                        self.names(),
                        names_of(labels@),
                        labels@.len() as int,
                    )
                    &&& increasing(numbers@)
                    &&& forall|i: int|
                        0 <= i < numbers@.len() ==> (#[trigger] numbers@[i]) < self.labels@.len()
                },
                Err(error) => !all_known(self.names(), names_of(labels@)) && unknown_label_error(
                    self.names(),
                    error,
                ),
            },
    {
        let ghost names = self.names();
        let ghost wanted = names_of(labels@);
        let mut numbers: Vec<usize> = Vec::new();
        let mut k: usize = 0;
        while k < labels.len()
            invariant
                k <= labels@.len(),
                names == self.names(),
                wanted == names_of(labels@),
                forall|i: int| 0 <= i < k ==> label_id(names, #[trigger] wanted[i]) >= 0,
                numbers@ == numbers_of(names, wanted, k as int),
                increasing(numbers@),
                forall|i: int|
                    0 <= i < numbers@.len() ==> (#[trigger] numbers@[i]) < self.labels@.len(),
            decreases labels@.len() - k,
        {
            assert(wanted[k as int] == labels@[k as int]@);
            let id = match self.id_of(&labels[k]) {
                Some(id) => id,
                None => {
                    return Err(
                        SvirptiError { kind: SvirptiErrorKind::UnknownLabel(labels[k].clone()) },
                    );
                },
            };
            let ghost before = numbers@;
            let mut at: usize = numbers.len();
            while at > 0 && numbers[at - 1] > id
                invariant
                    at <= numbers@.len(),
                    forall|j: int| at <= j < numbers@.len() ==> numbers@[j] > id,
                decreases at,
            {
                at -= 1;
            }
            proof {
                lemma_with_member(before, id, at as int);
            }
            if at == 0 || numbers[at - 1] < id {
                numbers.insert(at, id);
            }
            k += 1;
        }
        Ok(numbers)
    }
}

} // verus!
