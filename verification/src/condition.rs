//! From a program to what the solver is asked about it.

use crate::common::cfg::well_formed;
use crate::context::Context;
use crate::errors::SvirptiResult;
use crate::high;
use crate::low;
use crate::lower::expression::reports;
use crate::lower::program::{
    first_undeclared, lower_program, lowered, procedure_reads_declared, valid,
};
use crate::smt;
use crate::high::program::ProcedureView;
use crate::lower::count::{lemma_lowered_graph, lemma_lowered_without_assertions, no_assertion};
use crate::wp::encode_wp::{encode, encoded};
use crate::wp::meaning::{lemma_without_assertions_unsatisfiable, satisfied, Valuation};
use vstd::prelude::*;

verus! {

/// The lowered program and its verification condition: `program` verifies
/// exactly if the solver finds the assertions of the condition
/// unsatisfiable.
pub fn verification_condition<C: Context>(context: &mut C, program: &high::ProgramFragment) -> (r:
    SvirptiResult<(low::ProgramFragment, smt::Query)>)
    requires
        valid(program.procedure@),
    ensures
        match r {
            Ok((lowered_program, query)) => {
                &&& procedure_reads_declared(program.procedure@)
                &&& lowered_program@ == lowered::<C>(program.procedure@)
                &&& well_formed(lowered_program@.graph())
                &&& query@ == encoded::<C>(lowered_program@)
                &&& query.declarations.sorts@.len() == 0
                &&& query.declarations.functions@.len() == 0
            },
            Err(error) => first_undeclared(program.procedure@) is Some && reports(
                error,
                first_undeclared(program.procedure@)->0,
            ),
        },
{
    let lowered_program = match lower_program(program, context) {
        Ok(lowered_program) => lowered_program,
        Err(error) => {
            return Err(error);
        },
    };
    match encode(&lowered_program, context) {
        Ok(query) => Ok((lowered_program, query)),
        Err(error) => Err(error),
    }
}

/// A program without assertions cannot fail: its verification condition
/// cannot be satisfied, whatever is made of its atoms. Where the equalities
/// of its blocks hold, its last assertion does not.
pub proof fn lemma_without_assertions_verifies<C: Context>(p: ProcedureView, v: Valuation)
    requires
        well_formed(p.graph()),
        forall|b: int| 0 <= b < p.blocks.len() ==> no_assertion((#[trigger] p.blocks[b]).statements),
        forall|i: int|
            0 <= i < p.blocks.len() ==> satisfied(
                #[trigger] encoded::<C>(lowered::<C>(p)).assertions[i],
                v,
            ),
    ensures
        !satisfied(encoded::<C>(lowered::<C>(p)).assertions.last(), v),
{
    let low = lowered::<C>(p);
    lemma_lowered_graph::<C>(p);
    lemma_lowered_without_assertions::<C>(p);
    lemma_without_assertions_unsatisfiable::<C>(low, v);
}

} // verus!
