//! The versions of the variables of a procedure.
//!
//! A procedure declares its variables in a list, and a variable is found by
//! its name: the first declaration of a name is the one that counts. The
//! versions are kept in a list beside the declarations, one number for each.

use crate::common::expression::{Name, Renaming};
use crate::common::statement::VariableDeclView;
use crate::context::Context;
use crate::high;
use vstd::prelude::*;

verus! {

/// The names of the declarations of `decls`, in order.
pub open spec fn names_of(decls: Seq<VariableDeclView>) -> Seq<Name> {
    Seq::new(decls.len(), |i: int| decls[i].name)
}

/// The first position at or after `i` at which `names` holds `x`; the length
/// of `names` where there is none.
pub open spec fn index_from(names: Seq<Name>, x: Name, i: int) -> int
    decreases names.len() - i,
{
    if i >= names.len() {
        names.len() as int
    } else if i >= 0 && names[i] == x {
        i
    } else {
        index_from(names, x, i + 1)
    }
}

/// The position of the first declaration of `x`; the number of declarations
/// where `x` is not declared.
pub open spec fn index_of(names: Seq<Name>, x: Name) -> int {
    index_from(names, x, 0)
}

/// Whether `x` is declared.
pub open spec fn declared(names: Seq<Name>, x: Name) -> bool {
    index_of(names, x) < names.len()
}

/// The declared names.
pub open spec fn known(names: Seq<Name>) -> Set<Name> {
    Set::new(|x: Name| declared(names, x))
}

/// The last position below `upto` at which `names` holds `x`; -1 where there
/// is none.
pub open spec fn last_index_below(names: Seq<Name>, x: Name, upto: int) -> int
    decreases upto,
{
    if upto <= 0 {
        -1
    } else if upto <= names.len() && names[upto - 1] == x {
        upto - 1
    } else {
        last_index_below(names, x, upto - 1)
    }
}

/// The version of `x` in `versions`.
pub open spec fn version_of(names: Seq<Name>, versions: Seq<usize>, x: Name) -> usize {
    versions[index_of(names, x)]
}

/// How an expression is renamed when it is read while the variables have the
/// versions `versions`: a variable becomes its current version, functions and
/// sorts keep their names.
pub open spec fn reading<C: Context>(names: Seq<Name>, versions: Seq<usize>) -> Renaming {
    Renaming {
        variable: |x: Name| C::versioned_name(x, version_of(names, versions, x) as nat),
        function: |f: Name| f,
        sort: |s: Name| s,
    }
}

pub proof fn lemma_index_from(names: Seq<Name>, x: Name, i: int)
    requires
        0 <= i <= names.len(),
    ensures
        i <= index_from(names, x, i) <= names.len(),
        index_from(names, x, i) < names.len() ==> names[index_from(names, x, i)] == x,
        forall|j: int| i <= j < index_from(names, x, i) ==> names[j] != x,
    decreases names.len() - i,
{
    if i < names.len() && names[i] != x {
        lemma_index_from(names, x, i + 1);
    }
}

/// The position of the first declaration of `name` among `variables`, if it
/// is declared.
pub fn find_variable(variables: &Vec<high::VariableDeclaration>, name: &high::VariableSymbol) -> (r:
    Option<usize>)
    ensures
        match r {
            Some(i) => i == index_of(names_of(high::declaration::declarations_of(variables@)), name@)
                && i < variables@.len(),
            None => !declared(names_of(high::declaration::declarations_of(variables@)), name@),
        },
{
    let ghost names = names_of(high::declaration::declarations_of(variables@));
    proof {
        lemma_index_from(names, name@, 0);
    }
    let mut i: usize = 0;
    while i < variables.len()
        invariant
            i <= variables@.len(),
            names == names_of(high::declaration::declarations_of(variables@)),
            forall|j: int| 0 <= j < i ==> names[j] != name@,
            0 <= index_of(names, name@) <= names.len(),
            index_of(names, name@) < names.len() ==> names[index_of(names, name@)] == name@,
            forall|j: int| 0 <= j < index_of(names, name@) ==> names[j] != name@,
        decreases variables@.len() - i,
    {
        if variables[i].name == *name {
            assert(names[i as int] == name@);
            return Some(i);
        }
        i += 1;
    }
    None
}

/// The position of the last declaration of `name` among `variables`, if it
/// is declared.
pub fn find_last_variable(
    variables: &Vec<high::VariableDeclaration>,
    name: &high::VariableSymbol,
) -> (r: Option<usize>)
    ensures
        match r {
            Some(i) => i == last_index_below(
                names_of(high::declaration::declarations_of(variables@)),
                name@,
                variables@.len() as int,
            ),
            None => last_index_below(
                names_of(high::declaration::declarations_of(variables@)),
                name@,
                variables@.len() as int,
            ) == -1,
        },
{
    let ghost names = names_of(high::declaration::declarations_of(variables@));
    let mut i: usize = variables.len();
    while i > 0
        invariant
            i <= variables@.len(),
            names == names_of(high::declaration::declarations_of(variables@)),
            last_index_below(names, name@, variables@.len() as int) == last_index_below(
                names,
                name@,
                i as int,
            ),
        decreases i,
    {
        if variables[i - 1].name == *name {
            assert(names[i - 1] == name@);
            return Some(i - 1);
        }
        i -= 1;
    }
    None
}

} // verus!
