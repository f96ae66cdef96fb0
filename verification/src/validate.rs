//! The semantic validator: rejects definitions with zero flattened rules,
//! and enforces key-uniqueness of (initial_state, input) pairs across all
//! flattened rules. A second rule mapping an already mapped key is reported
//! as a conflict rather than silently letting one rule override the other;
//! determinism of the compiled functions rests on this pass.

use vstd::prelude::*;

use crate::ast::Transition;
use crate::error::CompileError;
use crate::table::{same_key, unique_keys};

verus! {

/// Whether rules `j` and `k` are the first conflicting pair of the
/// sequence: the earliest rule `k` that repeats an already mapped key,
/// paired with the earliest earlier rule `j` mapping that key.
pub open spec fn is_first_conflict(rules: Seq<Transition>, j: int, k: int) -> bool {
    &&& 0 <= j < k < rules.len()
    &&& same_key(rules[j], rules[k])
    &&& forall|j2: int, k2: int| 0 <= j2 < k2 < k ==> !same_key(rules[j2], rules[k2])
    &&& forall|j2: int| 0 <= j2 < j ==> !same_key(rules[j2], rules[k])
}

/// Validates the flattened rules of a definition: fails with
/// [`CompileError::EmptySpecError`] when there are no rules at all, and
/// with [`CompileError::ConflictingTransitionError`] carrying the first
/// conflicting pair when two rules share a (initial_state, input) key.
/// Succeeds exactly on a non-empty sequence of rules with unique keys.
pub fn validate(rules: &Vec<Transition>) -> (r: Result<(), CompileError>)
    ensures
        r is Ok <==> rules@.len() > 0 && unique_keys(rules@),
        rules@.len() == 0 ==> r == Err::<(), CompileError>(CompileError::EmptySpecError),
        rules@.len() > 0 && !unique_keys(rules@) ==> (match r {
            Err(CompileError::ConflictingTransitionError { first, second }) => exists|j: int, k: int|
                is_first_conflict(rules@, j, k) && first == rules@[j] && second == rules@[k],
            _ => false,
        }),
{
    if rules.len() == 0 {
        return Err(CompileError::EmptySpecError);
    }
    let mut k: usize = 0;
    while k < rules.len()
        invariant
            k <= rules@.len(),
            forall|j2: int, k2: int| 0 <= j2 < k2 < k ==> !same_key(rules@[j2], rules@[k2]),
        decreases rules@.len() - k,
    {
        let mut j: usize = 0;
        while j < k
            invariant
                j <= k < rules@.len(),
                forall|j2: int, k2: int| 0 <= j2 < k2 < k ==> !same_key(rules@[j2], rules@[k2]),
                forall|j2: int| 0 <= j2 < j ==> !same_key(rules@[j2], rules@[k as int]),
            decreases k - j,
        {
            if rules[j].initial_state == rules[k].initial_state && rules[j].input_value
                == rules[k].input_value {
                assert(is_first_conflict(rules@, j as int, k as int));
                return Err(
                    CompileError::ConflictingTransitionError {
                        first: rules[j].duplicate(),
                        second: rules[k].duplicate(),
                    },
                );
            }
            j += 1;
        }
        k += 1;
    }
    Ok(())
}

} // verus!
