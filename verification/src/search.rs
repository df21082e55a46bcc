//! From the errors of a bulk evaluation to the best candidate.

use vstd::prelude::*;
use crate::bits::F32;
use crate::buffer::{all_written, results_of, written};
use crate::error::{FitError, InputFault};
use crate::partition::Block;
use crate::select::{
    lemma_select_deterministic, results_complete, select, selects, EvaluationResult, FitResult,
};
use crate::space::SearchSpace;

verus! {

/// The result array that `errors` stand for, when `errors[i]` is the error
/// of the candidate with flat index `i`: every error saturated, every
/// candidate at its own position.
pub open spec fn results_from(errors: Seq<F32>) -> Seq<EvaluationResult> {
    Seq::new(
        errors.len(),
        |i: int| EvaluationResult { candidate_index: i as u32, error: errors[i].saturated() },
    )
}

/// The result array of a search over `space` whose workers found `errors`;
/// there is none unless `errors` has one entry per candidate.
pub fn collect(space: &SearchSpace, errors: &Vec<F32>) -> (r: Result<
    Vec<EvaluationResult>,
    FitError,
>)
    ensures
        match r {
            Ok(results) => {
                &&& errors@.len() == space.total_spec()
                &&& results@ == results_from(errors@)
                &&& results_complete(*space, results@)
            },
            Err(e) => {
                &&& errors@.len() != space.total_spec()
                &&& e == FitError::InvalidInput(
                    InputFault::ResultCount {
                        expected: space.total_spec() as u32,
                        actual: errors@.len() as usize,
                    },
                )
            },
        },
{
    let total = space.total();
    if errors.len() != total as usize {
        return Err(
            FitError::InvalidInput(
                InputFault::ResultCount { expected: total, actual: errors.len() },
            ),
        );
    }
    let mut results: Vec<EvaluationResult> = Vec::new();
    let mut i: u32 = 0;
    while i < total
        invariant
            i <= total,
            errors.len() == total,
            results@ == results_from(errors@.take(i as int)),
        decreases total - i,
    {
        results.push(
            EvaluationResult { candidate_index: i, error: errors[i as usize].saturate() },
        );
        proof {
            assert(results@ =~= results_from(errors@.take(i + 1)));
        }
        i += 1;
    }
    proof {
        assert(errors@.take(total as int) =~= errors@);
    }
    Ok(results)
}

/// Every slot that is written holds the error of its own candidate,
/// saturated.
pub open spec fn agrees(slots: Seq<Option<F32>>, errors: Seq<F32>) -> bool {
    &&& slots.len() == errors.len()
    &&& forall|i: int|
        0 <= i < slots.len() && (#[trigger] slots[i]) is Some ==> slots[i] == Some(
            errors[i].saturated(),
        )
}

/// A buffer stays in agreement with the errors of the candidates when a
/// worker writes the errors of its own block, whichever block that is and
/// whatever was written before. An empty buffer agrees with any errors.
pub proof fn lemma_write_keeps_agreement(slots: Seq<Option<F32>>, errors: Seq<F32>, block: Block)
    requires
        agrees(slots, errors),
        block.first + block.count <= slots.len(),
    ensures
        agrees(
            written(slots, block, errors.subrange(block.first as int, block.first + block.count)),
            errors,
        ),
        agrees(Seq::new(errors.len(), |i: int| None::<F32>), errors),
{
}

/// A full buffer in agreement with the errors of the candidates holds the
/// result array of [`collect`]: the results do not depend on how the
/// candidates were split among the workers, nor on the order in which the
/// workers finished.
pub proof fn lemma_full_buffer_is_collect(slots: Seq<Option<F32>>, errors: Seq<F32>)
    requires
        agrees(slots, errors),
        all_written(slots),
    ensures
        results_of(slots) == results_from(errors),
{
    assert(results_of(slots) =~= results_from(errors));
}

/// Two searches of the same space whose workers found the same errors
/// report the same best candidate with the same error, bit for bit, however
/// each search was split and scheduled.
pub proof fn lemma_search_deterministic(
    space: SearchSpace,
    errors: Seq<F32>,
    first_slots: Seq<Option<F32>>,
    second_slots: Seq<Option<F32>>,
    first: FitResult,
    second: FitResult,
)
    requires
        agrees(first_slots, errors),
        agrees(second_slots, errors),
        all_written(first_slots),
        all_written(second_slots),
        selects(space, results_of(first_slots), first),
        selects(space, results_of(second_slots), second),
    ensures
        first.candidate_index == second.candidate_index,
        first.min_error == second.min_error,
        first.offsets@ == second.offsets@,
{
    lemma_full_buffer_is_collect(first_slots, errors);
    lemma_full_buffer_is_collect(second_slots, errors);
    lemma_select_deterministic(space, results_from(errors), first, second);
}

/// The best candidate of `space`, given the error of every candidate in the
/// order of the flat index.
pub fn fit(space: &SearchSpace, errors: &Vec<F32>) -> (r: Result<FitResult, FitError>)
    ensures
        space.valid(),
        match r {
            Ok(best) => {
                &&& errors@.len() == space.total_spec()
                &&& selects(*space, results_from(errors@), best)
            },
            Err(e) => {
                &&& errors@.len() != space.total_spec()
                &&& e == FitError::InvalidInput(
                    InputFault::ResultCount {
                        expected: space.total_spec() as u32,
                        actual: errors@.len() as usize,
                    },
                )
            },
        },
{
    let total = space.total();
    let results = match collect(space, errors) {
        Ok(results) => results,
        Err(e) => {
            return Err(e);
        },
    };
    match select(space, &results) {
        Some(best) => Ok(best),
        None => Err(
            FitError::InvalidInput(InputFault::ResultCount { expected: total, actual: errors.len() }),
        ),
    }
}

} // verus!
