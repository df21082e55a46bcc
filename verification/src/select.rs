//! The reduction: from the evaluated errors to the best candidate.
//!
//! An error counts as its saturated value, so a NaN or an infinity ranks with
//! the largest finite error and is never reported as the minimum in its own
//! form. Among equal errors the lowest flat index wins.

use vstd::prelude::*;
use crate::bits::F32;
use crate::radix::decode;
use crate::space::{offsets_of, SearchSpace};

verus! {

/// The error of one candidate.
#[derive(Clone, Copy, Debug, PartialEq, Eq, Structural)]
pub struct EvaluationResult {
    pub candidate_index: u32,
    pub error: F32,
}

/// The best candidate of a search space: its flat index, its grid offset on
/// each axis, and its error. The parameter value on an axis is the axis
/// minimum plus the offset times the axis step.
#[derive(Clone, Debug, PartialEq, Eq)]
pub struct FitResult {
    pub candidate_index: u32,
    pub offsets: Vec<u32>,
    pub min_error: F32,
}

/// What an error counts as when errors are ranked.
pub open spec fn cost(error: F32) -> int {
    error.saturated().rank()
}

/// `w` is the position of the winner: no error is below the one at `w`, and
/// every error before `w` is above it.
pub open spec fn is_best(errors: Seq<F32>, w: int) -> bool {
    &&& 0 <= w < errors.len()
    &&& forall|j: int| 0 <= j < errors.len() ==> cost(errors[w]) <= cost(#[trigger] errors[j])
    &&& forall|j: int| 0 <= j < w ==> cost(errors[w]) < cost(#[trigger] errors[j])
}

/// The smallest cost among the errors; the sequence is not empty.
pub open spec fn min_cost(errors: Seq<F32>) -> int
    recommends
        errors.len() > 0,
    decreases errors.len(),
{
    if errors.len() <= 1 {
        cost(errors[0])
    } else {
        let rest = min_cost(errors.drop_last());
        if cost(errors.last()) < rest {
            cost(errors.last())
        } else {
            rest
        }
    }
}

/// The errors of a result array, by position.
pub open spec fn errors_of(results: Seq<EvaluationResult>) -> Seq<F32> {
    Seq::new(results.len(), |i: int| results[i].error)
}

/// The array holds one result per candidate of the space, each at the
/// position of its flat index.
pub open spec fn results_complete(space: SearchSpace, results: Seq<EvaluationResult>) -> bool {
    &&& results.len() == space.total_spec()
    &&& forall|i: int| 0 <= i < results.len() ==> (#[trigger] results[i]).candidate_index == i
}

/// `fit` is what the reduction of `results` over `space` reports.
pub open spec fn selects(
    space: SearchSpace,
    results: Seq<EvaluationResult>,
    fit: FitResult,
) -> bool {
    &&& is_best(errors_of(results), fit.candidate_index as int)
    &&& fit.min_error == results[fit.candidate_index as int].error.saturated()
    &&& offsets_of(fit.offsets@) == decode(space.resolutions(), fit.candidate_index as int)
}

/// In a complete result array every flat index of the space appears exactly
/// once, at its own position.
pub proof fn lemma_complete_is_exhaustive(
    space: SearchSpace,
    results: Seq<EvaluationResult>,
    index: int,
)
    requires
        results_complete(space, results),
        0 <= index < space.total_spec(),
    ensures
        results.len() == space.total_spec(),
        results[index].candidate_index == index,
        forall|p: int|
            0 <= p < results.len() && (#[trigger] results[p]).candidate_index == index ==> p
                == index,
{
}

/// The winner is unique.
pub proof fn lemma_best_unique(errors: Seq<F32>, a: int, b: int)
    requires
        is_best(errors, a),
        is_best(errors, b),
    ensures
        a == b,
{
    if a < b {
        assert(cost(errors[b]) < cost(errors[a]));
        assert(cost(errors[a]) <= cost(errors[b]));
    } else if b < a {
        assert(cost(errors[a]) < cost(errors[b]));
        assert(cost(errors[b]) <= cost(errors[a]));
    }
}

/// The winner has the smallest cost, and no error costs less.
pub proof fn lemma_best_is_min(errors: Seq<F32>, w: int)
    requires
        is_best(errors, w),
    ensures
        cost(errors[w]) == min_cost(errors),
        forall|j: int| 0 <= j < errors.len() ==> min_cost(errors) <= cost(#[trigger] errors[j]),
{
    lemma_min_cost(errors);
    let p = choose|p: int| 0 <= p < errors.len() && cost(errors[p]) == min_cost(errors);
    assert(cost(errors[w]) <= cost(errors[p]));
}

/// The smallest cost is the cost of some error and is above none.
pub proof fn lemma_min_cost(errors: Seq<F32>)
    requires
        errors.len() > 0,
    ensures
        exists|p: int| 0 <= p < errors.len() && cost(errors[p]) == min_cost(errors),
        forall|j: int| 0 <= j < errors.len() ==> min_cost(errors) <= cost(#[trigger] errors[j]),
    decreases errors.len(),
{
    if errors.len() <= 1 {
        assert(cost(errors[0]) == min_cost(errors));
    } else {
        let head = errors.drop_last();
        lemma_min_cost(head);
        let p = choose|p: int| 0 <= p < head.len() && cost(head[p]) == min_cost(head);
        assert(head[p] == errors[p]);
        if cost(errors.last()) < min_cost(head) {
            assert(cost(errors[errors.len() - 1]) == min_cost(errors));
        } else {
            assert(cost(errors[p]) == min_cost(errors));
        }
        assert forall|j: int| 0 <= j < errors.len() implies min_cost(errors) <= cost(
            #[trigger] errors[j],
        ) by {
            if j < head.len() {
                assert(head[j] == errors[j]);
            }
        }
    }
}

/// The position of the smallest error, the first one among equals; `None`
/// when there are no errors.
pub fn argmin(errors: &Vec<F32>) -> (r: Option<usize>)
    ensures
        match r {
            Some(w) => is_best(errors@, w as int),
            None => errors.len() == 0,
        },
{
    if errors.len() == 0 {
        return None;
    }
    let mut best: usize = 0;
    let mut best_key: i64 = errors[0].saturate().key();
    let mut i: usize = 1;
    while i < errors.len()
        invariant
            1 <= i <= errors.len(),
            best < i,
            best_key == cost(errors@[best as int]),
            forall|j: int| 0 <= j < i ==> best_key <= cost(#[trigger] errors@[j]),
            forall|j: int| 0 <= j < best ==> best_key < cost(#[trigger] errors@[j]),
        decreases errors.len() - i,
    {
        let key = errors[i].saturate().key();
        if key < best_key {
            best = i;
            best_key = key;
        }
        i += 1;
    }
    Some(best)
}

/// The best candidate of `space` according to `results`: the one with the
/// smallest error, the lowest flat index among equals. `None` unless
/// `results` holds one result per candidate, in the order of the flat index.
pub fn select(space: &SearchSpace, results: &Vec<EvaluationResult>) -> (r: Option<FitResult>)
    ensures
        match r {
            Some(fit) => results_complete(*space, results@) && selects(*space, results@, fit),
            None => !results_complete(*space, results@),
        },
{
    let total = space.total();
    if results.len() != total as usize {
        return None;
    }
    let mut best: u32 = 0;
    let mut best_key: i64 = results[0].error.saturate().key();
    if results[0].candidate_index != 0 {
        return None;
    }
    let ghost errors = errors_of(results@);
    let mut i: u32 = 1;
    while i < total
        invariant
            results.len() == total,
            1 <= i <= total,
            best < i,
            errors == errors_of(results@),
            best_key == cost(errors[best as int]),
            forall|j: int| 0 <= j < i ==> best_key <= cost(#[trigger] errors[j]),
            forall|j: int| 0 <= j < best ==> best_key < cost(#[trigger] errors[j]),
            forall|j: int| 0 <= j < i ==> (#[trigger] results@[j]).candidate_index == j,
        decreases total - i,
    {
        let entry = results[i as usize];
        if entry.candidate_index != i {
            return None;
        }
        let key = entry.error.saturate().key();
        if key < best_key {
            best = i;
            best_key = key;
        }
        i += 1;
    }
    let min_error = results[best as usize].error.saturate();
    match space.decode(best) {
        Some(offsets) => Some(FitResult { candidate_index: best, offsets, min_error }),
        None => None,
    }
}

/// Two reductions of the same results over the same space report the same
/// candidate, the same offsets and the same error.
pub proof fn lemma_select_deterministic(
    space: SearchSpace,
    results: Seq<EvaluationResult>,
    first: FitResult,
    second: FitResult,
)
    requires
        selects(space, results, first),
        selects(space, results, second),
    ensures
        first.candidate_index == second.candidate_index,
        first.min_error == second.min_error,
        first.offsets@ == second.offsets@,
{
    lemma_best_unique(
        errors_of(results),
        first.candidate_index as int,
        second.candidate_index as int,
    );
    let a = offsets_of(first.offsets@);
    let b = offsets_of(second.offsets@);
    assert(a == b);
    assert(first.offsets@.len() == a.len());
    assert(second.offsets@.len() == b.len());
    assert forall|k: int| 0 <= k < first.offsets@.len() implies first.offsets@[k]
        == second.offsets@[k] by {
        assert(a[k] == first.offsets@[k] as int);
        assert(b[k] == second.offsets@[k] as int);
    }
    assert(first.offsets@ =~= second.offsets@);
}

/// The reported minimum is never NaN or infinite.
pub proof fn lemma_selected_error_finite(
    space: SearchSpace,
    results: Seq<EvaluationResult>,
    fit: FitResult,
)
    requires
        selects(space, results, fit),
    ensures
        fit.min_error.finite(),
{
}

} // verus!
