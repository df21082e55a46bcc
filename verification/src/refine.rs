//! Refinement of a coarse winner: the window of a second, finer grid around
//! it, and the course of a coordinate descent that starts from it.

use vstd::prelude::*;
use crate::bits::F32;
use crate::descent::{descent_start, start, Descent, DescentConfig};
use crate::error::{FitError, InputFault};
use crate::radix::{
    digits_valid, encode, lemma_encode_bound, lemma_product_prefix, product, product_of,
    radices_of, radices_valid,
};
use crate::search::{fit, results_from};
use crate::select::{cost, errors_of, is_best, lemma_best_is_min, min_cost, selects, FitResult};
use crate::space::{offsets_of, SearchSpace};

verus! {

/// The half-width of a refinement window unless configured otherwise: one
/// coarse step to either side of the winner.
pub const DEFAULT_HALF_WIDTH: u16 = 1;

/// What follows the coarse pass.
#[derive(Clone, Copy, Debug, PartialEq, Eq, Structural)]
pub enum Refinement {
    /// Nothing: the coarse winner is the result.
    Off,
    /// A second, finer grid around the coarse winner, `half_width` coarse
    /// steps to either side, with `factor` grid points to each coarse step.
    TwoStage { half_width: u16, factor: u16 },
    /// A coordinate descent from the coarse winner.
    Iterative { max_iterations: u32, threshold: F32 },
}

/// The pass that follows a coarse winner.
pub enum NextPass {
    /// There is none.
    Done,
    /// A search of the finer grid with these windows, one per axis.
    Finer(Vec<AxisWindow>),
    /// A descent from this state.
    Descend(DescentConfig, Descent),
}

/// The range of one axis of the finer grid, in steps of the coarse axis
/// counted from its minimum: the finer axis runs from `low` steps to `high`
/// steps, `high` excluded, with `resolution` grid points. The coarse winner
/// is the grid point at offset `anchor`.
#[derive(Clone, Copy, Debug, PartialEq, Eq, Structural)]
pub struct AxisWindow {
    pub low: i64,
    pub high: i64,
    pub resolution: u32,
    pub anchor: u32,
}

/// The number of grid points on a finer axis: `factor` of them to each coarse
/// step, over `half_width` coarse steps to either side of the winner.
pub open spec fn fine_resolution(half_width: int, factor: int) -> int {
    2 * half_width * factor
}

/// The resolutions of a finer grid of `axes` axes.
pub open spec fn fine_resolutions(axes: int, half_width: int, factor: int) -> Seq<int> {
    Seq::new(axes as nat, |k: int| fine_resolution(half_width, factor))
}

/// The window around the coarse offset `offset`.
pub open spec fn window_of(offset: int, half_width: int, factor: int) -> AxisWindow {
    AxisWindow {
        low: (offset - half_width) as i64,
        high: (offset + half_width) as i64,
        resolution: fine_resolution(half_width, factor) as u32,
        anchor: (half_width * factor) as u32,
    }
}

/// `windows` holds the window around each of `offsets`, in order.
pub open spec fn windows_around(
    windows: Seq<AxisWindow>,
    offsets: Seq<u32>,
    half_width: u16,
    factor: u16,
) -> bool {
    &&& windows.len() == offsets.len()
    &&& forall|k: int|
        0 <= k < windows.len() ==> #[trigger] windows[k] == window_of(
            offsets[k] as int,
            half_width as int,
            factor as int,
        )
}

/// Why there is no finer grid around `offsets`, or `None` if there is one.
pub open spec fn refinement_fault(
    space: SearchSpace,
    offsets: Seq<u32>,
    half_width: u16,
    factor: u16,
    ceiling: u32,
) -> Option<FitError> {
    let total = product(fine_resolutions(offsets.len() as int, half_width as int, factor as int));
    if !digits_valid(space.resolutions(), offsets_of(offsets)) {
        Some(FitError::InvalidInput(InputFault::NotACandidate))
    } else if half_width == 0 || factor == 0 {
        Some(FitError::InvalidInput(InputFault::EmptyWindow))
    } else if total > ceiling {
        Some(FitError::SearchSpaceTooLarge { total: total as u128, ceiling })
    } else {
        None
    }
}

/// The window of the finer grid on each axis, around the candidate at
/// `offsets`. There is none when the offsets name no candidate of `space`,
/// when `half_width` or `factor` is zero, or when the finer grid would hold
/// more than `ceiling` candidates.
pub fn refine_windows(
    space: &SearchSpace,
    offsets: &Vec<u32>,
    half_width: u16,
    factor: u16,
    ceiling: u32,
) -> (r: Result<Vec<AxisWindow>, FitError>)
    ensures
        match r {
            Ok(windows) => {
                &&& refinement_fault(*space, offsets@, half_width, factor, ceiling) is None
                &&& windows_around(windows@, offsets@, half_width, factor)
            },
            Err(e) => refinement_fault(*space, offsets@, half_width, factor, ceiling) == Some(e),
        },
{
    if space.encode(offsets).is_none() {
        return Err(FitError::InvalidInput(InputFault::NotACandidate));
    }
    if half_width == 0 || factor == 0 {
        return Err(FitError::InvalidInput(InputFault::EmptyWindow));
    }
    let n = space.axis_count();
    assert(1 <= half_width * factor < 0x1_0000_0000) by (nonlinear_arith)
        requires
            1 <= half_width < 0x1_0000,
            1 <= factor < 0x1_0000,
    ;
    let reach: u64 = (half_width as u64) * (factor as u64);
    let resolution: u64 = 2 * reach;
    assert(resolution == fine_resolution(half_width as int, factor as int)) by (nonlinear_arith)
        requires
            resolution == 2 * reach,
            reach == half_width * factor,
    ;
    let ghost radices = fine_resolutions(n as int, half_width as int, factor as int);
    let mut sides: Vec<u64> = Vec::new();
    let mut k: usize = 0;
    while k < n
        invariant
            k <= n,
            sides.len() == k,
            forall|j: int| 0 <= j < k ==> #[trigger] sides[j] == resolution,
        decreases n - k,
    {
        sides.push(resolution);
        k += 1;
    }
    proof {
        assert(radices_of(sides@) =~= radices);
        assert(radices_valid(radices));
        lemma_product_prefix(radices, 1);
        assert(radices.take(1).drop_last() =~= Seq::<int>::empty());
        assert(product(radices.take(1)) == resolution) by {
            reveal_with_fuel(product, 2);
        }
    }
    let acc = product_of(&sides);
    if acc > ceiling as u128 {
        return Err(FitError::SearchSpaceTooLarge { total: acc, ceiling });
    }
    let mut windows: Vec<AxisWindow> = Vec::new();
    let mut k: usize = 0;
    while k < n
        invariant
            k <= n,
            n == offsets.len(),
            windows.len() == k,
            reach == half_width * factor,
            reach <= u32::MAX,
            resolution == fine_resolution(half_width as int, factor as int),
            resolution <= u32::MAX,
            forall|j: int|
                0 <= j < k ==> #[trigger] windows@[j] == window_of(
                    offsets@[j] as int,
                    half_width as int,
                    factor as int,
                ),
        decreases n - k,
    {
        let o = offsets[k] as i64;
        windows.push(
            AxisWindow {
                low: o - half_width as i64,
                high: o + half_width as i64,
                resolution: resolution as u32,
                anchor: reach as u32,
            },
        );
        k += 1;
    }
    Ok(windows)
}

/// What follows the coarse pass that found `coarse` in `space`, under the
/// configured refinement.
pub fn next_pass(refinement: &Refinement, space: &SearchSpace, coarse: &FitResult, ceiling: u32) -> (r:
    Result<NextPass, FitError>)
    ensures
        match *refinement {
            Refinement::Off => r matches Ok(NextPass::Done),
            Refinement::TwoStage { half_width, factor } => match r {
                Ok(pass) => {
                    &&& refinement_fault(*space, coarse.offsets@, half_width, factor, ceiling)
                        is None
                    &&& pass matches NextPass::Finer(windows)
                    &&& windows_around(windows@, coarse.offsets@, half_width, factor)
                },
                Err(e) => refinement_fault(*space, coarse.offsets@, half_width, factor, ceiling)
                    == Some(e),
            },
            Refinement::Iterative { max_iterations, threshold } => {
                let config = DescentConfig {
                    axes: space.axes().len() as u32,
                    max_iterations,
                    threshold,
                };
                r matches Ok(NextPass::Descend(c, d)) && c == config && d == descent_start(
                    config,
                    coarse.min_error,
                )
            },
        },
{
    match *refinement {
        Refinement::Off => Ok(NextPass::Done),
        Refinement::TwoStage { half_width, factor } => {
            match refine_windows(space, &coarse.offsets, half_width, factor, ceiling) {
                Ok(windows) => Ok(NextPass::Finer(windows)),
                Err(e) => Err(e),
            }
        },
        Refinement::Iterative { max_iterations, threshold } => {
            let config = DescentConfig {
                axes: space.axis_count() as u32,
                max_iterations,
                threshold,
            };
            Ok(NextPass::Descend(config, start(&config, coarse.min_error)))
        },
    }
}

/// The anchors of the windows: the offsets, in the finer grid, of the
/// candidate where it meets the coarse winner.
pub open spec fn anchors_of(windows: Seq<AxisWindow>) -> Seq<int> {
    Seq::new(windows.len(), |k: int| windows[k].anchor as int)
}

/// The flat index, in the finer grid, of the candidate at the anchors of
/// `windows`; `None` when the anchors name no candidate of `finer`.
pub fn anchor_index(finer: &SearchSpace, windows: &Vec<AxisWindow>) -> (r: Option<u32>)
    ensures
        match r {
            Some(index) => {
                &&& digits_valid(finer.resolutions(), anchors_of(windows@))
                &&& index == encode(finer.resolutions(), anchors_of(windows@))
                &&& index < finer.total_spec()
            },
            None => !digits_valid(finer.resolutions(), anchors_of(windows@)),
        },
{
    let mut anchors: Vec<u32> = Vec::new();
    let mut k: usize = 0;
    while k < windows.len()
        invariant
            k <= windows.len(),
            anchors.len() == k,
            forall|j: int| 0 <= j < k ==> #[trigger] anchors@[j] == windows@[j].anchor,
        decreases windows.len() - k,
    {
        anchors.push(windows[k].anchor);
        k += 1;
    }
    proof {
        assert(offsets_of(anchors@) =~= anchors_of(windows@));
    }
    finer.encode(&anchors)
}

/// The best candidate of the finer grid, given the error of every one of
/// its candidates. When the candidate at the anchors, where the finer grid
/// meets the coarse winner, was evaluated to no more than the coarse
/// minimum, the finer minimum is no more than the coarse minimum.
pub fn finer_fit(
    coarse: &FitResult,
    finer: &SearchSpace,
    windows: &Vec<AxisWindow>,
    errors: &Vec<F32>,
) -> (r: Result<FitResult, FitError>)
    ensures
        match r {
            Ok(best) => {
                &&& errors@.len() == finer.total_spec()
                &&& selects(*finer, results_from(errors@), best)
                &&& digits_valid(finer.resolutions(), anchors_of(windows@)) && cost(
                    errors@[encode(finer.resolutions(), anchors_of(windows@))],
                ) <= cost(coarse.min_error) ==> cost(best.min_error) <= cost(coarse.min_error)
            },
            Err(e) => {
                &&& errors@.len() != finer.total_spec()
                &&& e == FitError::InvalidInput(
                    InputFault::ResultCount {
                        expected: finer.total_spec() as u32,
                        actual: errors@.len() as usize,
                    },
                )
            },
        },
{
    match fit(finer, errors) {
        Ok(best) => {
            proof {
                let anchors = anchors_of(windows@);
                if digits_valid(finer.resolutions(), anchors) {
                    lemma_encode_bound(finer.resolutions(), anchors);
                    let at = encode(finer.resolutions(), anchors);
                    let seen = errors_of(results_from(errors@));
                    assert(seen[at] == errors@[at].saturated());
                    assert(cost(seen[best.candidate_index as int]) <= cost(seen[at]));
                }
            }
            Ok(best)
        },
        Err(e) => Err(e),
    }
}

/// The coarse winner is a grid point of its window: the anchor's share of
/// the window's width is the winner's distance from the window's low end.
pub proof fn lemma_anchor_is_winner(offset: int, half_width: int, factor: int)
    requires
        0 <= offset <= u32::MAX,
        1 <= half_width <= u16::MAX,
        1 <= factor <= u16::MAX,
        fine_resolution(half_width, factor) <= u32::MAX,
    ensures
        ({
            let w = window_of(offset, half_width, factor);
            &&& w.anchor < w.resolution
            &&& (w.high - w.low) * w.anchor == (offset - w.low) * w.resolution
        }),
{
    let w = window_of(offset, half_width, factor);
    assert(0 < half_width * factor < 2 * half_width * factor && (2 * half_width) * (half_width
        * factor) == half_width * (2 * half_width * factor)) by (nonlinear_arith)
        requires
            1 <= half_width,
            1 <= factor,
    ;
}

/// If the finer grid evaluates one of its candidates (the anchor, where it
/// meets the coarse winner) at no more than the coarse minimum, the finer
/// pass's minimum is no more than the coarse pass's.
pub proof fn lemma_refinement_no_worse(
    coarse: Seq<F32>,
    coarse_winner: int,
    fine: Seq<F32>,
    fine_winner: int,
    anchor: int,
)
    requires
        is_best(coarse, coarse_winner),
        is_best(fine, fine_winner),
        0 <= anchor < fine.len(),
        cost(fine[anchor]) <= cost(coarse[coarse_winner]),
    ensures
        cost(fine[fine_winner]) <= cost(coarse[coarse_winner]),
        min_cost(fine) <= min_cost(coarse),
{
    lemma_best_is_min(coarse, coarse_winner);
    lemma_best_is_min(fine, fine_winner);
}

} // verus!
