use gridfit::bits::{F32, MAX_FINITE_BITS};
use gridfit::descent::{
    lowers, next_probe, observe, start, Descent, DescentConfig, DescentPhase, Direction, Probe,
};
use gridfit::error::{FitError, InputFault};
use gridfit::refine::{
    anchor_index, finer_fit, next_pass, refine_windows, AxisWindow, NextPass, Refinement,
    DEFAULT_HALF_WIDTH,
};
use gridfit::search::fit;
use gridfit::select::{argmin, FitResult};
use gridfit::space::{ParameterAxis, SearchSpace};

fn f(v: f32) -> F32 {
    F32(v.to_bits())
}

fn space_of(resolutions: &[u32]) -> SearchSpace {
    let axes = resolutions
        .iter()
        .map(|r| ParameterAxis { name: String::from("p"), min: f(0.0), max: f(4.0), resolution: *r })
        .collect();
    match SearchSpace::new(axes, 1_000_000) {
        Ok(space) => space,
        Err(e) => panic!("no space: {:?}", e),
    }
}

#[test]
fn window_is_one_step_to_either_side() {
    let space = space_of(&[4]);
    let windows = refine_windows(&space, &vec![2], 1, 4, 1000).unwrap();
    assert_eq!(windows, vec![AxisWindow { low: 1, high: 3, resolution: 8, anchor: 4 }]);
}

#[test]
fn window_may_reach_past_the_coarse_range() {
    let space = space_of(&[4, 6]);
    let windows = refine_windows(&space, &vec![0, 5], 2, 3, 1000).unwrap();
    assert_eq!(
        windows,
        vec![
            AxisWindow { low: -2, high: 2, resolution: 12, anchor: 6 },
            AxisWindow { low: 3, high: 7, resolution: 12, anchor: 6 },
        ]
    );
}

#[test]
fn anchor_of_a_window_is_the_coarse_winner() {
    let space = space_of(&[10, 10, 10]);
    for (half_width, factor) in [(1u16, 1u16), (1, 4), (2, 3), (3, 2)] {
        let offsets = vec![0, 4, 9];
        let windows = refine_windows(&space, &offsets, half_width, factor, 1_000_000).unwrap();
        for (w, o) in windows.iter().zip(offsets.iter()) {
            assert!(w.anchor < w.resolution);
            assert_eq!(
                (w.high - w.low) * w.anchor as i64,
                (*o as i64 - w.low) * w.resolution as i64
            );
        }
    }
}

#[test]
fn refinement_needs_a_candidate() {
    let space = space_of(&[4, 4]);
    assert_eq!(
        refine_windows(&space, &vec![4, 0], 1, 2, 1000),
        Err(FitError::InvalidInput(InputFault::NotACandidate))
    );
    assert_eq!(
        refine_windows(&space, &vec![1], 1, 2, 1000),
        Err(FitError::InvalidInput(InputFault::NotACandidate))
    );
}

#[test]
fn refinement_needs_a_window() {
    let space = space_of(&[4]);
    assert_eq!(
        refine_windows(&space, &vec![1], 0, 2, 1000),
        Err(FitError::InvalidInput(InputFault::EmptyWindow))
    );
    assert_eq!(
        refine_windows(&space, &vec![1], 1, 0, 1000),
        Err(FitError::InvalidInput(InputFault::EmptyWindow))
    );
}

#[test]
fn refinement_respects_the_ceiling() {
    let space = space_of(&[4, 4]);
    assert_eq!(
        refine_windows(&space, &vec![1, 1], 1, 5, 99),
        Err(FitError::SearchSpaceTooLarge { total: 100, ceiling: 99 })
    );
    assert!(refine_windows(&space, &vec![1, 1], 1, 5, 100).is_ok());
    let wide = space_of(&[4, 4, 4]);
    let side = 2u128 * 65535 * 65535;
    assert_eq!(
        refine_windows(&wide, &vec![1, 1, 1], u16::MAX, u16::MAX, u32::MAX),
        Err(FitError::SearchSpaceTooLarge { total: side * side * side, ceiling: u32::MAX })
    );
}

#[test]
fn finer_minimum_is_no_larger_when_the_anchor_is_kept() {
    let coarse: Vec<F32> = [9.0f32, 4.0, 1.0, 4.0].iter().map(|v| f(*v)).collect();
    let fine: Vec<F32> =
        [4.0f32, 2.25, 1.0, 0.25, 1.0, 0.0625, 0.25, 1.0].iter().map(|v| f(*v)).collect();
    let coarse_best = argmin(&coarse).unwrap();
    let fine_best = argmin(&fine).unwrap();
    assert_eq!(fine[4], coarse[coarse_best]);
    assert!(!coarse[coarse_best].lt(fine[fine_best]));
    assert_eq!(fine_best, 5);
}

fn descent_config(max_iterations: u32) -> DescentConfig {
    DescentConfig { axes: 2, max_iterations, threshold: f(0.01) }
}

#[test]
fn descent_starts_at_the_first_axis() {
    let d = start(&descent_config(10), f(3.0));
    assert_eq!(
        d,
        Descent {
            phase: DescentPhase::Improving,
            iteration: 0,
            best: f(3.0),
            probe: Probe { axis: 0, direction: Direction::Up, shrink: 0 },
        }
    );
    assert_eq!(next_probe(&d), Some(d.probe));
}

#[test]
fn descent_with_no_iterations_ends_at_once() {
    let d = start(&descent_config(0), f(3.0));
    assert_eq!(d.phase, DescentPhase::MaxIterationsReached);
    assert_eq!(next_probe(&d), None);
    assert_eq!(observe(&descent_config(0), d, f(1.0), f(2.0)), d);
}

#[test]
fn descent_saturates_its_start() {
    let d = start(&descent_config(10), f(f32::NAN));
    assert_eq!(d.best, F32(MAX_FINITE_BITS));
}

#[test]
fn descent_keeps_a_nudge_that_lowers_the_error() {
    let c = descent_config(10);
    let d = observe(&c, start(&c, f(3.0)), f(2.0), f(1.0));
    assert_eq!(d.phase, DescentPhase::Improving);
    assert_eq!(d.iteration, 1);
    assert_eq!(d.best, f(2.0));
    assert_eq!(d.probe, Probe { axis: 0, direction: Direction::Up, shrink: 0 });
}

#[test]
fn descent_keeps_only_what_lowers_the_error() {
    let d = start(&descent_config(10), f(3.0));
    assert!(lowers(&d, f(2.5)));
    assert!(!lowers(&d, f(3.0)));
    assert!(!lowers(&d, f(3.5)));
    assert!(!lowers(&d, f(f32::NAN)));
    assert!(lowers(&d, f(-0.0)));
}

#[test]
fn descent_converges_on_a_small_gain() {
    let c = descent_config(10);
    let d = observe(&c, start(&c, f(3.0)), f(2.995), f(0.005));
    assert_eq!(d.phase, DescentPhase::Converged);
    assert_eq!(d.best, f(2.995));
    assert_eq!(d.iteration, 1);
    assert_eq!(next_probe(&d), None);
    assert_eq!(observe(&c, d, f(0.0), f(2.995)), d);
}

#[test]
fn descent_turns_shrinks_and_moves_on_after_misses() {
    let c = descent_config(100);
    let mut d = start(&c, f(3.0));
    let expected = [
        Probe { axis: 0, direction: Direction::Down, shrink: 0 },
        Probe { axis: 1, direction: Direction::Up, shrink: 0 },
        Probe { axis: 1, direction: Direction::Down, shrink: 0 },
        Probe { axis: 0, direction: Direction::Up, shrink: 1 },
        Probe { axis: 0, direction: Direction::Down, shrink: 1 },
        Probe { axis: 1, direction: Direction::Up, shrink: 1 },
        Probe { axis: 1, direction: Direction::Down, shrink: 1 },
        Probe { axis: 0, direction: Direction::Up, shrink: 2 },
    ];
    for (k, probe) in expected.iter().enumerate() {
        d = observe(&c, d, f(3.0), f(0.0));
        assert_eq!(d.probe, *probe);
        assert_eq!(d.iteration, k as u32 + 1);
        assert_eq!(d.best, f(3.0));
        assert_eq!(d.phase, DescentPhase::Improving);
    }
}

#[test]
fn descent_ends_when_the_iterations_run_out() {
    let c = descent_config(3);
    let mut d = start(&c, f(8.0));
    d = observe(&c, d, f(4.0), f(4.0));
    d = observe(&c, d, f(9.0), f(-5.0));
    assert_eq!(d.phase, DescentPhase::Improving);
    d = observe(&c, d, f(2.0), f(2.0));
    assert_eq!(d.phase, DescentPhase::MaxIterationsReached);
    assert_eq!(d.iteration, 3);
    assert_eq!(d.best, f(2.0));
    assert_eq!(next_probe(&d), None);
}

#[test]
fn descent_never_takes_a_worse_point() {
    let c = descent_config(50);
    let mut d = start(&c, f(5.0));
    let found = [6.0f32, 5.0, 4.5, f32::NAN, 4.75, 1.0, f32::INFINITY, 0.5];
    let mut lowest = 5.0f32;
    for e in found {
        let before = d.best;
        d = observe(&c, d, f(e), f(1.0));
        assert!(!before.lt(d.best));
        if e < lowest {
            lowest = e;
        }
        assert_eq!(d.best, f(lowest));
    }
}

#[test]
fn descent_repairs_a_count_past_the_limit() {
    let c = descent_config(2);
    let d = Descent {
        phase: DescentPhase::Improving,
        iteration: 7,
        best: f(1.0),
        probe: Probe { axis: 0, direction: Direction::Up, shrink: 0 },
    };
    let after = observe(&c, d, f(0.5), f(0.5));
    assert_eq!(after.phase, DescentPhase::MaxIterationsReached);
    assert_eq!(after.iteration, 7);
    assert_eq!(after.best, f(1.0));
}

fn winner(offsets: Vec<u32>, index: u32, error: f32) -> FitResult {
    FitResult { candidate_index: index, offsets, min_error: f(error) }
}

#[test]
fn no_refinement_ends_the_run() {
    let space = space_of(&[4]);
    match next_pass(&Refinement::Off, &space, &winner(vec![2], 2, 0.0), 100) {
        Ok(NextPass::Done) => {}
        _ => panic!("another pass"),
    }
}

#[test]
fn two_stage_refinement_asks_for_a_finer_grid() {
    assert_eq!(DEFAULT_HALF_WIDTH, 1);
    let space = space_of(&[4, 4]);
    let mode = Refinement::TwoStage { half_width: DEFAULT_HALF_WIDTH, factor: 8 };
    match next_pass(&mode, &space, &winner(vec![2, 3], 11, 0.5), 1000) {
        Ok(NextPass::Finer(windows)) => assert_eq!(
            windows,
            vec![
                AxisWindow { low: 1, high: 3, resolution: 16, anchor: 8 },
                AxisWindow { low: 2, high: 4, resolution: 16, anchor: 8 },
            ]
        ),
        _ => panic!("no finer grid"),
    }
    match next_pass(&mode, &space, &winner(vec![2, 3], 11, 0.5), 255) {
        Err(e) => assert_eq!(e, FitError::SearchSpaceTooLarge { total: 256, ceiling: 255 }),
        Ok(_) => panic!("accepted"),
    }
}

#[test]
fn iterative_refinement_starts_a_descent_at_the_winner() {
    let space = space_of(&[4, 4, 4]);
    let mode = Refinement::Iterative { max_iterations: 12, threshold: f(0.001) };
    match next_pass(&mode, &space, &winner(vec![1, 2, 3], 27, 0.75), 1000) {
        Ok(NextPass::Descend(config, d)) => {
            assert_eq!(config, DescentConfig { axes: 3, max_iterations: 12, threshold: f(0.001) });
            assert_eq!(d, start(&config, f(0.75)));
            assert_eq!(d.best, f(0.75));
        }
        _ => panic!("no descent"),
    }
}

#[test]
fn anchor_has_a_flat_index_in_the_finer_grid() {
    let coarse = space_of(&[4, 4]);
    let windows = refine_windows(&coarse, &vec![2, 1], 1, 3, 1000).unwrap();
    let finer = space_of(&[6, 6]);
    assert_eq!(anchor_index(&finer, &windows), Some(3 * 6 + 3));
    assert_eq!(finer.decode(21), Some(vec![3, 3]));
    assert_eq!(anchor_index(&space_of(&[6]), &windows), None);
    assert_eq!(anchor_index(&space_of(&[6, 3]), &windows), None);
}

#[test]
fn finer_pass_is_no_worse_when_it_keeps_the_anchor() {
    let coarse_space = space_of(&[4]);
    let coarse_errors: Vec<F32> = [9.0f32, 4.0, 1.0, 4.0].iter().map(|v| f(*v)).collect();
    let coarse = fit(&coarse_space, &coarse_errors).unwrap();
    assert_eq!(coarse.candidate_index, 2);
    let windows = refine_windows(&coarse_space, &coarse.offsets, 1, 4, 1000).unwrap();
    let finer = space_of(&[8]);
    let anchor = anchor_index(&finer, &windows).unwrap();
    assert_eq!(anchor, 4);
    let fine_errors: Vec<F32> =
        [4.0f32, 2.25, 1.5, 1.25, 1.0, 0.0625, 0.25, 1.5].iter().map(|v| f(*v)).collect();
    assert_eq!(fine_errors[anchor as usize], coarse.min_error);
    let fine = finer_fit(&coarse, &finer, &windows, &fine_errors).unwrap();
    assert_eq!(fine.candidate_index, 5);
    assert_eq!(fine.min_error, f(0.0625));
    assert!(!coarse.min_error.lt(fine.min_error));
}

#[test]
fn finer_pass_reports_its_own_winner_even_when_worse() {
    let coarse_space = space_of(&[4]);
    let coarse_errors: Vec<F32> = [9.0f32, 4.0, 0.0, 4.0].iter().map(|v| f(*v)).collect();
    let coarse = fit(&coarse_space, &coarse_errors).unwrap();
    let windows = refine_windows(&coarse_space, &coarse.offsets, 1, 1, 1000).unwrap();
    let finer = space_of(&[2]);
    let fine = finer_fit(&coarse, &finer, &windows, &vec![f(1.0), f(2.0)]).unwrap();
    assert_eq!(fine.candidate_index, 0);
    assert_eq!(fine.min_error, f(1.0));
}

#[test]
fn finer_pass_wants_one_error_per_candidate() {
    let coarse_space = space_of(&[4]);
    let coarse = fit(&coarse_space, &vec![f(1.0), f(2.0), f(3.0), f(4.0)]).unwrap();
    let windows = refine_windows(&coarse_space, &coarse.offsets, 1, 1, 1000).unwrap();
    assert_eq!(
        finer_fit(&coarse, &space_of(&[2]), &windows, &vec![f(1.0)]),
        Err(FitError::InvalidInput(InputFault::ResultCount { expected: 2, actual: 1 }))
    );
}
