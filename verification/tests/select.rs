use gridfit::bits::{F32, MAX_FINITE_BITS};
use gridfit::error::{FitError, InputFault};
use gridfit::search::{collect, fit};
use gridfit::select::{argmin, select, EvaluationResult};
use gridfit::space::{ParameterAxis, SearchSpace};

fn f(v: f32) -> F32 {
    F32(v.to_bits())
}

fn errors(values: &[f32]) -> Vec<F32> {
    values.iter().map(|v| f(*v)).collect()
}

fn space_of(resolutions: &[u32]) -> SearchSpace {
    let axes = resolutions
        .iter()
        .map(|r| ParameterAxis { name: String::from("p"), min: f(0.0), max: f(4.0), resolution: *r })
        .collect();
    match SearchSpace::new(axes, 1_000_000) {
        Ok(space) => space,
        Err(e) => panic!("no space: {:?}", e),
    }
}

fn results(values: &[f32]) -> Vec<EvaluationResult> {
    values
        .iter()
        .enumerate()
        .map(|(i, v)| EvaluationResult { candidate_index: i as u32, error: f(*v) })
        .collect()
}

/// Mean squared error of `y = a * x` on the samples.
fn mse_linear(a: f32, samples: &[(f32, f32)]) -> f32 {
    let mut sum = 0.0f32;
    for (x, y) in samples {
        let d = y - a * x;
        sum += d * d;
    }
    sum / samples.len() as f32
}

#[test]
fn exact_fit_is_found_on_the_grid() {
    let samples = [(1.0f32, 2.0f32), (2.0, 4.0), (3.0, 6.0)];
    let space = match SearchSpace::new(
        vec![ParameterAxis { name: String::from("a"), min: f(0.0), max: f(4.0), resolution: 4 }],
        100,
    ) {
        Ok(space) => space,
        Err(e) => panic!("{:?}", e),
    };
    assert_eq!(space.total(), 4);
    let axis = space.axis(0).unwrap();
    let min = f32::from_bits(axis.min.0);
    let max = f32::from_bits(axis.max.0);
    let step = (max - min) / axis.resolution as f32;
    let mut found = Vec::new();
    let mut candidates = Vec::new();
    for i in 0..space.total() {
        let offsets = space.decode(i).unwrap();
        let a = min + offsets[0] as f32 * step;
        candidates.push(a);
        found.push(f(mse_linear(a, &samples)));
    }
    assert_eq!(candidates, vec![0.0, 1.0, 2.0, 3.0]);
    let best = match fit(&space, &found) {
        Ok(best) => best,
        Err(e) => panic!("{:?}", e),
    };
    assert_eq!(best.candidate_index, 2);
    assert_eq!(best.offsets, vec![2]);
    assert_eq!(min + best.offsets[0] as f32 * step, 2.0);
    assert_eq!(f32::from_bits(best.min_error.0), 0.0);
}

#[test]
fn argmin_takes_the_first_of_equal_errors() {
    assert_eq!(argmin(&errors(&[3.0, 1.0, 2.0, 1.0, 5.0])), Some(1));
    assert_eq!(argmin(&errors(&[1.0, 1.0, 1.0])), Some(0));
    assert_eq!(argmin(&errors(&[9.0, 8.0, 7.0])), Some(2));
    assert_eq!(argmin(&errors(&[0.5])), Some(0));
    assert_eq!(argmin(&errors(&[])), None);
}

#[test]
fn argmin_counts_both_zeros_as_equal() {
    assert_eq!(argmin(&errors(&[1.0, 0.0, -0.0])), Some(1));
    assert_eq!(argmin(&errors(&[1.0, -0.0, 0.0])), Some(1));
}

#[test]
fn argmin_never_prefers_an_undefined_error() {
    assert_eq!(argmin(&errors(&[f32::NAN, 7.0, f32::INFINITY])), Some(1));
    assert_eq!(argmin(&errors(&[f32::NEG_INFINITY, 7.0])), Some(1));
    assert_eq!(argmin(&errors(&[f32::NAN, f32::MAX, f32::INFINITY])), Some(0));
    assert_eq!(argmin(&errors(&[f32::INFINITY, f32::NAN, f32::MAX])), Some(0));
}

#[test]
fn select_reports_index_offsets_and_error() {
    let space = space_of(&[2, 3]);
    let best = select(&space, &results(&[5.0, 4.0, 3.0, 2.0, 0.25, 1.0])).unwrap();
    assert_eq!(best.candidate_index, 4);
    assert_eq!(best.offsets, vec![1, 1]);
    assert_eq!(best.min_error, f(0.25));
}

#[test]
fn select_breaks_ties_by_the_lowest_index() {
    let space = space_of(&[2, 3]);
    let best = select(&space, &results(&[5.0, 0.5, 3.0, 0.5, 0.5, 1.0])).unwrap();
    assert_eq!(best.candidate_index, 1);
    assert_eq!(best.offsets, vec![0, 1]);
}

#[test]
fn select_saturates_an_undefined_minimum() {
    let space = space_of(&[3]);
    let best = select(&space, &results(&[f32::NAN, f32::INFINITY, f32::NAN])).unwrap();
    assert_eq!(best.candidate_index, 0);
    assert_eq!(best.min_error, F32(MAX_FINITE_BITS));
    assert!(f32::from_bits(best.min_error.0).is_finite());
}

#[test]
fn select_wants_one_result_per_candidate() {
    let space = space_of(&[2, 3]);
    assert!(select(&space, &results(&[1.0, 2.0, 3.0])).is_none());
    assert!(select(&space, &results(&[1.0, 2.0, 3.0, 4.0, 5.0, 6.0, 7.0])).is_none());
    assert!(select(&space, &results(&[])).is_none());
}

#[test]
fn select_wants_the_results_in_index_order() {
    let space = space_of(&[3]);
    let mut shuffled = results(&[1.0, 2.0, 3.0]);
    shuffled.swap(0, 1);
    assert!(select(&space, &shuffled).is_none());
    let mut repeated = results(&[1.0, 2.0, 3.0]);
    repeated[2].candidate_index = 1;
    assert!(select(&space, &repeated).is_none());
}

#[test]
fn select_is_repeatable() {
    let space = space_of(&[4, 4]);
    let values: Vec<f32> = (0..16).map(|i| ((i * 7) % 5) as f32).collect();
    let first = select(&space, &results(&values)).unwrap();
    let second = select(&space, &results(&values)).unwrap();
    assert_eq!(first.candidate_index, second.candidate_index);
    assert_eq!(first.offsets, second.offsets);
    assert_eq!(first.min_error, second.min_error);
    assert_eq!(first.candidate_index, 0);
}

#[test]
fn collect_numbers_the_results_by_flat_index() {
    let space = space_of(&[2, 2]);
    let collected = collect(&space, &errors(&[4.0, f32::NAN, 2.0, 1.0])).unwrap();
    assert_eq!(collected.len(), space.total() as usize);
    for (i, r) in collected.iter().enumerate() {
        assert_eq!(r.candidate_index, i as u32);
    }
    assert_eq!(collected[0].error, f(4.0));
    assert_eq!(collected[1].error, F32(MAX_FINITE_BITS));
    assert_eq!(collected[3].error, f(1.0));
}

#[test]
fn collect_wants_one_error_per_candidate() {
    let space = space_of(&[2, 2]);
    assert_eq!(
        collect(&space, &errors(&[1.0, 2.0, 3.0])),
        Err(FitError::InvalidInput(InputFault::ResultCount { expected: 4, actual: 3 }))
    );
    match fit(&space, &errors(&[1.0, 2.0, 3.0, 4.0, 5.0])) {
        Err(e) => assert_eq!(
            e,
            FitError::InvalidInput(InputFault::ResultCount { expected: 4, actual: 5 })
        ),
        Ok(_) => panic!("accepted"),
    }
}

#[test]
fn fit_agrees_with_collect_and_select() {
    let space = space_of(&[3, 2]);
    let found = errors(&[6.0, 5.0, 0.125, 3.0, 0.125, f32::NAN]);
    let direct = fit(&space, &found).unwrap();
    let stepwise = select(&space, &collect(&space, &found).unwrap()).unwrap();
    assert_eq!(direct.candidate_index, 2);
    assert_eq!(direct.offsets, vec![1, 0]);
    assert_eq!(direct.min_error, f(0.125));
    assert_eq!(direct.candidate_index, stepwise.candidate_index);
    assert_eq!(direct.offsets, stepwise.offsets);
    assert_eq!(direct.min_error, stepwise.min_error);
}
