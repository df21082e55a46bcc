//! The course of one bulk search, as a state machine: the caller performs
//! each action (acquire an execution context, submit the workload, wait) and
//! reports what happened; the machine decides what comes next, and which
//! failures are surfaced.

use vstd::prelude::*;
use crate::bits::F32;
use crate::error::FitError;
use crate::refine::Refinement;
use crate::samples::{sample_fault, SampleStore};
use crate::space::{rejection, ParameterAxis, SearchSpace};

verus! {

/// What a run is configured with.
#[derive(Clone, Copy, Debug, PartialEq, Eq, Structural)]
pub struct RunConfig {
    /// The most candidates a search space may hold.
    pub ceiling: u32,
    /// How long completion is waited for, in milliseconds.
    pub timeout_ms: u64,
    /// Whether the candidates are evaluated one after another when no
    /// execution context can be acquired.
    pub allow_fallback: bool,
    /// What follows the coarse pass.
    pub refinement: Refinement,
}

/// Where a search stands.
#[derive(Clone, Copy, Debug, PartialEq, Eq, Structural)]
pub enum Phase {
    /// Nothing was asked for yet.
    Idle,
    /// An execution context was asked for.
    Acquiring,
    /// The workload was submitted; completion is awaited.
    Dispatched,
    /// The candidates are evaluated one after another.
    Sequential,
    /// Every candidate is evaluated; the results can be collected.
    Collected,
    /// The search failed; the error was surfaced.
    Failed,
}

/// What the caller reports.
#[derive(Clone, Copy, Debug, PartialEq, Eq, Structural)]
pub enum Event {
    /// The search is to begin.
    Start,
    /// An execution context was acquired.
    Acquired,
    /// No execution context can be had.
    Unavailable,
    /// Every candidate is evaluated.
    Completed,
    /// Completion was not observed after `elapsed_ms` of waiting in all.
    Waited { elapsed_ms: u64 },
}

/// What the caller is to do next.
#[derive(Clone, Copy, Debug, PartialEq, Eq, Structural)]
pub enum Action {
    /// Ask for an execution context.
    Acquire,
    /// Hand samples and search space over, once, and start every worker.
    Submit,
    /// Keep waiting, for at most `remaining_ms`.
    Wait { remaining_ms: u64 },
    /// Evaluate the same candidates one after another.
    EvaluateSequentially,
    /// Take the full result array.
    Collect,
    /// Give the error to the caller of the search.
    Surface(FitError),
    /// The event has no place in this phase; nothing is to be done.
    Nothing,
}

/// The phase after `event`, and what is to be done.
pub open spec fn next(phase: Phase, event: Event, config: RunConfig) -> (Phase, Action) {
    match (phase, event) {
        (Phase::Idle, Event::Start) => (Phase::Acquiring, Action::Acquire),
        (Phase::Acquiring, Event::Acquired) => (Phase::Dispatched, Action::Submit),
        (Phase::Acquiring, Event::Unavailable) => if config.allow_fallback {
            (Phase::Sequential, Action::EvaluateSequentially)
        } else {
            (Phase::Failed, Action::Surface(FitError::ExecutorUnavailable))
        },
        (Phase::Dispatched, Event::Completed) => (Phase::Collected, Action::Collect),
        (Phase::Dispatched, Event::Waited { elapsed_ms }) => if elapsed_ms >= config.timeout_ms {
            (Phase::Failed, Action::Surface(FitError::DispatchTimeout { waited_ms: elapsed_ms }))
        } else {
            (
                Phase::Dispatched,
                Action::Wait { remaining_ms: (config.timeout_ms - elapsed_ms) as u64 },
            )
        },
        (Phase::Sequential, Event::Completed) => (Phase::Collected, Action::Collect),
        _ => (phase, Action::Nothing),
    }
}

/// Advances the search by one event.
pub fn step(phase: Phase, event: Event, config: &RunConfig) -> (r: (Phase, Action))
    ensures
        r == next(phase, event, *config),
{
    match phase {
        Phase::Idle => match event {
            Event::Start => (Phase::Acquiring, Action::Acquire),
            _ => (phase, Action::Nothing),
        },
        Phase::Acquiring => match event {
            Event::Acquired => (Phase::Dispatched, Action::Submit),
            Event::Unavailable => {
                if config.allow_fallback {
                    (Phase::Sequential, Action::EvaluateSequentially)
                } else {
                    (Phase::Failed, Action::Surface(FitError::ExecutorUnavailable))
                }
            },
            _ => (phase, Action::Nothing),
        },
        Phase::Dispatched => match event {
            Event::Completed => (Phase::Collected, Action::Collect),
            Event::Waited { elapsed_ms } => {
                if elapsed_ms >= config.timeout_ms {
                    (
                        Phase::Failed,
                        Action::Surface(FitError::DispatchTimeout { waited_ms: elapsed_ms }),
                    )
                } else {
                    (Phase::Dispatched, Action::Wait { remaining_ms: config.timeout_ms - elapsed_ms })
                }
            },
            _ => (phase, Action::Nothing),
        },
        Phase::Sequential => match event {
            Event::Completed => (Phase::Collected, Action::Collect),
            _ => (phase, Action::Nothing),
        },
        Phase::Collected => (phase, Action::Nothing),
        Phase::Failed => (phase, Action::Nothing),
    }
}

/// A timeout is surfaced whatever the configuration says of the fallback,
/// and an unavailable executor is surfaced exactly when the fallback is
/// switched off.
pub proof fn lemma_failure_policy(config: RunConfig, elapsed_ms: u64)
    ensures
        elapsed_ms >= config.timeout_ms ==> next(
            Phase::Dispatched,
            Event::Waited { elapsed_ms },
            config,
        ) == (Phase::Failed, Action::Surface(FitError::DispatchTimeout { waited_ms: elapsed_ms })),
        config.allow_fallback ==> next(Phase::Acquiring, Event::Unavailable, config) == (
            Phase::Sequential,
            Action::EvaluateSequentially,
        ),
        !config.allow_fallback ==> next(Phase::Acquiring, Event::Unavailable, config) == (
            Phase::Failed,
            Action::Surface(FitError::ExecutorUnavailable),
        ),
{
}

/// Results are collected only on completion, and a search that has ended is
/// not taken up again.
pub proof fn lemma_completion_barrier(phase: Phase, event: Event, config: RunConfig)
    ensures
        next(phase, event, config).1 == Action::Collect ==> event == Event::Completed && (phase
            == Phase::Dispatched || phase == Phase::Sequential),
        phase == Phase::Collected || phase == Phase::Failed ==> next(phase, event, config) == (
            phase,
            Action::Nothing,
        ),
        next(phase, event, config).1 is Surface ==> !next(
            phase,
            event,
            config,
        ).1->Surface_0.spec_before_dispatch(),
{
}

/// Validates the input of a run before anything is dispatched: the samples
/// first, then the axes against the configured ceiling.
pub fn prepare(xs: Vec<F32>, ys: Vec<F32>, axes: Vec<ParameterAxis>, config: &RunConfig) -> (r:
    Result<(SampleStore, SearchSpace), FitError>)
    ensures
        match r {
            Ok((samples, space)) => {
                &&& sample_fault(xs@, ys@) is None
                &&& rejection(axes@, config.ceiling) is None
                &&& samples.xs() == xs@
                &&& samples.ys() == ys@
                &&& samples.valid()
                &&& space.axes() == axes@
                &&& space.valid()
                &&& space.total_spec() <= config.ceiling
            },
            Err(e) => {
                &&& e.spec_before_dispatch()
                &&& if sample_fault(xs@, ys@) is Some {
                    e == FitError::InvalidInput(sample_fault(xs@, ys@).unwrap())
                } else {
                    rejection(axes@, config.ceiling) == Some(e)
                }
            },
        },
{
    let samples = match SampleStore::new(xs, ys) {
        Ok(samples) => samples,
        Err(e) => {
            return Err(e);
        },
    };
    let space = match SearchSpace::new(axes, config.ceiling) {
        Ok(space) => space,
        Err(e) => {
            return Err(e);
        },
    };
    Ok((samples, space))
}

} // verus!
