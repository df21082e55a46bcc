//! Iterative refinement by coordinate descent, as a state machine. The
//! caller nudges one parameter by the probe's step, evaluates the error
//! there, and reports it; the machine keeps the nudge if the error went down
//! and says where to probe next, until the gain of a kept nudge falls below
//! the threshold or the iterations run out.
//!
//! The step of a probe is the axis's grid step halved `shrink` times.

use vstd::prelude::*;
use crate::bits::F32;
use crate::select::cost;

verus! {

/// How a descent is bounded.
#[derive(Clone, Copy, Debug, PartialEq, Eq, Structural)]
pub struct DescentConfig {
    /// The number of parameters.
    pub axes: u32,
    /// The most probes that are evaluated.
    pub max_iterations: u32,
    /// A kept nudge that gains less than this ends the descent.
    pub threshold: F32,
}

#[derive(Clone, Copy, Debug, PartialEq, Eq, Structural)]
pub enum DescentPhase {
    Improving,
    Converged,
    MaxIterationsReached,
}

#[derive(Clone, Copy, Debug, PartialEq, Eq, Structural)]
pub enum Direction {
    Up,
    Down,
}

/// Where to evaluate next: the parameter to nudge, which way, and how often
/// its step was halved.
#[derive(Clone, Copy, Debug, PartialEq, Eq, Structural)]
pub struct Probe {
    pub axis: u32,
    pub direction: Direction,
    pub shrink: u32,
}

/// The state of a descent.
#[derive(Clone, Copy, Debug, PartialEq, Eq, Structural)]
pub struct Descent {
    pub phase: DescentPhase,
    /// The number of probes evaluated so far.
    pub iteration: u32,
    /// The error at the point reached so far.
    pub best: F32,
    /// The next probe.
    pub probe: Probe,
}

/// The probe after one that did not lower the error: the other direction on
/// the same axis, then the next axis; after the last axis the step is halved
/// and the first axis is taken up again.
pub open spec fn probe_after_miss(config: DescentConfig, probe: Probe) -> Probe {
    match probe.direction {
        Direction::Up => Probe { axis: probe.axis, direction: Direction::Down, shrink: probe.shrink },
        Direction::Down => if probe.axis + 1 < config.axes {
            Probe { axis: (probe.axis + 1) as u32, direction: Direction::Up, shrink: probe.shrink }
        } else {
            Probe {
                axis: 0,
                direction: Direction::Up,
                shrink: if probe.shrink < u32::MAX {
                    (probe.shrink + 1) as u32
                } else {
                    probe.shrink
                },
            }
        },
    }
}

/// The state a descent starts in, at a point with error `start_error`.
pub open spec fn descent_start(config: DescentConfig, start_error: F32) -> Descent {
    Descent {
        phase: if config.max_iterations == 0 {
            DescentPhase::MaxIterationsReached
        } else {
            DescentPhase::Improving
        },
        iteration: 0,
        best: start_error.saturated(),
        probe: Probe { axis: 0, direction: Direction::Up, shrink: 0 },
    }
}

/// The state after the probe of `d` was evaluated to `error`, `gain` being
/// how far that is below the best error so far.
pub open spec fn descent_next(config: DescentConfig, d: Descent, error: F32, gain: F32) -> Descent {
    if d.phase != DescentPhase::Improving {
        d
    } else if d.iteration >= config.max_iterations {
        Descent { phase: DescentPhase::MaxIterationsReached, ..d }
    } else {
        let iteration = (d.iteration + 1) as u32;
        let exhausted = iteration >= config.max_iterations;
        if cost(error) < cost(d.best) {
            Descent {
                phase: if cost(gain) < cost(config.threshold) {
                    DescentPhase::Converged
                } else if exhausted {
                    DescentPhase::MaxIterationsReached
                } else {
                    DescentPhase::Improving
                },
                iteration,
                best: error.saturated(),
                probe: d.probe,
            }
        } else {
            Descent {
                phase: if exhausted {
                    DescentPhase::MaxIterationsReached
                } else {
                    DescentPhase::Improving
                },
                iteration,
                best: d.best,
                probe: probe_after_miss(config, d.probe),
            }
        }
    }
}

/// What holds of every state that a descent reaches.
pub open spec fn descent_valid(config: DescentConfig, d: Descent) -> bool {
    &&& d.iteration <= config.max_iterations
    &&& d.phase == DescentPhase::Improving ==> d.iteration < config.max_iterations
    &&& d.best.finite()
}

/// Starts a descent.
pub fn start(config: &DescentConfig, start_error: F32) -> (d: Descent)
    ensures
        d == descent_start(*config, start_error),
{
    Descent {
        phase: if config.max_iterations == 0 {
            DescentPhase::MaxIterationsReached
        } else {
            DescentPhase::Improving
        },
        iteration: 0,
        best: start_error.saturate(),
        probe: Probe { axis: 0, direction: Direction::Up, shrink: 0 },
    }
}

/// The probe to evaluate, while the descent goes on.
pub fn next_probe(d: &Descent) -> (r: Option<Probe>)
    ensures
        r == if d.phase == DescentPhase::Improving {
            Some(d.probe)
        } else {
            None
        },
{
    match d.phase {
        DescentPhase::Improving => Some(d.probe),
        _ => None,
    }
}

/// Whether a probe that was evaluated to `error` lowers the error, so that
/// its nudge is kept.
pub fn lowers(d: &Descent, error: F32) -> (r: bool)
    ensures
        r == (cost(error) < cost(d.best)),
{
    error.saturate().lt(d.best.saturate())
}

/// Takes the error found at the probe, and the gain over the best error so
/// far as the caller computed it.
pub fn observe(config: &DescentConfig, d: Descent, error: F32, gain: F32) -> (r: Descent)
    ensures
        r == descent_next(*config, d, error, gain),
{
    match d.phase {
        DescentPhase::Improving => {},
        _ => {
            return d;
        },
    }
    if d.iteration >= config.max_iterations {
        return Descent {
            phase: DescentPhase::MaxIterationsReached,
            iteration: d.iteration,
            best: d.best,
            probe: d.probe,
        };
    }
    let iteration: u32 = d.iteration + 1;
    let exhausted = iteration >= config.max_iterations;
    let found = error.saturate();
    if lowers(&d, error) {
        let phase = if gain.saturate().lt(config.threshold.saturate()) {
            DescentPhase::Converged
        } else if exhausted {
            DescentPhase::MaxIterationsReached
        } else {
            DescentPhase::Improving
        };
        Descent { phase, iteration, best: found, probe: d.probe }
    } else {
        let phase = if exhausted {
            DescentPhase::MaxIterationsReached
        } else {
            DescentPhase::Improving
        };
        let probe = match d.probe.direction {
            Direction::Up => Probe {
                axis: d.probe.axis,
                direction: Direction::Down,
                shrink: d.probe.shrink,
            },
            Direction::Down => {
                if d.probe.axis < u32::MAX && d.probe.axis + 1 < config.axes {
                    Probe { axis: d.probe.axis + 1, direction: Direction::Up, shrink: d.probe.shrink }
                } else {
                    Probe {
                        axis: 0,
                        direction: Direction::Up,
                        shrink: if d.probe.shrink < u32::MAX {
                            d.probe.shrink + 1
                        } else {
                            d.probe.shrink
                        },
                    }
                }
            },
        };
        Descent { phase, iteration, best: d.best, probe }
    }
}

/// A descent never gives up a better point for a worse one.
pub proof fn lemma_descent_never_worse(config: DescentConfig, d: Descent, error: F32, gain: F32)
    ensures
        cost(descent_next(config, d, error, gain).best) <= cost(d.best),
{
}

/// A descent takes at most `max_iterations` probes: each one counts, and
/// when the count is reached the descent has ended. A state that has ended
/// stays as it is.
pub proof fn lemma_descent_bounded(config: DescentConfig, d: Descent, error: F32, gain: F32)
    requires
        descent_valid(config, d),
    ensures
        descent_valid(config, descent_next(config, d, error, gain)),
        d.phase == DescentPhase::Improving ==> descent_next(config, d, error, gain).iteration
            == d.iteration + 1,
        d.phase != DescentPhase::Improving ==> descent_next(config, d, error, gain) == d,
{
}

/// The start state is one of the reachable states.
pub proof fn lemma_descent_start_valid(config: DescentConfig, start_error: F32)
    ensures
        descent_valid(config, descent_start(config, start_error)),
{
}

} // verus!
