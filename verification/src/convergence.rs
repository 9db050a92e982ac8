//! When an iterative run stops: the decision taken after every iteration.
//!
//! The driver of a run does the numerical work of one iteration, measures by
//! how much the estimate changed, and hands that change to `Progress::step`.
//! The state it gets back says whether another iteration is due.

use crate::binary64::{at_most, is_at_most, is_nan, magnitude, scaled_value};
use vstd::prelude::*;

verus! {

/// Where an iterative run stands.
#[derive(Clone, Copy, Debug, PartialEq, Eq, Structural)]
pub enum Phase {
    /// Another iteration is due.
    Running,
    /// The last iteration changed the estimate by no more than the threshold.
    Converged,
    /// The iteration cap was reached before the estimate settled.
    Exhausted,
}

/// When a run stops.
#[derive(Clone, Copy, Debug, PartialEq, Eq, Structural)]
pub struct Criterion {
    /// Largest change between two successive estimates that counts as
    /// settled, as a binary64 encoding.
    pub threshold: u64,
    /// Most iterations a run may take.
    pub max_iterations: usize,
}

/// The state of a run between two iterations.
#[derive(Clone, Copy, Debug, PartialEq, Eq)]
pub struct Progress {
    pub phase: Phase,
    /// Iterations completed so far.
    pub iterations: usize,
    /// The change measured by the latest iteration, as a binary64 encoding;
    /// `None` before the first.
    pub diff: Option<u64>,
}

impl Criterion {
    /// A run capped at `max_iterations`.
    pub fn new(threshold: u64, max_iterations: usize) -> (criterion: Criterion)
        ensures
            criterion == (Criterion { threshold, max_iterations }),
    {
        Criterion { threshold, max_iterations }
    }

    /// A run bounded only by the range of its iteration counter.
    pub fn unbounded(threshold: u64) -> (criterion: Criterion)
        ensures
            criterion == (Criterion { threshold, max_iterations: usize::MAX }),
    {
        Criterion { threshold, max_iterations: usize::MAX }
    }
}

impl Progress {
    /// The state before the first iteration. With a cap of zero there is
    /// nothing to run.
    pub open spec fn initial(criterion: Criterion) -> Progress {
        Progress {
            phase: if criterion.max_iterations == 0 {
                Phase::Exhausted
            } else {
                Phase::Running
            },
            iterations: 0,
            diff: None,
        }
    }

    /// The state after an iteration that measured the change `diff`.
    ///
    /// A run that has stopped stays as it is. Otherwise the iteration is
    /// counted and its change recorded; the run has converged if the change is
    /// at most the threshold, is exhausted if instead the cap is reached, and
    /// goes on in every other case. A state that claims to be running with
    /// its count already at the cap is exhausted as it stands.
    pub open spec fn after(self, criterion: Criterion, diff: u64) -> Progress {
        if self.phase != Phase::Running {
            self
        } else if self.iterations >= criterion.max_iterations {
            Progress { phase: Phase::Exhausted, ..self }
        } else {
            Progress {
                phase: if at_most(diff, criterion.threshold) {
                    Phase::Converged
                } else if self.iterations + 1 == criterion.max_iterations {
                    Phase::Exhausted
                } else {
                    Phase::Running
                },
                iterations: (self.iterations + 1) as usize,
                diff: Some(diff),
            }
        }
    }

    /// The state after iterations that measured `diffs`, in that order.
    pub open spec fn after_all(self, criterion: Criterion, diffs: Seq<u64>) -> Progress
        decreases diffs.len(),
    {
        if diffs.len() == 0 {
            self
        } else {
            self.after_all(criterion, diffs.drop_last()).after(criterion, diffs.last())
        }
    }

    /// A running state has room for at least one more iteration.
    pub open spec fn within(self, criterion: Criterion) -> bool {
        self.phase == Phase::Running ==> self.iterations < criterion.max_iterations
    }

    /// Opens a run.
    pub fn start(criterion: &Criterion) -> (progress: Progress)
        ensures
            progress == Progress::initial(*criterion),
    {
        let phase = if criterion.max_iterations == 0 {
            Phase::Exhausted
        } else {
            Phase::Running
        };
        Progress { phase, iterations: 0, diff: None }
    }

    /// Takes in the change measured by the iteration just completed and
    /// decides whether the run goes on.
    pub fn step(self, criterion: &Criterion, diff: u64) -> (next: Progress)
        ensures
            next == self.after(*criterion, diff),
    {
        match self.phase {
            Phase::Running => {
                if self.iterations >= criterion.max_iterations {
                    Progress { phase: Phase::Exhausted, iterations: self.iterations, diff: self.diff }
                } else {
                    let iterations: usize = self.iterations + 1;
                    let phase = if is_at_most(diff, criterion.threshold) {
                        Phase::Converged
                    } else if iterations == criterion.max_iterations {
                        Phase::Exhausted
                    } else {
                        Phase::Running
                    };
                    Progress { phase, iterations, diff: Some(diff) }
                }
            },
            _ => self,
        }
    }

    /// Whether another iteration is due.
    pub fn is_running(&self) -> (running: bool)
        ensures
            running == (self.phase == Phase::Running),
    {
        match self.phase {
            Phase::Running => true,
            _ => false,
        }
    }
}

/// The state of a run under `criterion` once its iterations have measured
/// `diffs`, in that order.
pub open spec fn run(criterion: Criterion, diffs: Seq<u64>) -> Progress {
    Progress::initial(criterion).after_all(criterion, diffs)
}

/// One more iteration extends a run by one step: a driver that holds the
/// state of a run and hands `Progress::step` the next measured change holds
/// the state of the longer run.
pub proof fn lemma_run_extends(criterion: Criterion, diffs: Seq<u64>, diff: u64)
    ensures
        run(criterion, diffs.push(diff)) == run(criterion, diffs).after(criterion, diff),
{
    assert(diffs.push(diff).drop_last() =~= diffs);
}

/// While a run is running it has counted every measurement so far.
pub proof fn lemma_run_counts_while_running(criterion: Criterion, diffs: Seq<u64>)
    ensures
        run(criterion, diffs).phase == Phase::Running ==> run(criterion, diffs).iterations
            == diffs.len(),
    decreases diffs.len(),
{
    if diffs.len() > 0 {
        lemma_run_counts_while_running(criterion, diffs.drop_last());
    }
}

/// Whatever is measured, a run never counts more iterations than its cap or
/// than there were measurements, and at the cap it is no longer running.
pub proof fn lemma_run_is_bounded(criterion: Criterion, diffs: Seq<u64>)
    ensures
        run(criterion, diffs).within(criterion),
        run(criterion, diffs).iterations <= criterion.max_iterations,
        run(criterion, diffs).iterations <= diffs.len(),
        diffs.len() >= criterion.max_iterations ==> run(criterion, diffs).phase != Phase::Running,
    decreases diffs.len(),
{
    if diffs.len() > 0 {
        lemma_run_is_bounded(criterion, diffs.drop_last());
        lemma_run_counts_while_running(criterion, diffs.drop_last());
    }
}

/// A run that has stopped takes no notice of later measurements.
pub proof fn lemma_stopped_run_stays(progress: Progress, criterion: Criterion, diffs: Seq<u64>)
    requires
        progress.phase != Phase::Running,
    ensures
        progress.after_all(criterion, diffs) == progress,
    decreases diffs.len(),
{
    if diffs.len() > 0 {
        lemma_stopped_run_stays(progress, criterion, diffs.drop_last());
    }
}

/// As long as no measured change is within the threshold, the run goes on
/// until the cap: below the cap it is running and has counted every
/// measurement; from the cap on it is exhausted at exactly the cap.
pub proof fn lemma_run_without_settling(criterion: Criterion, diffs: Seq<u64>)
    requires
        forall|j: int| 0 <= j < diffs.len() ==> !at_most(#[trigger] diffs[j], criterion.threshold),
    ensures
        diffs.len() < criterion.max_iterations ==> run(criterion, diffs) == (Progress {
            phase: Phase::Running,
            iterations: diffs.len() as usize,
            diff: if diffs.len() == 0 {
                None
            } else {
                Some(diffs.last())
            },
        }),
        diffs.len() >= criterion.max_iterations ==> {
            &&& run(criterion, diffs).phase == Phase::Exhausted
            &&& run(criterion, diffs).iterations == criterion.max_iterations
        },
    decreases diffs.len(),
{
    if diffs.len() > 0 {
        let earlier = diffs.drop_last();
        assert forall|j: int| 0 <= j < earlier.len() implies !at_most(
            #[trigger] earlier[j],
            criterion.threshold,
        ) by {
            assert(earlier[j] == diffs[j]);
        }
        lemma_run_without_settling(criterion, earlier);
        assert(diffs.last() == diffs[diffs.len() - 1]);
    }
}

/// The run stops at the first iteration whose measured change is within the
/// threshold, provided the cap allows that iteration: it has then converged,
/// its count is that iteration's number, its recorded change is that
/// iteration's, and nothing measured afterwards alters it.
pub proof fn lemma_run_stops_at_first_settled(criterion: Criterion, diffs: Seq<u64>, first: int)
    requires
        0 <= first < diffs.len(),
        first < criterion.max_iterations,
        at_most(diffs[first], criterion.threshold),
        forall|j: int| 0 <= j < first ==> !at_most(#[trigger] diffs[j], criterion.threshold),
    ensures
        run(criterion, diffs) == (Progress {
            phase: Phase::Converged,
            iterations: (first + 1) as usize,
            diff: Some(diffs[first]),
        }),
    decreases diffs.len(),
{
    let earlier = diffs.drop_last();
    if diffs.len() == first + 1 {
        assert forall|j: int| 0 <= j < earlier.len() implies !at_most(
            #[trigger] earlier[j],
            criterion.threshold,
        ) by {
            assert(earlier[j] == diffs[j]);
        }
        lemma_run_without_settling(criterion, earlier);
    } else {
        assert(earlier[first] == diffs[first]);
        assert forall|j: int| 0 <= j < first implies !at_most(
            #[trigger] earlier[j],
            criterion.threshold,
        ) by {
            assert(earlier[j] == diffs[j]);
        }
        lemma_run_stops_at_first_settled(criterion, earlier, first);
    }
}

/// An iteration that changes nothing ends the run at once: with a threshold
/// that is a number and not negative, and a cap that allows one iteration, a
/// first measured change of zero gives a converged run of exactly one
/// iteration.
pub proof fn lemma_no_change_converges_at_once(criterion: Criterion, diff: u64)
    requires
        criterion.max_iterations >= 1,
        !is_nan(criterion.threshold),
        scaled_value(criterion.threshold) >= 0,
        magnitude(diff) == 0,
    ensures
        run(criterion, seq![diff]) == (Progress {
            phase: Phase::Converged,
            iterations: 1,
            diff: Some(diff),
        }),
{
    let diffs = seq![diff];
    assert(diffs.drop_last() =~= Seq::<u64>::empty());
    assert(diffs.last() == diff);
    assert(run(criterion, diffs.drop_last()) == Progress::initial(criterion));
}

} // verus!
