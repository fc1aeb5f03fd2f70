//! The pipeline coordinator: what to do next, given what just happened.
//!
//! The coordinator performs no input or output. The program around it
//! performs each [`Action`] and reports the outcome as an [`Event`].

use crate::clock::unix_time_now;
use crate::diff::diff;
use crate::diff::diff_spec;
use crate::diff::lemma_diff_of_same_is_empty;
use crate::diff::ChangeSet;
use crate::diff::ChangeSetView;
use crate::model::DataTable;
use crate::model::SnapshotView;
use crate::validate::validate;
use crate::validate::ValidSnapshot;
use vstd::prelude::*;

verus! {

/// Seconds that must lie between the baseline and the next capture.
pub const MIN_CAPTURE_INTERVAL: u64 = 3600;

/// Seconds to wait after a capture that failed or was not valid.
pub const RETRY_BACKOFF: u64 = 60;

/// Where the coordinator stands in its cycle.
#[derive(Clone, Copy, Debug, PartialEq, Eq, Structural)]
pub enum Phase {
    /// Looking for a baseline to start from.
    Bootstrapping,
    /// Holding a baseline that is too young to compare against.
    Waiting,
    /// Asking for a new capture, again and again until one is valid.
    Fetching,
    /// Waiting for the change set of the candidate to be stored.
    Publishing,
    /// Stopped for good.
    Halted,
}

/// What the program around the coordinator reports.
#[derive(Debug)]
pub enum Event {
    /// The program has started.
    Started,
    /// The baseline of an earlier run was read back.
    BaselineRestored(DataTable),
    /// No baseline of an earlier run could be read.
    BaselineUnavailable,
    /// The sleep that was asked for is over.
    TimerElapsed,
    /// A new capture was fetched.
    SnapshotFetched(DataTable),
    /// No new capture could be fetched.
    FetchFailed,
    /// The change set was stored, the cache refreshed and the candidate
    /// saved as the baseline of later runs.
    PublishSucceeded,
    /// Storing the change set or saving the candidate failed.
    PublishFailed,
}

/// What the coordinator asks the program around it to do.
#[derive(Debug)]
pub enum Action {
    /// Try to read the baseline of an earlier run.
    RestoreBaseline,
    /// Sleep, then report `TimerElapsed`.
    Sleep { seconds: u64 },
    /// Fetch a new capture.
    Fetch,
    /// Store the change set as one transaction, refresh the cache, and save
    /// the candidate as the baseline of later runs.
    Publish(ChangeSet),
    /// Terminate.
    Halt,
}

pub enum EventView {
    Started,
    BaselineRestored(SnapshotView),
    BaselineUnavailable,
    TimerElapsed,
    SnapshotFetched(SnapshotView),
    FetchFailed,
    PublishSucceeded,
    PublishFailed,
}

pub enum ActionView {
    RestoreBaseline,
    Sleep { seconds: u64 },
    Fetch,
    Publish(ChangeSetView),
    Halt,
}

impl View for Event {
    type V = EventView;

    open spec fn view(&self) -> EventView {
        match self {
            Event::Started => EventView::Started,
            Event::BaselineRestored(table) => EventView::BaselineRestored(table@),
            Event::BaselineUnavailable => EventView::BaselineUnavailable,
            Event::TimerElapsed => EventView::TimerElapsed,
            Event::SnapshotFetched(table) => EventView::SnapshotFetched(table@),
            Event::FetchFailed => EventView::FetchFailed,
            Event::PublishSucceeded => EventView::PublishSucceeded,
            Event::PublishFailed => EventView::PublishFailed,
        }
    }
}

impl View for Action {
    type V = ActionView;

    open spec fn view(&self) -> ActionView {
        match self {
            Action::RestoreBaseline => ActionView::RestoreBaseline,
            Action::Sleep { seconds } => ActionView::Sleep { seconds: *seconds },
            Action::Fetch => ActionView::Fetch,
            Action::Publish(changes) => ActionView::Publish(changes@),
            Action::Halt => ActionView::Halt,
        }
    }
}

/// The coordinator's state: its phase, the baseline it compares against and
/// the candidate it has asked to publish.
#[derive(Debug)]
pub struct Coordinator {
    phase: Phase,
    baseline: Option<ValidSnapshot>,
    candidate: Option<ValidSnapshot>,
}

pub struct CoordinatorView {
    pub phase: Phase,
    pub baseline: Option<SnapshotView>,
    pub candidate: Option<SnapshotView>,
}

/// The view of a capture that may be absent.
pub open spec fn snapshot_view(snapshot: Option<ValidSnapshot>) -> Option<SnapshotView> {
    match snapshot {
        Some(s) => Some(s@),
        None => None,
    }
}

impl View for Coordinator {
    type V = CoordinatorView;

    closed spec fn view(&self) -> CoordinatorView {
        CoordinatorView {
            phase: self.phase,
            baseline: snapshot_view(self.baseline),
            candidate: snapshot_view(self.candidate),
        }
    }
}

/// How long to sleep at `now` while a baseline taken at `loaded` is younger
/// than [`MIN_CAPTURE_INTERVAL`]: until it is old enough, but never longer
/// than one interval at a time. Zero once the baseline is old enough.
pub open spec fn remaining_wait(loaded: i64, now: i64) -> u64 {
    let age = now - loaded;
    if age >= MIN_CAPTURE_INTERVAL {
        0
    } else if age <= 0 {
        MIN_CAPTURE_INTERVAL
    } else {
        (MIN_CAPTURE_INTERVAL - age) as u64
    }
}

/// Computes [`remaining_wait`].
pub fn wait_before_capture(loaded: i64, now: i64) -> (seconds: u64)
    ensures
        seconds == remaining_wait(loaded, now),
{
    let age: i128 = now as i128 - loaded as i128;
    if age >= 3600 {
        0
    } else if age <= 0 {
        MIN_CAPTURE_INTERVAL
    } else {
        (3600 - age) as u64
    }
}

impl CoordinatorView {
    /// The state before anything has happened.
    pub open spec fn initial() -> CoordinatorView {
        CoordinatorView { phase: Phase::Bootstrapping, baseline: None, candidate: None }
    }

    /// The same state, stopped for good.
    pub open spec fn halted(self) -> CoordinatorView {
        CoordinatorView { phase: Phase::Halted, ..self }
    }

    /// What the phases promise about the captures that are held: a baseline
    /// while waiting, a candidate exactly while publishing, and only valid
    /// captures ever.
    pub open spec fn wf(self) -> bool {
        &&& self.baseline matches Some(b) ==> b.valid()
        &&& self.candidate matches Some(c) ==> c.valid()
        &&& self.phase == Phase::Bootstrapping ==> self.baseline is None && self.candidate is None
        &&& self.phase == Phase::Waiting ==> self.baseline is Some && self.candidate is None
        &&& self.phase == Phase::Fetching ==> self.candidate is None
        &&& self.phase == Phase::Publishing ==> self.candidate is Some
    }

    /// The state after `event` arrived at time `now`, and what to do next.
    ///
    /// An event that the phase does not expect halts the coordinator.
    pub open spec fn next(self, event: EventView, now: i64) -> (CoordinatorView, ActionView) {
        match (self.phase, event) {
            (Phase::Bootstrapping, EventView::Started) => (self, ActionView::RestoreBaseline),
            (Phase::Bootstrapping, EventView::BaselineRestored(restored)) => if restored.valid() {
                (
                    CoordinatorView {
                        phase: Phase::Waiting,
                        baseline: Some(restored),
                        candidate: None,
                    },
                    ActionView::Sleep { seconds: remaining_wait(restored.loaded, now) },
                )
            } else {
                (CoordinatorView { phase: Phase::Fetching, ..self }, ActionView::Fetch)
            },
            (Phase::Bootstrapping, EventView::BaselineUnavailable) => (
                CoordinatorView { phase: Phase::Fetching, ..self },
                ActionView::Fetch,
            ),
            (Phase::Waiting, EventView::TimerElapsed) => match self.baseline {
                Some(baseline) => if remaining_wait(baseline.loaded, now) == 0 {
                    (CoordinatorView { phase: Phase::Fetching, ..self }, ActionView::Fetch)
                } else {
                    (self, ActionView::Sleep { seconds: remaining_wait(baseline.loaded, now) })
                },
                None => (self.halted(), ActionView::Halt),
            },
            (Phase::Fetching, EventView::TimerElapsed) => (self, ActionView::Fetch),
            (Phase::Fetching, EventView::FetchFailed) => (
                self,
                ActionView::Sleep { seconds: RETRY_BACKOFF },
            ),
            (Phase::Fetching, EventView::SnapshotFetched(fetched)) => if fetched.valid() {
                (
                    CoordinatorView {
                        phase: Phase::Publishing,
                        baseline: self.baseline,
                        candidate: Some(fetched),
                    },
                    ActionView::Publish(
                        match self.baseline {
                            Some(baseline) => diff_spec(baseline, fetched),
                            None => ChangeSetView::empty(),
                        },
                    ),
                )
            } else {
                (self, ActionView::Sleep { seconds: RETRY_BACKOFF })
            },
            (Phase::Publishing, EventView::PublishSucceeded) => match self.candidate {
                Some(candidate) => (
                    CoordinatorView {
                        phase: Phase::Waiting,
                        baseline: Some(candidate),
                        candidate: None,
                    },
                    ActionView::Sleep { seconds: remaining_wait(candidate.loaded, now) },
                ),
                None => (self.halted(), ActionView::Halt),
            },
            _ => (self.halted(), ActionView::Halt),
        }
    }
}

impl Coordinator {
    /// A coordinator that has seen nothing yet.
    pub fn new() -> (coordinator: Coordinator)
        ensures
            coordinator@ == CoordinatorView::initial(),
    {
        Coordinator { phase: Phase::Bootstrapping, baseline: None, candidate: None }
    }

    /// Where the coordinator stands in its cycle.
    pub fn phase(&self) -> (phase: Phase)
        ensures
            phase == self@.phase,
    {
        self.phase
    }

    /// The capture that the next one is compared against.
    pub fn baseline(&self) -> (baseline: Option<&ValidSnapshot>)
        ensures
            baseline matches Some(b) ==> self@.baseline == Some(b@),
            baseline is None ==> self@.baseline is None,
    {
        self.baseline.as_ref()
    }

    /// The capture whose change set is being published.
    pub fn candidate(&self) -> (candidate: Option<&ValidSnapshot>)
        ensures
            candidate matches Some(c) ==> self@.candidate == Some(c@),
            candidate is None ==> self@.candidate is None,
    {
        self.candidate.as_ref()
    }

    fn halt(self) -> (outcome: (Coordinator, Action))
        ensures
            outcome.0@ == self@.halted(),
            outcome.1@ == ActionView::Halt,
    {
        (
            Coordinator {
                phase: Phase::Halted,
                baseline: self.baseline,
                candidate: self.candidate,
            },
            Action::Halt,
        )
    }

    /// Takes in `event`, which arrived at time `now`, and says what to do
    /// next.
    pub fn step_at(self, event: Event, now: i64) -> (outcome: (Coordinator, Action))
        ensures
            (outcome.0@, outcome.1@) == self@.next(event@, now),
    {
        match self.phase {
            Phase::Bootstrapping => match event {
                Event::Started => (self, Action::RestoreBaseline),
                Event::BaselineRestored(restored) => match validate(restored) {
                    Ok(baseline) => {
                        let seconds = wait_before_capture(baseline.loaded(), now);
                        (
                            Coordinator {
                                phase: Phase::Waiting,
                                baseline: Some(baseline),
                                candidate: None,
                            },
                            Action::Sleep { seconds },
                        )
                    },
                    Err(_) => (
                        Coordinator {
                            phase: Phase::Fetching,
                            baseline: self.baseline,
                            candidate: self.candidate,
                        },
                        Action::Fetch,
                    ),
                },
                Event::BaselineUnavailable => (
                    Coordinator {
                        phase: Phase::Fetching,
                        baseline: self.baseline,
                        candidate: self.candidate,
                    },
                    Action::Fetch,
                ),
                _ => self.halt(),
            },
            Phase::Waiting => match event {
                Event::TimerElapsed => {
                    let seconds = match &self.baseline {
                        Some(baseline) => Some(wait_before_capture(baseline.loaded(), now)),
                        None => None,
                    };
                    match seconds {
                        Some(0) => (
                            Coordinator {
                                phase: Phase::Fetching,
                                baseline: self.baseline,
                                candidate: self.candidate,
                            },
                            Action::Fetch,
                        ),
                        Some(seconds) => (self, Action::Sleep { seconds }),
                        None => self.halt(),
                    }
                },
                _ => self.halt(),
            },
            Phase::Fetching => match event {
                Event::TimerElapsed => (self, Action::Fetch),
                Event::FetchFailed => (self, Action::Sleep { seconds: RETRY_BACKOFF }),
                Event::SnapshotFetched(fetched) => match validate(fetched) {
                    Ok(candidate) => {
                        let changes = match &self.baseline {
                            Some(baseline) => diff(baseline, &candidate),
                            None => ChangeSet::empty(),
                        };
                        (
                            Coordinator {
                                phase: Phase::Publishing,
                                baseline: self.baseline,
                                candidate: Some(candidate),
                            },
                            Action::Publish(changes),
                        )
                    },
                    Err(_) => (self, Action::Sleep { seconds: RETRY_BACKOFF }),
                },
                _ => self.halt(),
            },
            Phase::Publishing => match event {
                Event::PublishSucceeded => match self.candidate {
                    Some(candidate) => {
                        let seconds = wait_before_capture(candidate.loaded(), now);
                        (
                            Coordinator {
                                phase: Phase::Waiting,
                                baseline: Some(candidate),
                                candidate: None,
                            },
                            Action::Sleep { seconds },
                        )
                    },
                    None => (
                        Coordinator {
                            phase: Phase::Halted,
                            baseline: self.baseline,
                            candidate: None,
                        },
                        Action::Halt,
                    ),
                },
                _ => self.halt(),
            },
            Phase::Halted => self.halt(),
        }
    }

    /// Takes in `event` and says what to do next, reading the clock for the
    /// time at which the event arrived.
    pub fn step(self, event: Event) -> (outcome: (Coordinator, Action))
        ensures
            exists|now: i64| (outcome.0@, outcome.1@) == self@.next(event@, now),
    {
        let now = unix_time_now();
        self.step_at(event, now)
    }
}

/// Whatever happens, the coordinator holds only valid captures, a baseline
/// while it waits and a candidate while it publishes.
pub proof fn lemma_step_preserves_wf(state: CoordinatorView, event: EventView, now: i64)
    requires
        state.wf(),
    ensures
        state.next(event, now).0.wf(),
{
}

/// A coordinator that has halted stays halted.
pub proof fn lemma_halted_is_final(state: CoordinatorView, event: EventView, now: i64)
    requires
        state.phase == Phase::Halted,
    ensures
        state.next(event, now) == (state, ActionView::Halt),
{
}

/// A capture that could not be fetched, or that is not valid, is answered by
/// a sleep of [`RETRY_BACKOFF`] seconds and changes nothing: the coordinator
/// goes on fetching from the baseline it had.
pub proof fn lemma_failed_capture_is_retried(state: CoordinatorView, event: EventView, now: i64)
    requires
        state.phase == Phase::Fetching,
        event is FetchFailed || (event is SnapshotFetched && !event->SnapshotFetched_0.valid()),
    ensures
        state.next(event, now) == (state, ActionView::Sleep { seconds: RETRY_BACKOFF }),
{
}

/// The baseline changes only when one is restored at the start and when a
/// candidate has been published, which then is the new baseline.
pub proof fn lemma_baseline_changes_on_publish_only(
    state: CoordinatorView,
    event: EventView,
    now: i64,
)
    requires
        state.next(event, now).0.baseline != state.baseline,
    ensures
        state.next(event, now).0.phase == Phase::Waiting,
        (state.phase == Phase::Publishing && event is PublishSucceeded && state.next(
            event,
            now,
        ).0.baseline == state.candidate) || (state.phase == Phase::Bootstrapping
            && event is BaselineRestored && event->BaselineRestored_0.valid() && state.next(
            event,
            now,
        ).0.baseline == Some(event->BaselineRestored_0)),
{
}

/// A waiting coordinator asks for a new capture only once the baseline is
/// at least [`MIN_CAPTURE_INTERVAL`] seconds old, and until then only sleeps.
pub proof fn lemma_capture_waits_for_interval(state: CoordinatorView, event: EventView, now: i64)
    requires
        state.wf(),
        state.phase == Phase::Waiting,
        event is TimerElapsed,
    ensures
        state.baseline is Some,
        now - state.baseline->0.loaded >= MIN_CAPTURE_INTERVAL ==> state.next(event, now) == (
            CoordinatorView { phase: Phase::Fetching, ..state },
            ActionView::Fetch,
        ),
        now - state.baseline->0.loaded < MIN_CAPTURE_INTERVAL ==> state.next(event, now).0 == state
            && state.next(event, now).1 is Sleep && 0 < state.next(event, now).1->seconds
            <= MIN_CAPTURE_INTERVAL,
{
}

/// A valid capture is published with its diff against the baseline, or with
/// no event if there is no baseline yet, and becomes the candidate.
pub proof fn lemma_valid_capture_is_published(
    state: CoordinatorView,
    fetched: SnapshotView,
    now: i64,
)
    requires
        state.phase == Phase::Fetching,
        fetched.valid(),
    ensures
        ({
            let (after, action) = state.next(EventView::SnapshotFetched(fetched), now);
            &&& after.phase == Phase::Publishing
            &&& after.baseline == state.baseline
            &&& after.candidate == Some(fetched)
            &&& state.baseline matches Some(baseline) ==> action == ActionView::Publish(
                diff_spec(baseline, fetched),
            )
            &&& state.baseline is None ==> action == ActionView::Publish(ChangeSetView::empty())
            &&& state.baseline == Some(fetched) ==> action == ActionView::Publish(
                ChangeSetView::empty(),
            )
        }),
{
    lemma_diff_of_same_is_empty(fetched);
}

/// Once its change set is stored, the candidate is the baseline, whether
/// or not the change set held any event.
pub proof fn lemma_published_candidate_becomes_baseline(state: CoordinatorView, now: i64)
    requires
        state.phase == Phase::Publishing,
        state.candidate is Some,
    ensures
        ({
            let (after, action) = state.next(EventView::PublishSucceeded, now);
            &&& after.phase == Phase::Waiting
            &&& after.baseline == state.candidate
            &&& after.candidate is None
            &&& action == ActionView::Sleep {
                seconds: remaining_wait(state.candidate->0.loaded, now),
            }
        }),
{
}

/// A change set that could not be stored halts the coordinator with the
/// baseline it had.
pub proof fn lemma_failed_publish_halts(state: CoordinatorView, now: i64)
    requires
        state.phase == Phase::Publishing,
    ensures
        state.next(EventView::PublishFailed, now) == (state.halted(), ActionView::Halt),
        state.halted().baseline == state.baseline,
{
}

} // verus!
