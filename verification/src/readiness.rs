//! Waiting for a submitted workload to run.
//!
//! A watch delivers events in order until the server closes it, which it does
//! by itself once the timeout of the request has passed. The watcher reads
//! events until one decides, and no further.

use crate::workload::{Phase, WorkloadHandle, WorkloadHandleView};
use vstd::prelude::*;
use vstd::string::StringExecFns;

verus! {

/// The timeout of a watch, in seconds, where the caller has no other wish.
pub const DEFAULT_WATCH_TIMEOUT_SECONDS: u32 = 10;

/// What to ask of the control plane in order to watch one workload.
#[derive(Clone, Debug, PartialEq, Eq)]
pub struct WatchRequest {
    /// Restricts the watch to the workload of that name.
    pub field_selector: String,
    /// The revision to start from; `"0"` delivers the current state first.
    pub since_revision: String,
    /// After this many seconds the server closes the watch.
    pub timeout_seconds: u32,
}

/// The field selector that admits exactly the workload called `name`.
pub open spec fn name_selector(name: Seq<char>) -> Seq<char> {
    "metadata.name="@ + name
}

impl WatchRequest {
    /// A watch on the workload called `name`, starting with its current state.
    pub fn for_workload(name: &str, timeout_seconds: u32) -> (request: Self)
        ensures
            request.field_selector@ == name_selector(name@),
            request.since_revision@ == "0"@,
            request.timeout_seconds == timeout_seconds,
    {
        WatchRequest {
            field_selector: String::from_str("metadata.name=").concat(name),
            since_revision: String::from_str("0"),
            timeout_seconds,
        }
    }
}

/// One event of a watch.
#[derive(Clone, Debug, PartialEq, Eq)]
pub enum WatchEvent {
    Added(WorkloadHandle),
    Modified(WorkloadHandle),
    Deleted(WorkloadHandle),
    /// A progress marker of the server, which carries no workload.
    Bookmark,
    /// The server reports a failure inside the stream, with its reason.
    Error(String),
}

/// Mathematical model of a [`WatchEvent`].
pub enum WatchEventView {
    Added(WorkloadHandleView),
    Modified(WorkloadHandleView),
    Deleted(WorkloadHandleView),
    Bookmark,
    Error(Seq<char>),
}

impl View for WatchEvent {
    type V = WatchEventView;

    open spec fn view(&self) -> WatchEventView {
        match self {
            WatchEvent::Added(handle) => WatchEventView::Added(handle@),
            WatchEvent::Modified(handle) => WatchEventView::Modified(handle@),
            WatchEvent::Deleted(handle) => WatchEventView::Deleted(handle@),
            WatchEvent::Bookmark => WatchEventView::Bookmark,
            WatchEvent::Error(reason) => WatchEventView::Error(reason@),
        }
    }
}

impl DeepView for WatchEvent {
    type V = WatchEventView;

    open spec fn deep_view(&self) -> WatchEventView {
        self@
    }
}

/// How a watch came to its end without a deciding event.
#[derive(Clone, Debug, PartialEq, Eq)]
pub enum WatchEnding {
    /// The server closed the watch: the timeout has passed.
    Deadline,
    /// The connection or the protocol failed.
    Broken(String),
}

/// Why a workload was not seen running.
#[derive(Clone, Debug, PartialEq, Eq)]
pub enum WatchFailure {
    /// The watch ended before the workload ran.
    WatchTimedOut,
    /// The connection or the protocol failed, with the client's message.
    TransportError(String),
    /// The control plane reported a change of the workload without a status.
    MissingStatus,
}

/// Mathematical model of a [`WatchFailure`].
pub enum WatchFailureView {
    WatchTimedOut,
    TransportError(Seq<char>),
    MissingStatus,
}

impl View for WatchFailure {
    type V = WatchFailureView;

    open spec fn view(&self) -> WatchFailureView {
        match self {
            WatchFailure::WatchTimedOut => WatchFailureView::WatchTimedOut,
            WatchFailure::TransportError(message) => WatchFailureView::TransportError(message@),
            WatchFailure::MissingStatus => WatchFailureView::MissingStatus,
        }
    }
}

/// The failure that the end of a watch amounts to.
pub open spec fn ending_failure(ending: WatchEnding) -> WatchFailureView {
    match ending {
        WatchEnding::Deadline => WatchFailureView::WatchTimedOut,
        WatchEnding::Broken(message) => WatchFailureView::TransportError(message@),
    }
}

/// What one event means to the watcher.
#[derive(Clone, Copy, Debug, PartialEq, Eq, Structural)]
pub enum Verdict {
    /// Nothing is decided; read the next event.
    Continue,
    /// The workload runs; stop reading.
    Ready,
    /// The event is a change without a status; stop reading and fail.
    MissingStatus,
}

/// The meaning of one event: only a modification decides anything.
pub open spec fn verdict(event: WatchEventView) -> Verdict {
    match event {
        WatchEventView::Modified(handle) => match handle.phase {
            None => Verdict::MissingStatus,
            Some(Phase::Running) => Verdict::Ready,
            Some(_) => Verdict::Continue,
        },
        _ => Verdict::Continue,
    }
}

/// The position of the first event at or after `from` that decides, or the
/// number of events if there is none.
pub open spec fn next_decisive(events: Seq<WatchEventView>, from: int) -> int
    decreases events.len() - from,
{
    if from < 0 || from >= events.len() {
        events.len() as int
    } else if verdict(events[from]) != Verdict::Continue {
        from
    } else {
        next_decisive(events, from + 1)
    }
}

/// How a watch went: its result and the number of events that were read.
#[derive(Debug, PartialEq, Eq)]
pub struct WatchOutcome {
    pub result: Result<(), WatchFailure>,
    pub consumed: usize,
}

/// Mathematical model of a [`WatchOutcome`].
pub struct WatchOutcomeView {
    pub result: Result<(), WatchFailureView>,
    pub consumed: nat,
}

impl View for WatchOutcome {
    type V = WatchOutcomeView;

    open spec fn view(&self) -> WatchOutcomeView {
        WatchOutcomeView {
            result: match self.result {
                Ok(()) => Ok(()),
                Err(failure) => Err(failure@),
            },
            consumed: self.consumed as nat,
        }
    }
}

/// The outcome of a watch that delivers `events` and then ends as `ending`
/// says.
///
/// The first deciding event settles the result and is the last one read.
/// Without one, every event is read and the ending is the failure.
pub open spec fn readiness(events: Seq<WatchEventView>, ending: WatchEnding) -> WatchOutcomeView {
    let at = next_decisive(events, 0);
    if at >= events.len() {
        WatchOutcomeView { result: Err(ending_failure(ending)), consumed: events.len() }
    } else if verdict(events[at]) == Verdict::Ready {
        WatchOutcomeView { result: Ok(()), consumed: (at + 1) as nat }
    } else {
        WatchOutcomeView { result: Err(WatchFailureView::MissingStatus), consumed: (at + 1) as nat }
    }
}

/// Judges one event as it arrives.
pub fn judge(event: &WatchEvent) -> (v: Verdict)
    ensures
        v == verdict(event@),
{
    match event {
        WatchEvent::Modified(handle) => match handle.phase {
            None => Verdict::MissingStatus,
            Some(Phase::Running) => Verdict::Ready,
            Some(_) => Verdict::Continue,
        },
        _ => Verdict::Continue,
    }
}

/// Turns the end of a watch into the failure it amounts to.
pub fn watch_ended(ending: WatchEnding) -> (failure: WatchFailure)
    ensures
        failure@ == ending_failure(ending),
{
    match ending {
        WatchEnding::Deadline => WatchFailure::WatchTimedOut,
        WatchEnding::Broken(message) => WatchFailure::TransportError(message),
    }
}

/// Runs the watcher over a watch that delivered `events` and then ended as
/// `ending` says.
pub fn wait_until_running(events: &Vec<WatchEvent>, ending: WatchEnding) -> (outcome: WatchOutcome)
    ensures
        outcome@ == readiness(events.deep_view(), ending),
{
    let mut i: usize = 0;
    while i < events.len()
        invariant
            i <= events.len(),
            next_decisive(events.deep_view(), 0) == next_decisive(events.deep_view(), i as int),
        decreases events.len() - i,
    {
        match judge(&events[i]) {
            Verdict::Continue => {},
            Verdict::Ready => {
                return WatchOutcome { result: Ok(()), consumed: i + 1 };
            },
            Verdict::MissingStatus => {
                return WatchOutcome { result: Err(WatchFailure::MissingStatus), consumed: i + 1 };
            },
        }
        i += 1;
    }
    WatchOutcome { result: Err(watch_ended(ending)), consumed: i }
}

/// Whether an event is a modification that shows the workload running.
pub open spec fn shows_running(event: WatchEventView) -> bool {
    event matches WatchEventView::Modified(handle) && handle.phase == Some(Phase::Running)
}

/// Whether an event is a modification that carries no status.
pub open spec fn lacks_status(event: WatchEventView) -> bool {
    event matches WatchEventView::Modified(handle) && handle.phase.is_none()
}

/// No event before the first deciding one decides, and that one does.
pub proof fn lemma_next_decisive(events: Seq<WatchEventView>, from: int)
    requires
        0 <= from <= events.len(),
    ensures
        from <= next_decisive(events, from) <= events.len(),
        forall|j: int|
            from <= j < next_decisive(events, from) ==> verdict(#[trigger] events[j])
                == Verdict::Continue,
        next_decisive(events, from) < events.len() ==> verdict(
            events[next_decisive(events, from)],
        ) != Verdict::Continue,
    decreases events.len() - from,
{
    if from < events.len() && verdict(events[from]) == Verdict::Continue {
        lemma_next_decisive(events, from + 1);
    }
}

/// A watch that the server closes before any event showed the workload
/// running has timed out, and every event of it was read. This holds of
/// watches in which no modification lacks its status.
pub proof fn lemma_times_out_without_running(events: Seq<WatchEventView>)
    requires
        forall|i: int| 0 <= i < events.len() ==> !shows_running(#[trigger] events[i]),
        forall|i: int| 0 <= i < events.len() ==> !lacks_status(#[trigger] events[i]),
    ensures
        readiness(events, WatchEnding::Deadline) == (WatchOutcomeView {
            result: Err(WatchFailureView::WatchTimedOut),
            consumed: events.len(),
        }),
{
    lemma_next_decisive(events, 0);
    let at = next_decisive(events, 0);
    if at < events.len() {
        assert(shows_running(events[at]) || lacks_status(events[at]));
    }
}

/// A watch with an event that shows the workload running succeeds, however
/// it ends. The first such event is the last one read. This holds of watches
/// in which no earlier modification lacks its status.
pub proof fn lemma_running_ends_the_watch(
    events: Seq<WatchEventView>,
    ending: WatchEnding,
    at: int,
)
    requires
        0 <= at < events.len(),
        shows_running(events[at]),
        forall|j: int| 0 <= j < at ==> !lacks_status(#[trigger] events[j]),
    ensures
        readiness(events, ending).result == Ok::<(), WatchFailureView>(()),
        1 <= readiness(events, ending).consumed <= at + 1,
        shows_running(events[readiness(events, ending).consumed - 1]),
        forall|j: int|
            0 <= j < readiness(events, ending).consumed - 1 ==> !shows_running(
                #[trigger] events[j],
            ),
{
    lemma_next_decisive(events, 0);
    let first = next_decisive(events, 0);
    if first > at {
        assert(verdict(events[at]) == Verdict::Continue);
    }
    if first < at {
        assert(!lacks_status(events[first]));
    }
    assert forall|j: int| 0 <= j < first implies !shows_running(#[trigger] events[j]) by {
        assert(verdict(events[j]) == Verdict::Continue);
    }
}

/// Once an event has decided, nothing after it matters: a watch that agrees
/// with `events` on the events that were read has the same outcome, whatever
/// follows them and however it ends.
pub proof fn lemma_later_events_are_not_read(
    events: Seq<WatchEventView>,
    ending: WatchEnding,
    other: Seq<WatchEventView>,
    other_ending: WatchEnding,
)
    requires
        next_decisive(events, 0) < events.len(),
        other.len() >= readiness(events, ending).consumed,
        other.take(readiness(events, ending).consumed as int) == events.take(
            readiness(events, ending).consumed as int,
        ),
    ensures
        readiness(other, other_ending) == readiness(events, ending),
{
    lemma_next_decisive(events, 0);
    lemma_next_decisive(other, 0);
    let first = next_decisive(events, 0);
    let read = first + 1;
    assert forall|j: int| 0 <= j < read implies other[j] == events[j] by {
        assert(other.take(read)[j] == events.take(read)[j]);
    }
    let other_first = next_decisive(other, 0);
    if other_first < first {
        assert(verdict(events[other_first]) == Verdict::Continue);
    }
    if other_first > first {
        assert(verdict(other[first]) == Verdict::Continue);
    }
}

} // verus!
