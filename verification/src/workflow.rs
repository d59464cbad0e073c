//! The order of the stages, and what a failure does to it.
//!
//! A workload is created, watched until it runs, attached to, its log is
//! followed, and it is deleted. Each stage is reported when it is over. A
//! failure ends the whole: no later stage is tried.

use crate::attach::ProcessStatus;
use crate::deletion::{
    acknowledged_name, confirm_deletion, confirms, DeletionResult, DeletionResultView,
};
use crate::logs::{LogFailure, LogFailureView};
use crate::readiness::{WatchFailure, WatchFailureView};
use vstd::prelude::*;

verus! {

/// The stages of a lifecycle, in their order.
#[derive(Clone, Copy, Debug, PartialEq, Eq, Structural)]
pub enum Stage {
    Create,
    Watch,
    Attach,
    Log,
    Delete,
}

/// Where a lifecycle stands.
#[derive(Clone, Copy, Debug, PartialEq, Eq, Structural)]
pub enum Progress {
    /// This stage is to be carried out and reported next.
    At(Stage),
    /// Every stage is over; the deletion was acknowledged.
    Completed,
    /// This stage failed; nothing more is to be done.
    Aborted(Stage),
}

/// What follows a stage that went well.
pub open spec fn following(stage: Stage) -> Progress {
    match stage {
        Stage::Create => Progress::At(Stage::Watch),
        Stage::Watch => Progress::At(Stage::Attach),
        Stage::Attach => Progress::At(Stage::Log),
        Stage::Log => Progress::At(Stage::Delete),
        Stage::Delete => Progress::Completed,
    }
}

/// How a stage went, as the caller reports it.
#[derive(Debug, PartialEq, Eq)]
pub enum StageReport {
    /// The workload was submitted, or the request failed with this message.
    Created(Result<(), String>),
    /// The workload was seen running, or the watch failed.
    Watched(Result<(), WatchFailure>),
    /// The attached process was drained and gave this status, if any; or
    /// attaching failed with this message.
    Attached(Result<Option<ProcessStatus>, String>),
    /// The log was followed to its end, or the following failed.
    Logged(Result<(), LogFailure>),
    /// The control plane answered the delete request, or the request failed
    /// with this message.
    Deleted(Result<DeletionResult, String>),
}

/// Mathematical model of a [`StageReport`].
pub enum StageReportView {
    Created(Result<(), Seq<char>>),
    Watched(Result<(), WatchFailureView>),
    Attached(Result<Option<ProcessStatus>, Seq<char>>),
    Logged(Result<(), LogFailureView>),
    Deleted(Result<DeletionResultView, Seq<char>>),
}

impl View for StageReport {
    type V = StageReportView;

    open spec fn view(&self) -> StageReportView {
        match self {
            StageReport::Created(Ok(())) => StageReportView::Created(Ok(())),
            StageReport::Created(Err(message)) => StageReportView::Created(Err(message@)),
            StageReport::Watched(Ok(())) => StageReportView::Watched(Ok(())),
            StageReport::Watched(Err(failure)) => StageReportView::Watched(Err(failure@)),
            StageReport::Attached(Ok(status)) => StageReportView::Attached(Ok(*status)),
            StageReport::Attached(Err(message)) => StageReportView::Attached(Err(message@)),
            StageReport::Logged(Ok(())) => StageReportView::Logged(Ok(())),
            StageReport::Logged(Err(failure)) => StageReportView::Logged(Err(failure@)),
            StageReport::Deleted(Ok(result)) => StageReportView::Deleted(Ok(result@)),
            StageReport::Deleted(Err(message)) => StageReportView::Deleted(Err(message@)),
        }
    }
}

/// The stage that a report is about.
pub open spec fn stage_of(report: StageReportView) -> Stage {
    match report {
        StageReportView::Created(_) => Stage::Create,
        StageReportView::Watched(_) => Stage::Watch,
        StageReportView::Attached(_) => Stage::Attach,
        StageReportView::Logged(_) => Stage::Log,
        StageReportView::Deleted(_) => Stage::Delete,
    }
}

/// Why a lifecycle was aborted.
#[derive(Clone, Debug, PartialEq, Eq)]
pub enum Cause {
    /// The connection or the protocol failed, with the client's message.
    TransportError(String),
    /// The watch ended before the workload ran.
    WatchTimedOut,
    /// The control plane reported a change of the workload without a status.
    MissingStatus,
    /// The following of the log failed.
    LogFailure(LogFailure),
    /// The control plane acknowledged the deletion of a workload of this
    /// name, which is not the one that was to be deleted.
    DeletionMismatch(String),
    /// The report is not about the stage that the lifecycle is at.
    OutOfTurn,
}

/// Mathematical model of a [`Cause`].
pub enum CauseView {
    TransportError(Seq<char>),
    WatchTimedOut,
    MissingStatus,
    LogFailure(LogFailureView),
    DeletionMismatch(Seq<char>),
    OutOfTurn,
}

impl View for Cause {
    type V = CauseView;

    open spec fn view(&self) -> CauseView {
        match self {
            Cause::TransportError(message) => CauseView::TransportError(message@),
            Cause::WatchTimedOut => CauseView::WatchTimedOut,
            Cause::MissingStatus => CauseView::MissingStatus,
            Cause::LogFailure(failure) => CauseView::LogFailure(failure@),
            Cause::DeletionMismatch(returned) => CauseView::DeletionMismatch(returned@),
            Cause::OutOfTurn => CauseView::OutOfTurn,
        }
    }
}

/// A failure with what is needed to tell it from the others: the stage, the
/// workload and the cause.
#[derive(Clone, Debug, PartialEq, Eq)]
pub struct WorkflowFailure {
    pub stage: Stage,
    pub name: String,
    pub cause: Cause,
}

/// Mathematical model of a [`WorkflowFailure`].
pub struct WorkflowFailureView {
    pub stage: Stage,
    pub name: Seq<char>,
    pub cause: CauseView,
}

impl View for WorkflowFailure {
    type V = WorkflowFailureView;

    open spec fn view(&self) -> WorkflowFailureView {
        WorkflowFailureView { stage: self.stage, name: self.name@, cause: self.cause@ }
    }
}

/// What a report says went wrong in its stage, if anything, for the
/// workload called `name`.
///
/// An answer to the delete request is held against the name: an immediate
/// deletion of another workload is a failure.
pub open spec fn fault(name: Seq<char>, report: StageReportView) -> Option<CauseView> {
    match report {
        StageReportView::Created(Err(message)) => Some(CauseView::TransportError(message)),
        StageReportView::Watched(Err(WatchFailureView::WatchTimedOut)) => Some(
            CauseView::WatchTimedOut,
        ),
        StageReportView::Watched(Err(WatchFailureView::TransportError(message))) => Some(
            CauseView::TransportError(message),
        ),
        StageReportView::Watched(Err(WatchFailureView::MissingStatus)) => Some(
            CauseView::MissingStatus,
        ),
        StageReportView::Attached(Err(message)) => Some(CauseView::TransportError(message)),
        StageReportView::Logged(Err(failure)) => Some(CauseView::LogFailure(failure)),
        StageReportView::Deleted(Err(message)) => Some(CauseView::TransportError(message)),
        StageReportView::Deleted(Ok(result)) => if confirms(name, result) {
            None
        } else {
            Some(CauseView::DeletionMismatch(acknowledged_name(result).unwrap()))
        },
        _ => None,
    }
}

/// The lifecycle of one workload.
#[derive(Debug, PartialEq, Eq)]
pub struct Lifecycle {
    name: String,
    progress: Progress,
    status: Option<ProcessStatus>,
}

/// Mathematical model of a [`Lifecycle`].
pub struct LifecycleView {
    pub name: Seq<char>,
    pub progress: Progress,
    /// The status of the attached process, once the attach stage is over
    /// and if the process gave one.
    pub status: Option<ProcessStatus>,
}

impl LifecycleView {
    /// The lifecycle of the workload called `name`, before anything is done.
    pub open spec fn start(name: Seq<char>) -> LifecycleView {
        LifecycleView { name, progress: Progress::At(Stage::Create), status: None }
    }

    /// The lifecycle after `report`, and what it answers: where it stands
    /// now, or the failure.
    ///
    /// A report about another stage than the one that is due is refused and
    /// changes nothing. A stage that went well leads to the next. A stage
    /// that went wrong aborts the lifecycle.
    pub open spec fn advance(self, report: StageReportView) -> (
        LifecycleView,
        Result<Progress, WorkflowFailureView>,
    ) {
        let stage = stage_of(report);
        if self.progress != Progress::At(stage) {
            (
                self,
                Err(WorkflowFailureView { stage, name: self.name, cause: CauseView::OutOfTurn }),
            )
        } else {
            match fault(self.name, report) {
                Some(cause) => (
                    LifecycleView { progress: Progress::Aborted(stage), ..self },
                    Err(WorkflowFailureView { stage, name: self.name, cause }),
                ),
                None => (
                    LifecycleView {
                        progress: following(stage),
                        status: match report {
                            StageReportView::Attached(Ok(status)) => status,
                            _ => self.status,
                        },
                        ..self
                    },
                    Ok(following(stage)),
                ),
            }
        }
    }
}

impl View for Lifecycle {
    type V = LifecycleView;

    closed spec fn view(&self) -> LifecycleView {
        LifecycleView { name: self.name@, progress: self.progress, status: self.status }
    }
}

impl Lifecycle {
    /// The lifecycle of the workload called `name`, before anything is done.
    pub fn new(name: &str) -> (lifecycle: Self)
        ensures
            lifecycle@ == LifecycleView::start(name@),
    {
        Lifecycle { name: name.to_owned(), progress: Progress::At(Stage::Create), status: None }
    }

    pub fn name(&self) -> (name: &String)
        ensures
            name@ == self@.name,
    {
        &self.name
    }

    pub fn progress(&self) -> (progress: Progress)
        ensures
            progress == self@.progress,
    {
        self.progress
    }

    /// The status of the attached process, once it is known.
    pub fn status(&self) -> (status: Option<ProcessStatus>)
        ensures
            status == self@.status,
    {
        self.status
    }

    fn failure(&self, stage: Stage, cause: Cause) -> (failure: WorkflowFailure)
        ensures
            failure@ == (WorkflowFailureView { stage, name: self@.name, cause: cause@ }),
    {
        WorkflowFailure { stage, name: self.name.clone(), cause }
    }

    /// Takes in the report of a stage and says where the lifecycle stands
    /// now, or why it is over.
    pub fn advance(&mut self, report: StageReport) -> (answer: Result<Progress, WorkflowFailure>)
        ensures
            final(self)@ == old(self)@.advance(report@).0,
            match old(self)@.advance(report@).1 {
                Ok(progress) => answer == Ok::<Progress, WorkflowFailure>(progress),
                Err(failure) => answer.is_err() && answer.unwrap_err()@ == failure,
            },
    {
        let (stage, next, fault) = match report {
            StageReport::Created(outcome) => (
                Stage::Create,
                Progress::At(Stage::Watch),
                match outcome {
                    Ok(()) => None,
                    Err(message) => Some(Cause::TransportError(message)),
                },
            ),
            StageReport::Watched(outcome) => (
                Stage::Watch,
                Progress::At(Stage::Attach),
                match outcome {
                    Ok(()) => None,
                    Err(WatchFailure::WatchTimedOut) => Some(Cause::WatchTimedOut),
                    Err(WatchFailure::TransportError(message)) => Some(
                        Cause::TransportError(message),
                    ),
                    Err(WatchFailure::MissingStatus) => Some(Cause::MissingStatus),
                },
            ),
            StageReport::Attached(outcome) => (
                Stage::Attach,
                Progress::At(Stage::Log),
                match outcome {
                    Ok(status) => {
                        if let Progress::At(Stage::Attach) = self.progress {
                            self.status = status;
                        }
                        None
                    },
                    Err(message) => Some(Cause::TransportError(message)),
                },
            ),
            StageReport::Logged(outcome) => (
                Stage::Log,
                Progress::At(Stage::Delete),
                match outcome {
                    Ok(()) => None,
                    Err(failure) => Some(Cause::LogFailure(failure)),
                },
            ),
            StageReport::Deleted(outcome) => (
                Stage::Delete,
                Progress::Completed,
                match outcome {
                    Ok(result) => match confirm_deletion(self.name.as_str(), &result) {
                        Ok(()) => None,
                        Err(mismatch) => Some(Cause::DeletionMismatch(mismatch.returned)),
                    },
                    Err(message) => Some(Cause::TransportError(message)),
                },
            ),
        };
        let due = match self.progress {
            Progress::At(at) => at == stage,
            _ => false,
        };
        if !due {
            return Err(self.failure(stage, Cause::OutOfTurn));
        }
        match fault {
            Some(cause) => {
                self.progress = Progress::Aborted(stage);
                Err(self.failure(stage, cause))
            },
            None => {
                self.progress = next;
                Ok(next)
            },
        }
    }
}

/// A failure is final: an aborted lifecycle refuses every report and stays
/// as it is, and so does a completed one.
pub proof fn lemma_nothing_follows_the_end(lifecycle: LifecycleView, report: StageReportView)
    requires
        !(lifecycle.progress is At),
    ensures
        lifecycle.advance(report).0 == lifecycle,
        lifecycle.advance(report).1 == Err::<Progress, WorkflowFailureView>(
            WorkflowFailureView {
                stage: stage_of(report),
                name: lifecycle.name,
                cause: CauseView::OutOfTurn,
            },
        ),
{
}

/// A stage that fails aborts the lifecycle there and then, and the failure
/// names the stage and the workload.
pub proof fn lemma_failure_aborts(lifecycle: LifecycleView, report: StageReportView)
    requires
        lifecycle.progress == Progress::At(stage_of(report)),
        fault(lifecycle.name, report).is_some(),
    ensures
        lifecycle.advance(report).0.progress == Progress::Aborted(stage_of(report)),
        lifecycle.advance(report).1 == Err::<Progress, WorkflowFailureView>(
            WorkflowFailureView {
                stage: stage_of(report),
                name: lifecycle.name,
                cause: fault(lifecycle.name, report).unwrap(),
            },
        ),
{
}

/// The stages come in one order: a lifecycle moves only from the stage that
/// is due to the one after it, and only on a report of that stage which
/// found no fault.
pub proof fn lemma_stages_in_order(lifecycle: LifecycleView, report: StageReportView)
    ensures
        lifecycle.advance(report).1 matches Ok(progress) ==> lifecycle.progress == Progress::At(
            stage_of(report),
        ) && progress == following(stage_of(report)) && lifecycle.advance(report).0.progress
            == progress && fault(lifecycle.name, report).is_none(),
{
}

/// Five stages that go well, reported in their order, complete a lifecycle,
/// and it keeps the status that the attached process gave.
pub proof fn lemma_five_stages_complete(
    name: Seq<char>,
    status: Option<ProcessStatus>,
    answer: DeletionResultView,
)
    requires
        confirms(name, answer),
    ensures
        ({
            let created = LifecycleView::start(name).advance(StageReportView::Created(Ok(()))).0;
            let watched = created.advance(StageReportView::Watched(Ok(()))).0;
            let attached = watched.advance(StageReportView::Attached(Ok(status))).0;
            let logged = attached.advance(StageReportView::Logged(Ok(()))).0;
            let deleted = logged.advance(StageReportView::Deleted(Ok(answer)));
            &&& created.progress == Progress::At(Stage::Watch)
            &&& watched.progress == Progress::At(Stage::Attach)
            &&& attached.progress == Progress::At(Stage::Log)
            &&& logged.progress == Progress::At(Stage::Delete)
            &&& deleted.1 == Ok::<Progress, WorkflowFailureView>(Progress::Completed)
            &&& deleted.0 == (LifecycleView { name, progress: Progress::Completed, status })
        }),
{
}

} // verus!
