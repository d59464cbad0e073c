use pod_attach::attach::{
    drain_attached, Channel, OutputMode, ProcessStatus, Sink, SinkWrite, StreamEvent,
};
use pod_attach::deletion::{DeletionResult, DeletionStatus};
use pod_attach::logs::{follow_logs, LogEnding, LogFailure, LogOptions};
use pod_attach::readiness::{
    wait_until_running, WatchEnding, WatchEvent, WatchFailure, WatchRequest,
    DEFAULT_WATCH_TIMEOUT_SECONDS,
};
use pod_attach::workflow::{Cause, Lifecycle, Progress, Stage, StageReport, WorkflowFailure};
use pod_attach::workload::{Phase, WorkloadDescriptor, WorkloadHandle};

fn handle(name: &str, phase: Phase) -> WorkloadHandle {
    WorkloadHandle { name: name.to_string(), phase: Some(phase) }
}

fn failure(stage: Stage, cause: Cause) -> WorkflowFailure {
    WorkflowFailure { stage, name: "test-kane8n".to_string(), cause }
}

fn at(stage: Stage) -> Lifecycle {
    let mut lifecycle = Lifecycle::new("test-kane8n");
    let reports = [
        StageReport::Created(Ok(())),
        StageReport::Watched(Ok(())),
        StageReport::Attached(Ok(Some(ProcessStatus::Exited(0)))),
        StageReport::Logged(Ok(())),
    ];
    for report in reports {
        if lifecycle.progress() == Progress::At(stage) {
            break;
        }
        lifecycle.advance(report).unwrap();
    }
    assert_eq!(lifecycle.progress(), Progress::At(stage));
    lifecycle
}

#[test]
fn the_hello_workload_runs_through_every_stage() {
    let descriptor = WorkloadDescriptor::new(
        "test-kane8n",
        "alpine",
        vec!["sh".to_string(), "-c".to_string(), "echo \"Hello, kube-rs!\" && sleep 10".to_string()],
    );
    let mut lifecycle = Lifecycle::new(descriptor.name());
    assert_eq!(lifecycle.name(), "test-kane8n");
    assert_eq!(lifecycle.progress(), Progress::At(Stage::Create));
    assert_eq!(lifecycle.advance(StageReport::Created(Ok(()))), Ok(Progress::At(Stage::Watch)));

    let request = WatchRequest::for_workload(descriptor.name(), DEFAULT_WATCH_TIMEOUT_SECONDS);
    assert_eq!(request.field_selector, "metadata.name=test-kane8n");
    let events = vec![
        WatchEvent::Added(handle("test-kane8n", Phase::Pending)),
        WatchEvent::Modified(handle("test-kane8n", Phase::Pending)),
        WatchEvent::Modified(handle("test-kane8n", Phase::Running)),
    ];
    let watched = wait_until_running(&events, WatchEnding::Deadline);
    assert_eq!(watched.result, Ok(()));
    assert_eq!(watched.consumed, 3);
    assert_eq!(
        lifecycle.advance(StageReport::Watched(watched.result)),
        Ok(Progress::At(Stage::Attach))
    );

    let session = vec![
        StreamEvent::Chunk(Channel::Primary, b"Hello, kube-rs!\n".to_vec()),
        StreamEvent::End(Channel::Primary),
        StreamEvent::End(Channel::Secondary),
    ];
    let drained = drain_attached(&session, Some(ProcessStatus::Exited(0)), OutputMode::Combined);
    assert_eq!(
        drained.writes,
        vec![SinkWrite {
            sink: Sink::Output,
            origin: Channel::Primary,
            bytes: b"Hello, kube-rs!\n".to_vec(),
        }]
    );
    let received: Vec<u8> = drained.writes.iter().flat_map(|w| w.bytes.clone()).collect();
    assert_eq!(received, b"Hello, kube-rs!\n");
    assert_eq!(drained.result, Ok(Some(ProcessStatus::Exited(0))));
    assert_eq!(lifecycle.status(), None);
    assert_eq!(
        lifecycle.advance(StageReport::Attached(Ok(drained.result.unwrap()))),
        Ok(Progress::At(Stage::Log))
    );
    assert_eq!(lifecycle.status(), Some(ProcessStatus::Exited(0)));

    assert!(LogOptions::following().follow);
    let logged = follow_logs(&vec![b"Hello, kube-rs!\n".to_vec()], LogEnding::Closed);
    assert_eq!(logged.lines, vec!["Hello, kube-rs!".to_string()]);
    assert_eq!(
        lifecycle.advance(StageReport::Logged(logged.result)),
        Ok(Progress::At(Stage::Delete))
    );

    let answer = DeletionResult::Immediate(handle("test-kane8n", Phase::Running));
    assert_eq!(lifecycle.advance(StageReport::Deleted(Ok(answer))), Ok(Progress::Completed));
    assert_eq!(lifecycle.progress(), Progress::Completed);
    assert_eq!(lifecycle.status(), Some(ProcessStatus::Exited(0)));
}

#[test]
fn a_pending_deletion_completes_the_lifecycle() {
    let mut lifecycle = at(Stage::Delete);
    let answer = DeletionResult::Pending(DeletionStatus {
        reason: "".to_string(),
        message: "".to_string(),
    });
    assert_eq!(lifecycle.advance(StageReport::Deleted(Ok(answer))), Ok(Progress::Completed));
}

#[test]
fn a_process_without_status_leaves_none() {
    let mut lifecycle = at(Stage::Attach);
    assert_eq!(lifecycle.advance(StageReport::Attached(Ok(None))), Ok(Progress::At(Stage::Log)));
    assert_eq!(lifecycle.status(), None);
}

#[test]
fn a_failed_creation_aborts_at_once() {
    let mut lifecycle = Lifecycle::new("test-kane8n");
    assert_eq!(
        lifecycle.advance(StageReport::Created(Err("already exists".to_string()))),
        Err(failure(Stage::Create, Cause::TransportError("already exists".to_string())))
    );
    assert_eq!(lifecycle.progress(), Progress::Aborted(Stage::Create));
}

#[test]
fn a_watch_that_times_out_aborts_and_is_told_from_a_broken_one() {
    let mut timed_out = at(Stage::Watch);
    let watched = wait_until_running(
        &vec![WatchEvent::Added(handle("test-kane8n", Phase::Pending))],
        WatchEnding::Deadline,
    );
    assert_eq!(
        timed_out.advance(StageReport::Watched(watched.result)),
        Err(failure(Stage::Watch, Cause::WatchTimedOut))
    );
    assert_eq!(timed_out.progress(), Progress::Aborted(Stage::Watch));

    let mut broken = at(Stage::Watch);
    assert_eq!(
        broken.advance(StageReport::Watched(Err(WatchFailure::TransportError("eof".to_string())))),
        Err(failure(Stage::Watch, Cause::TransportError("eof".to_string())))
    );

    let mut defect = at(Stage::Watch);
    assert_eq!(
        defect.advance(StageReport::Watched(Err(WatchFailure::MissingStatus))),
        Err(failure(Stage::Watch, Cause::MissingStatus))
    );
}

#[test]
fn a_failed_attach_aborts_and_no_log_is_fetched() {
    let mut lifecycle = at(Stage::Attach);
    assert_eq!(
        lifecycle.advance(StageReport::Attached(Err("500".to_string()))),
        Err(failure(Stage::Attach, Cause::TransportError("500".to_string())))
    );
    assert_eq!(lifecycle.progress(), Progress::Aborted(Stage::Attach));
    assert_eq!(
        lifecycle.advance(StageReport::Logged(Ok(()))),
        Err(failure(Stage::Log, Cause::OutOfTurn))
    );
    assert_eq!(lifecycle.progress(), Progress::Aborted(Stage::Attach));
    assert_eq!(lifecycle.status(), None);
}

#[test]
fn a_failed_log_aborts() {
    for cause in [LogFailure::InvalidText, LogFailure::Transport("reset".to_string())] {
        let mut lifecycle = at(Stage::Log);
        assert_eq!(
            lifecycle.advance(StageReport::Logged(Err(cause.clone()))),
            Err(failure(Stage::Log, Cause::LogFailure(cause)))
        );
        assert_eq!(lifecycle.progress(), Progress::Aborted(Stage::Log));
        assert_eq!(lifecycle.status(), Some(ProcessStatus::Exited(0)));
    }
}

#[test]
fn a_failed_delete_request_aborts() {
    let mut lifecycle = at(Stage::Delete);
    assert_eq!(
        lifecycle.advance(StageReport::Deleted(Err("forbidden".to_string()))),
        Err(failure(Stage::Delete, Cause::TransportError("forbidden".to_string())))
    );
    assert_eq!(lifecycle.progress(), Progress::Aborted(Stage::Delete));
}

#[test]
fn the_deletion_of_another_workload_aborts() {
    let mut lifecycle = at(Stage::Delete);
    let answer = DeletionResult::Immediate(handle("test-kane8m", Phase::Running));
    assert_eq!(
        lifecycle.advance(StageReport::Deleted(Ok(answer))),
        Err(failure(Stage::Delete, Cause::DeletionMismatch("test-kane8m".to_string())))
    );
    assert_eq!(lifecycle.progress(), Progress::Aborted(Stage::Delete));
}

#[test]
fn a_report_out_of_turn_changes_nothing() {
    let mut lifecycle = Lifecycle::new("test-kane8n");
    assert_eq!(
        lifecycle.advance(StageReport::Watched(Ok(()))),
        Err(failure(Stage::Watch, Cause::OutOfTurn))
    );
    assert_eq!(
        lifecycle.advance(StageReport::Attached(Ok(Some(ProcessStatus::Exited(1))))),
        Err(failure(Stage::Attach, Cause::OutOfTurn))
    );
    assert_eq!(
        lifecycle.advance(StageReport::Deleted(Err("late".to_string()))),
        Err(failure(Stage::Delete, Cause::OutOfTurn))
    );
    assert_eq!(lifecycle.progress(), Progress::At(Stage::Create));
    assert_eq!(lifecycle.status(), None);
    assert_eq!(lifecycle.advance(StageReport::Created(Ok(()))), Ok(Progress::At(Stage::Watch)));
    assert_eq!(
        lifecycle.advance(StageReport::Created(Ok(()))),
        Err(failure(Stage::Create, Cause::OutOfTurn))
    );
    assert_eq!(lifecycle.progress(), Progress::At(Stage::Watch));
}

#[test]
fn nothing_follows_a_completed_lifecycle() {
    let mut lifecycle = at(Stage::Delete);
    let answer = DeletionResult::Immediate(handle("test-kane8n", Phase::Succeeded));
    assert_eq!(lifecycle.advance(StageReport::Deleted(Ok(answer.clone()))), Ok(Progress::Completed));
    assert_eq!(
        lifecycle.advance(StageReport::Deleted(Ok(answer))),
        Err(failure(Stage::Delete, Cause::OutOfTurn))
    );
    assert_eq!(
        lifecycle.advance(StageReport::Created(Ok(()))),
        Err(failure(Stage::Create, Cause::OutOfTurn))
    );
    assert_eq!(lifecycle.progress(), Progress::Completed);
}
