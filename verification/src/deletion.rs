//! Confirmation that a delete request removed the workload it named.

use crate::workload::{WorkloadHandle, WorkloadHandleView};
use vstd::prelude::*;

verus! {

/// What the control plane says of a deletion that it has accepted but not
/// finished.
#[derive(Clone, Debug, PartialEq, Eq)]
pub struct DeletionStatus {
    pub reason: String,
    pub message: String,
}

/// The control plane's answer to a delete request.
#[derive(Clone, Debug, PartialEq, Eq)]
pub enum DeletionResult {
    /// The object is gone; this is its last known state.
    Immediate(WorkloadHandle),
    /// Deletion goes on in the background, within the grace period.
    Pending(DeletionStatus),
}

/// Mathematical model of a [`DeletionStatus`].
pub struct DeletionStatusView {
    pub reason: Seq<char>,
    pub message: Seq<char>,
}

impl View for DeletionStatus {
    type V = DeletionStatusView;

    open spec fn view(&self) -> DeletionStatusView {
        DeletionStatusView { reason: self.reason@, message: self.message@ }
    }
}

/// Mathematical model of a [`DeletionResult`].
pub enum DeletionResultView {
    Immediate(WorkloadHandleView),
    Pending(DeletionStatusView),
}

impl View for DeletionResult {
    type V = DeletionResultView;

    open spec fn view(&self) -> DeletionResultView {
        match self {
            DeletionResult::Immediate(handle) => DeletionResultView::Immediate(handle@),
            DeletionResult::Pending(status) => DeletionResultView::Pending(status@),
        }
    }
}

/// The control plane acknowledged the deletion of another workload than the
/// one that was named.
#[derive(Clone, Debug, PartialEq, Eq)]
pub struct DeletionMismatch {
    pub requested: String,
    pub returned: String,
}

/// Mathematical model of a [`DeletionMismatch`].
pub struct DeletionMismatchView {
    pub requested: Seq<char>,
    pub returned: Seq<char>,
}

impl View for DeletionMismatch {
    type V = DeletionMismatchView;

    open spec fn view(&self) -> DeletionMismatchView {
        DeletionMismatchView { requested: self.requested@, returned: self.returned@ }
    }
}

/// The name that an answer claims to have deleted, if it names one.
pub open spec fn acknowledged_name(result: DeletionResultView) -> Option<Seq<char>> {
    match result {
        DeletionResultView::Immediate(handle) => Some(handle.name),
        DeletionResultView::Pending(_) => None,
    }
}

/// Whether an answer is acceptable for a request to delete `requested`: it
/// names no workload, or the one that was requested.
pub open spec fn confirms(requested: Seq<char>, result: DeletionResultView) -> bool {
    match acknowledged_name(result) {
        Some(returned) => returned == requested,
        None => true,
    }
}

/// What the check of an answer comes to.
pub open spec fn confirmation(requested: Seq<char>, result: DeletionResultView) -> Result<
    (),
    DeletionMismatchView,
> {
    match acknowledged_name(result) {
        Some(returned) => if returned == requested {
            Ok(())
        } else {
            Err(DeletionMismatchView { requested, returned })
        },
        None => Ok(()),
    }
}

/// Checks the answer to a request to delete `requested`.
///
/// A pending deletion is accepted as it is. An immediate one must name the
/// workload that was requested; otherwise both names are reported.
pub fn confirm_deletion(requested: &str, result: &DeletionResult) -> (outcome: Result<
    (),
    DeletionMismatch,
>)
    ensures
        match confirmation(requested@, result@) {
            Ok(()) => outcome.is_ok(),
            Err(mismatch) => outcome.is_err() && outcome.unwrap_err()@ == mismatch,
        },
{
    match result {
        DeletionResult::Immediate(handle) => {
            let wanted = requested.to_owned();
            if handle.name == wanted {
                Ok(())
            } else {
                Err(DeletionMismatch { requested: wanted, returned: handle.name.clone() })
            }
        },
        DeletionResult::Pending(_) => Ok(()),
    }
}

/// An immediate deletion is confirmed exactly when it names the workload
/// that was requested, and the mismatch reports both names. A pending one is
/// always confirmed.
pub proof fn lemma_confirmation(requested: Seq<char>, result: DeletionResultView)
    ensures
        confirmation(requested, result).is_ok() == confirms(requested, result),
        result matches DeletionResultView::Immediate(handle) ==> (confirmation(
            requested,
            result,
        ).is_ok() <==> handle.name == requested),
        result matches DeletionResultView::Immediate(handle) ==> handle.name != requested
            ==> confirmation(requested, result) == Err::<(), DeletionMismatchView>(
            DeletionMismatchView { requested, returned: handle.name },
        ),
        result is Pending ==> confirmation(requested, result).is_ok(),
{
}

} // verus!
