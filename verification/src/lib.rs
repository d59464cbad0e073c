//! Lifecycle of a single pod: submission, readiness, attached output, logs
//! and confirmed deletion.
//!
//! Every stage is a decision procedure over plain values. The caller talks to
//! the control plane, hands what it received to the stage, and carries out
//! what the stage answers.

pub mod attach;
pub mod deletion;
pub mod framing;
pub mod logs;
pub mod readiness;
pub mod workflow;
pub mod workload;
