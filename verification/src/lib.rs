//! Core of a download manager: a registry of download tasks driven by a
//! single orchestrator that enforces a strict task state machine, a
//! control/feedback message vocabulary between the orchestrator and the
//! per-task workers, progress bookkeeping for the two download backends,
//! and a persistent text format for the task list.

pub mod app_state;
pub mod bz_task;
pub mod codec;
pub mod error;
pub mod m3u8;
pub mod zfs;

mod channel;
