use vstd::prelude::*;

use crate::bz_task::info::{compute_rate, rate_of, BzTaskInfo, PROGRESS_SCALE};

verus! {

/// The progress bookkeeping of a generic-chunk task: one marker per finished
/// chunk out of a fixed number of chunks. Nothing of it is persisted.
pub struct ZfsTaskProgress {
    pub downloaded: Vec<String>,
    pub todos: Vec<String>,
    pub total: usize,
}

/// What can happen to the downloaded list.
pub enum ZfsTaskProgressMessage {
    Add(String),
    Remove(String),
}

impl ZfsTaskProgress {
    /// Applies one change: `Add` appends a marker; this backend has no
    /// persisted set to take anything out of, so `Remove` does nothing.
    pub fn _update(&mut self, message: ZfsTaskProgressMessage)
        ensures
            final(self).todos == old(self).todos,
            final(self).total == old(self).total,
            match message {
                ZfsTaskProgressMessage::Add(url) => final(self).downloaded@ == old(
                    self,
                ).downloaded@.push(url),
                ZfsTaskProgressMessage::Remove(_) => final(self).downloaded == old(
                    self,
                ).downloaded,
            },
    {
        match message {
            ZfsTaskProgressMessage::Add(url) => {
                self.downloaded.push(url);
            },
            ZfsTaskProgressMessage::Remove(_) => {},
        }
    }

    /// The progress fraction: finished chunks over total, capped at 1.
    pub fn rate(&self) -> (r: u64)
        ensures
            r as nat == rate_of(self.downloaded@.len(), self.total as nat),
            r <= PROGRESS_SCALE,
    {
        compute_rate(self.downloaded.len() as u64, self.total as u64)
    }
}

/// The number of fixed work units a generic-chunk task advances through.
pub const ZFS_TOTAL_STEPS: usize = 10;

/// A generic-chunk download task: the placeholder backend for protocols
/// without a native segment list. It advances its progress in fixed
/// increments over a fixed number of iterations.
pub struct ZfsTask {
    pub task_info: BzTaskInfo,
    pub progress: ZfsTaskProgress,
    pub uris: Vec<String>,
}

impl ZfsTask {
    /// A task over this descriptor, with the fixed workload ahead of it.
    pub fn new(task_info: BzTaskInfo) -> (r: Self)
        ensures
            r.task_info == task_info,
            r.progress.downloaded@.len() == 0,
            r.progress.todos@.len() == 0,
            r.progress.total == ZFS_TOTAL_STEPS,
            r.uris@.len() == 0,
    {
        ZfsTask {
            task_info,
            progress: ZfsTaskProgress {
                downloaded: Vec::new(),
                todos: Vec::new(),
                total: ZFS_TOTAL_STEPS,
            },
            uris: Vec::new(),
        }
    }

    /// One unit of work, `i` units already done: `None` once everything is
    /// done (the run loop then reports natural completion), otherwise the
    /// new count and the progress fraction to report, which advances by one
    /// fixed increment.
    pub fn step(&self, i: u64) -> (r: Option<(u64, u64)>)
        ensures
            i >= self.progress.total as u64 ==> r is None,
            i < self.progress.total as u64 ==> (r matches Some((n, p)) && n == i + 1 && p as nat
                == rate_of((i + 1) as nat, self.progress.total as nat)),
    {
        if i >= self.progress.total as u64 {
            None
        } else {
            let n = i + 1;
            Some((n, compute_rate(n, self.progress.total as u64)))
        }
    }
}

} // verus!
