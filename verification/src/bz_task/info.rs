use vstd::prelude::*;
use vstd::arithmetic::div_mod::{lemma_div_is_ordered, lemma_multiply_divide_lt};
use vstd::arithmetic::mul::{lemma_mul_inequality, lemma_mul_strict_inequality};

use crate::bz_task::id::{BzTaskId, TaskIdGen};

verus! {

/// Progress values are fixed-point fractions of this unit: 0 is "nothing
/// done", `PROGRESS_SCALE` is exactly 1 (all done).
pub const PROGRESS_SCALE: u64 = 1000000;

/// The progress fraction a backend reports when `downloaded` of `total`
/// sub-resources are done, as a fraction of [`PROGRESS_SCALE`]. An empty
/// workload reports 0, and the value is capped at 1 so that a stale
/// downloaded set can never report more than "all done".
pub open spec fn rate_of(downloaded: nat, total: nat) -> nat {
    if total == 0 {
        0
    } else if downloaded >= total {
        PROGRESS_SCALE as nat
    } else {
        (downloaded * PROGRESS_SCALE as nat / total) as nat
    }
}

/// The rate is a fraction: it never exceeds the scale.
pub proof fn lemma_rate_at_most_one(downloaded: nat, total: nat)
    ensures
        rate_of(downloaded, total) <= PROGRESS_SCALE,
{
    if total != 0 && downloaded < total {
        lemma_mul_strict_inequality(downloaded as int, total as int, PROGRESS_SCALE as int);
        lemma_multiply_divide_lt(
            downloaded as int * PROGRESS_SCALE as int,
            total as int,
            PROGRESS_SCALE as int,
        );
    }
}

/// Law: with a fixed total, the reported progress never decreases as the
/// downloaded count grows. Together with the backends only ever growing
/// their downloaded sets, this is why the progress a running task shows is
/// monotonically non-decreasing.
pub proof fn lemma_rate_monotonic(d1: nat, d2: nat, total: nat)
    requires
        d1 <= d2,
    ensures
        rate_of(d1, total) <= rate_of(d2, total),
{
    if total != 0 {
        if d2 >= total {
            lemma_rate_at_most_one(d1, total);
        } else {
            lemma_mul_inequality(d1 as int, d2 as int, PROGRESS_SCALE as int);
            lemma_div_is_ordered(
                d1 as int * PROGRESS_SCALE as int,
                d2 as int * PROGRESS_SCALE as int,
                total as int,
            );
        }
    }
}

/// Computes [`rate_of`] on machine integers.
pub fn compute_rate(downloaded: u64, total: u64) -> (r: u64)
    ensures
        r as nat == rate_of(downloaded as nat, total as nat),
        r <= PROGRESS_SCALE,
{
    if total == 0 {
        0
    } else if downloaded >= total {
        PROGRESS_SCALE
    } else {
        proof {
            lemma_mul_strict_inequality(downloaded as int, total as int, PROGRESS_SCALE as int);
            lemma_multiply_divide_lt(
                downloaded as int * PROGRESS_SCALE as int,
                total as int,
                PROGRESS_SCALE as int,
            );
        }
        let wide: u128 = (downloaded as u128) * (PROGRESS_SCALE as u128) / (total as u128);
        wide as u64
    }
}

/// Durable, user-visible lifecycle state of a task. This is the state the
/// orchestrator's transition table is about, and the one that is persisted.
#[derive(Debug, Clone, Copy, PartialEq, Eq, Structural)]
pub enum BzTaskStatus {
    Queued,
    Running,
    Stopped,
    Completed,
    Failed,
}

/// State of the work loop inside a live worker. Not the same thing as
/// [`BzTaskStatus`]: it only exists while a worker runs, and it is what the
/// worker's own loop consults between two units of work.
#[derive(Debug, Clone, Copy, PartialEq, Eq, Structural)]
pub enum TaskInnerStatus {
    Started,
    Paused,
    Stopped,
    Failed,
}

/// The download protocols a task can use.
#[derive(Debug, Clone, Copy, PartialEq, Eq, Structural)]
pub enum BzTaskType {
    M3u8,
    Zfs,
}

/// Control verbs the orchestrator sends into a running worker. They carry no
/// payload beyond the verb.
#[derive(Debug, Clone, Copy, PartialEq, Eq, Structural)]
pub enum Control {
    Pause,
    Restart,
    Stop,
}

/// One message on a task's control channel.
#[derive(Debug, Clone, Copy, PartialEq, Eq, Structural)]
pub struct BzTaskControl {
    pub id: BzTaskId,
    pub control: Control,
}

/// How a worker's inner status reacts to a control verb: `Pause` parks the
/// loop, `Restart` lets it run again, `Stop` makes it exit.
pub open spec fn control_step(control: Control) -> TaskInnerStatus {
    match control {
        Control::Pause => TaskInnerStatus::Paused,
        Control::Restart => TaskInnerStatus::Started,
        Control::Stop => TaskInnerStatus::Stopped,
    }
}

/// Applies one control verb to a worker's inner status.
pub fn apply_control(control: &Control) -> (r: TaskInnerStatus)
    ensures
        r == control_step(*control),
{
    match control {
        Control::Pause => TaskInnerStatus::Paused,
        Control::Restart => TaskInnerStatus::Started,
        Control::Stop => TaskInnerStatus::Stopped,
    }
}

/// Lifecycle events a worker reports back to the orchestrator.
#[derive(Debug, Clone, Copy, PartialEq, Eq, Structural)]
pub enum BzTaskControlFeedBack {
    Started,
    Stopped,
    Finished,
    Failed,
}

/// A lifecycle feedback message from the worker of one task.
#[derive(Debug, Clone, Copy, PartialEq, Eq, Structural)]
pub struct BzTaskControlFeedBackMessage {
    pub task_id: BzTaskId,
    pub control: BzTaskControlFeedBack,
}

/// A progress feedback message: `progress` is a fraction of
/// [`PROGRESS_SCALE`].
#[derive(Debug, Clone, Copy, PartialEq, Eq, Structural)]
pub struct BzTaskInfoFeedBackMessage {
    pub task_id: BzTaskId,
    pub progress: u64,
}

/// Everything a worker can put on the shared feedback channel.
#[derive(Debug, Clone, Copy, PartialEq, Eq, Structural)]
pub enum BzTaskFeedBack {
    TaskControl(BzTaskControlFeedBackMessage),
    TaskInfo(BzTaskInfoFeedBackMessage),
}

/// The durable descriptor of a task: where to download from, where the
/// result and the working files go, which backend runs it, and its
/// last-known lifecycle state. This is the only part of a task that is
/// persisted across restarts.
#[derive(Debug)]
pub struct BzTaskInfo {
    /// Source URI of the download.
    pub src: String,
    /// Destination path of the finished download.
    pub dest: String,
    /// Directory for partial files and the progress sidecar file.
    pub cache: String,
    pub kind: BzTaskType,
    pub status: BzTaskStatus,
}

/// The value of a [`BzTaskInfo`]: its strings as character sequences.
pub ghost struct BzTaskInfoV {
    pub src: Seq<char>,
    pub dest: Seq<char>,
    pub cache: Seq<char>,
    pub kind: BzTaskType,
    pub status: BzTaskStatus,
}

impl View for BzTaskInfo {
    type V = BzTaskInfoV;

    open spec fn view(&self) -> BzTaskInfoV {
        BzTaskInfoV {
            src: self.src@,
            dest: self.dest@,
            cache: self.cache@,
            kind: self.kind,
            status: self.status,
        }
    }
}

impl Clone for BzTaskInfo {
    fn clone(&self) -> (r: Self)
        ensures
            r == *self,
    {
        BzTaskInfo {
            src: self.src.clone(),
            dest: self.dest.clone(),
            cache: self.cache.clone(),
            kind: self.kind,
            status: self.status,
        }
    }
}

/// Transient, display-facing metrics of one task. Reset to all zero whenever
/// a task record is (re)created; never persisted; written only by the
/// orchestrator in response to feedback messages.
#[derive(Debug, Clone, Copy, PartialEq, Eq, Structural)]
pub struct BzTaskExtraInfo {
    /// Fraction of [`PROGRESS_SCALE`].
    pub progress: u64,
    pub current_size: u64,
    pub total_size: u64,
}

impl Default for BzTaskExtraInfo {
    fn default() -> (r: Self)
        ensures
            r == BzTaskExtraInfo::zero(),
    {
        BzTaskExtraInfo { progress: 0, current_size: 0, total_size: 0 }
    }
}

impl BzTaskExtraInfo {
    /// The metrics of a task nothing has happened to yet.
    pub open spec fn zero() -> BzTaskExtraInfo {
        BzTaskExtraInfo { progress: 0, current_size: 0, total_size: 0 }
    }
}

/// The live half of a running task: the sender of its control channel and
/// the handle of the concurrent unit its worker runs on. Present exactly
/// while a worker is alive; the record owns it.
pub struct BzTaskRuntimeInfo {
    pub sender: tokio::sync::mpsc::Sender<BzTaskControl>,
    pub join_handle: tokio::task::JoinHandle<()>,
}

/// One task record of the registry: durable descriptor, transient metrics,
/// and, while a worker is alive, its runtime.
pub struct BzTask {
    pub id: BzTaskId,
    pub info: BzTaskInfo,
    pub extra: BzTaskExtraInfo,
    pub runtime: Option<BzTaskRuntimeInfo>,
}

impl BzTask {
    /// The record a freshly accepted descriptor gets: a fresh id, the
    /// descriptor queued for its first start, zeroed metrics, no worker.
    pub fn from_info(info: BzTaskInfo, ids: &mut TaskIdGen) -> (r: BzTask)
        requires
            old(ids).next < u64::MAX,
        ensures
            final(ids).next == old(ids).next + 1,
            r.id.0 == old(ids).next,
            r.info.src == info.src,
            r.info.dest == info.dest,
            r.info.cache == info.cache,
            r.info.kind == info.kind,
            r.info.status == BzTaskStatus::Queued,
            r.extra == BzTaskExtraInfo::zero(),
            r.runtime is None,
    {
        let id = BzTaskId::unique(ids);
        let mut info = info;
        info.status = BzTaskStatus::Queued;
        BzTask { id, info, extra: BzTaskExtraInfo { progress: 0, current_size: 0, total_size: 0 }, runtime: None }
    }
}

/// Which actions the presentation layer may offer on a task, by its status:
/// a task that is not running can be started and removed, a running one can
/// only be stopped, a completed one only removed.
#[derive(Debug, Clone, Copy, PartialEq, Eq, Structural)]
pub struct TaskActions {
    pub start: bool,
    pub stop: bool,
    pub remove: bool,
}

/// The action gating of the task list view.
pub fn allowed_task_actions(status: &BzTaskStatus) -> (r: TaskActions)
    ensures
        r.start == (*status == BzTaskStatus::Queued || *status == BzTaskStatus::Stopped || *status
            == BzTaskStatus::Failed),
        r.stop == (*status == BzTaskStatus::Running),
        r.remove == (*status != BzTaskStatus::Running),
{
    match status {
        BzTaskStatus::Queued => TaskActions { start: true, stop: false, remove: true },
        BzTaskStatus::Running => TaskActions { start: false, stop: true, remove: false },
        BzTaskStatus::Stopped => TaskActions { start: true, stop: false, remove: true },
        BzTaskStatus::Completed => TaskActions { start: false, stop: false, remove: true },
        BzTaskStatus::Failed => TaskActions { start: true, stop: false, remove: true },
    }
}

} // verus!
