use vstd::prelude::*;

use crate::app_state::{
    contains_task, lemma_index_unique, lemma_order_after_push, lemma_order_after_remove,
    lemma_order_after_update, task_index, AppState,
};
use crate::bz_task::id::{decimal_digits, u64_to_string, BzTaskId};
use crate::bz_task::info::{
    BzTask, BzTaskControl, BzTaskControlFeedBack, BzTaskControlFeedBackMessage,
    BzTaskExtraInfo, BzTaskInfo, BzTaskInfoFeedBackMessage, BzTaskRuntimeInfo, BzTaskStatus,
    Control, PROGRESS_SCALE,
};
use crate::channel::try_send_control;
use crate::error::{BzError, BzResult, BzTaskControlSendError};

verus! {

/// The commands the orchestrator accepts, from the presentation layer and
/// from the feedback loop. The `Try*` commands ask for something that a
/// worker must carry out; the plain `Start`/`Stop` commands are the
/// worker-confirmed transitions.
#[derive(Debug)]
pub enum BzTaskMessage {
    /// Accept a new descriptor; always valid, and followed by an automatic
    /// start request.
    AddTask(BzTaskInfo),
    /// Launch a worker for a task that is not running.
    TryStartTask(BzTaskId),
    /// The task's worker reported in: the task now runs.
    StartTask(BzTaskId),
    /// Ask the task's running worker to stop; the status does not
    /// change until the worker confirms.
    TryStopTask(BzTaskId),
    /// The task's worker confirmed that it stopped.
    StopTask(BzTaskId),
    /// Delete a stopped task from the registry.
    RemoveTask(BzTaskId),
    /// The task's worker finished all its work.
    FinishTask(BzTaskId),
    /// The task's worker gave up.
    FailTask(BzTaskId),
}

/// What the orchestrator asks its driver to do after a command was applied.
#[derive(Debug)]
pub enum BzTaskAction {
    /// Nothing further.
    Idle,
    /// Feed this command back into the orchestrator.
    Dispatch(BzTaskMessage),
    /// Launch the task's worker and hand its runtime to
    /// `attach_runtime`.
    Spawn(BzTaskId),
}

impl BzTaskMessage {
    /// The command as text, for reports and logs: its name, and the source
    /// of the added task or the id the command addresses.
    pub fn describe(&self) -> (r: String)
        ensures
            r@ == match *self {
                BzTaskMessage::AddTask(ref info) => "AddTask: "@ + info.src@,
                BzTaskMessage::TryStartTask(id) => "TryStartTask: "@ + decimal_digits(id.0 as nat),
                BzTaskMessage::StartTask(id) => "StartTask: "@ + decimal_digits(id.0 as nat),
                BzTaskMessage::TryStopTask(id) => "TryStopTask: "@ + decimal_digits(id.0 as nat),
                BzTaskMessage::StopTask(id) => "StopTask: "@ + decimal_digits(id.0 as nat),
                BzTaskMessage::RemoveTask(id) => "RemoveTask: "@ + decimal_digits(id.0 as nat),
                BzTaskMessage::FinishTask(id) => "FinishTask: "@ + decimal_digits(id.0 as nat),
                BzTaskMessage::FailTask(id) => "FailTask: "@ + decimal_digits(id.0 as nat),
            },
    {
        match self {
            BzTaskMessage::AddTask(info) => {
                let mut s = "AddTask: ".to_owned();
                s.append(info.src.as_str());
                s
            },
            BzTaskMessage::TryStartTask(id) => {
                let mut s = "TryStartTask: ".to_owned();
                s.append(u64_to_string(id.0).as_str());
                s
            },
            BzTaskMessage::StartTask(id) => {
                let mut s = "StartTask: ".to_owned();
                s.append(u64_to_string(id.0).as_str());
                s
            },
            BzTaskMessage::TryStopTask(id) => {
                let mut s = "TryStopTask: ".to_owned();
                s.append(u64_to_string(id.0).as_str());
                s
            },
            BzTaskMessage::StopTask(id) => {
                let mut s = "StopTask: ".to_owned();
                s.append(u64_to_string(id.0).as_str());
                s
            },
            BzTaskMessage::RemoveTask(id) => {
                let mut s = "RemoveTask: ".to_owned();
                s.append(u64_to_string(id.0).as_str());
                s
            },
            BzTaskMessage::FinishTask(id) => {
                let mut s = "FinishTask: ".to_owned();
                s.append(u64_to_string(id.0).as_str());
                s
            },
            BzTaskMessage::FailTask(id) => {
                let mut s = "FailTask: ".to_owned();
                s.append(u64_to_string(id.0).as_str());
                s
            },
        }
    }
}

/// The transition table of the task state machine: from which statuses each
/// command may be applied. Everything outside this table is rejected without
/// mutation. Accepting a new task is always valid; starting needs a task
/// that is queued or stopped; stopping, finishing and failing need a running
/// task; only a stopped task may be removed.
pub open spec fn transition_valid(current: BzTaskStatus, message: BzTaskMessage) -> bool {
    match message {
        BzTaskMessage::AddTask(_) => true,
        BzTaskMessage::TryStartTask(_) | BzTaskMessage::StartTask(_) => current
            == BzTaskStatus::Queued || current == BzTaskStatus::Stopped,
        BzTaskMessage::TryStopTask(_) | BzTaskMessage::StopTask(_) | BzTaskMessage::FinishTask(_)
            | BzTaskMessage::FailTask(_) => current == BzTaskStatus::Running,
        BzTaskMessage::RemoveTask(_) => current == BzTaskStatus::Stopped,
    }
}

/// Law: the transition table has no edge that removes a running task, so —
/// by the contract of `deal_bztask_message` — removal of a running task
/// fails with a status-mismatch error and mutates nothing.
pub proof fn lemma_running_task_cannot_be_removed(task_id: BzTaskId)
    ensures
        !transition_valid(BzTaskStatus::Running, BzTaskMessage::RemoveTask(task_id)),
{
}

/// The record a fresh descriptor is inserted as: given id, queued, zeroed
/// metrics, no worker.
pub open spec fn new_task(info: BzTaskInfo, id: u64) -> BzTask {
    BzTask {
        id: BzTaskId(id),
        info: BzTaskInfo {
            src: info.src,
            dest: info.dest,
            cache: info.cache,
            kind: info.kind,
            status: BzTaskStatus::Queued,
        },
        extra: BzTaskExtraInfo::zero(),
        runtime: None,
    }
}

/// The same record with another status.
pub open spec fn with_status(t: BzTask, status: BzTaskStatus) -> BzTask {
    BzTask {
        id: t.id,
        info: BzTaskInfo {
            src: t.info.src,
            dest: t.info.dest,
            cache: t.info.cache,
            kind: t.info.kind,
            status,
        },
        extra: t.extra,
        runtime: t.runtime,
    }
}

/// The same record with another progress metric.
pub open spec fn with_progress(t: BzTask, progress: u64) -> BzTask {
    BzTask {
        id: t.id,
        info: t.info,
        extra: BzTaskExtraInfo {
            progress,
            current_size: t.extra.current_size,
            total_size: t.extra.total_size,
        },
        runtime: t.runtime,
    }
}

/// The same record with a worker runtime attached.
pub open spec fn with_runtime(t: BzTask, runtime: BzTaskRuntimeInfo) -> BzTask {
    BzTask { id: t.id, info: t.info, extra: t.extra, runtime: Some(runtime) }
}

/// The same record with no worker runtime.
pub open spec fn without_runtime(t: BzTask) -> BzTask {
    BzTask { id: t.id, info: t.info, extra: t.extra, runtime: None }
}

/// The status of the task with the given id.
pub open spec fn current_status(s: AppState, id: BzTaskId) -> BzTaskStatus {
    s.tasks@[task_index(s.tasks@, id.0)].info.status
}

/// The outcome `deal_bztask_message` promises for a command on a task that
/// is missing or whose status has no edge for the command: no mutation, and
/// the precise error.
pub open spec fn rejected(
    pre: AppState,
    post: AppState,
    id: BzTaskId,
    message: BzTaskMessage,
    r: BzResult<BzTaskAction>,
) -> bool {
    &&& post.ids == pre.ids
    &&& post.tasks@ == pre.tasks@
    &&& if !contains_task(pre.tasks@, id.0) {
        r matches Err(BzError::TaskNotFound(e)) && e == id
    } else {
        r matches Err(BzError::TaskStatusError(st, m)) && st == current_status(pre, id) && m
            == message
    }
}

/// The full effect `deal_bztask_message` promises, command by command:
/// the state machine of the task registry.
pub open spec fn orchestration_step(
    pre: AppState,
    post: AppState,
    message: BzTaskMessage,
    r: BzResult<BzTaskAction>,
) -> bool {
    match message {
        BzTaskMessage::AddTask(info) => {
            &&& post.ids.next as int == pre.ids.next as int + 1
            &&& post.tasks@ == pre.tasks@.push(new_task(info, pre.ids.next))
            &&& r matches Ok(BzTaskAction::Dispatch(m)) && m == BzTaskMessage::TryStartTask(
                BzTaskId(pre.ids.next),
            )
        },
        BzTaskMessage::TryStartTask(id) => {
            if contains_task(pre.tasks@, id.0) && transition_valid(current_status(pre, id), message) {
                &&& post.ids == pre.ids
                &&& post.tasks@ == pre.tasks@
                &&& r matches Ok(BzTaskAction::Spawn(s)) && s == id
            } else {
                rejected(pre, post, id, message, r)
            }
        },
        BzTaskMessage::StartTask(id) => {
            if contains_task(pre.tasks@, id.0) && transition_valid(current_status(pre, id), message) {
                let k = task_index(pre.tasks@, id.0);
                &&& post.ids == pre.ids
                &&& post.tasks@ == pre.tasks@.update(
                    k,
                    with_status(pre.tasks@[k], BzTaskStatus::Running),
                )
                &&& r matches Ok(BzTaskAction::Idle)
            } else {
                rejected(pre, post, id, message, r)
            }
        },
        BzTaskMessage::TryStopTask(id) => {
            if contains_task(pre.tasks@, id.0) && transition_valid(current_status(pre, id), message) {
                &&& post.ids == pre.ids
                &&& post.tasks@ == pre.tasks@
                &&& match pre.tasks@[task_index(pre.tasks@, id.0)].runtime {
                    Option::None => r matches Err(BzError::RuntimeNotFound(e)) && e == id,
                    Option::Some(_) => r matches Ok(BzTaskAction::Idle) || (r matches Err(
                        BzError::MpscBzTaskControlError(e),
                    ) && (e == BzTaskControlSendError::Full(
                        BzTaskControl { id, control: Control::Stop },
                    ) || e == BzTaskControlSendError::Closed(
                        BzTaskControl { id, control: Control::Stop },
                    ))),
                }
            } else {
                rejected(pre, post, id, message, r)
            }
        },
        BzTaskMessage::StopTask(id) => {
            if contains_task(pre.tasks@, id.0) && transition_valid(current_status(pre, id), message) {
                let k = task_index(pre.tasks@, id.0);
                &&& post.ids == pre.ids
                &&& post.tasks@ == pre.tasks@.update(
                    k,
                    with_status(pre.tasks@[k], BzTaskStatus::Stopped),
                )
                &&& r matches Ok(BzTaskAction::Idle)
            } else {
                rejected(pre, post, id, message, r)
            }
        },
        BzTaskMessage::RemoveTask(id) => {
            if contains_task(pre.tasks@, id.0) && transition_valid(current_status(pre, id), message) {
                &&& post.ids == pre.ids
                &&& post.tasks@ == pre.tasks@.remove(task_index(pre.tasks@, id.0))
                &&& r matches Ok(BzTaskAction::Idle)
            } else {
                rejected(pre, post, id, message, r)
            }
        },
        BzTaskMessage::FinishTask(id) => {
            if contains_task(pre.tasks@, id.0) && transition_valid(current_status(pre, id), message) {
                let k = task_index(pre.tasks@, id.0);
                &&& post.ids == pre.ids
                &&& post.tasks@ == pre.tasks@.update(
                    k,
                    with_progress(
                        with_status(pre.tasks@[k], BzTaskStatus::Completed),
                        PROGRESS_SCALE,
                    ),
                )
                &&& r matches Ok(BzTaskAction::Idle)
            } else {
                rejected(pre, post, id, message, r)
            }
        },
        BzTaskMessage::FailTask(id) => {
            if contains_task(pre.tasks@, id.0) && transition_valid(current_status(pre, id), message) {
                let k = task_index(pre.tasks@, id.0);
                &&& post.ids == pre.ids
                &&& post.tasks@ == pre.tasks@.update(
                    k,
                    with_status(pre.tasks@[k], BzTaskStatus::Failed),
                )
                &&& r matches Ok(BzTaskAction::Idle)
            } else {
                rejected(pre, post, id, message, r)
            }
        },
    }
}

/// Looks a task up by id.
pub fn get_task_from_btreemap<'a>(app_state: &'a AppState, task_id: BzTaskId) -> (r: BzResult<
    &'a BzTask,
>)
    requires
        app_state.wf(),
    ensures
        match r {
            Ok(task) => contains_task(app_state.tasks@, task_id.0) && *task == app_state.tasks@[
                task_index(app_state.tasks@, task_id.0)
            ],
            Err(e) => e matches BzError::TaskNotFound(x) && x == task_id && !contains_task(
                app_state.tasks@,
                task_id.0,
            ),
        },
{
    match app_state.find_task_index(task_id) {
        Some(i) => {
            proof {
                lemma_index_unique(app_state.tasks@, task_id.0, i as int);
            }
            Ok(&app_state.tasks[i])
        },
        None => Err(BzError::TaskNotFound(task_id)),
    }
}

/// The live runtime of a task record, if a worker is attached.
pub fn get_runtime_from_task(task: &BzTask) -> (r: BzResult<&BzTaskRuntimeInfo>)
    ensures
        match r {
            Ok(rt) => task.runtime matches Some(x) && *rt == x,
            Err(e) => e matches BzError::RuntimeNotFound(x) && x == task.id && task.runtime
                is None,
        },
{
    match &task.runtime {
        Some(rt) => Ok(rt),
        None => Err(BzError::RuntimeNotFound(task.id)),
    }
}

/// The live runtime of the task with the given id.
pub fn get_runtime_from_btreemap<'a>(app_state: &'a AppState, task_id: BzTaskId) -> (r: BzResult<
    &'a BzTaskRuntimeInfo,
>)
    requires
        app_state.wf(),
    ensures
        match r {
            Ok(rt) => {
                &&& contains_task(app_state.tasks@, task_id.0)
                &&& app_state.tasks@[task_index(app_state.tasks@, task_id.0)].runtime matches Some(
                    x,
                ) && *rt == x
            },
            Err(e) => match e {
                BzError::TaskNotFound(x) => x == task_id && !contains_task(
                    app_state.tasks@,
                    task_id.0,
                ),
                BzError::RuntimeNotFound(x) => {
                    &&& x == task_id
                    &&& contains_task(app_state.tasks@, task_id.0)
                    &&& app_state.tasks@[task_index(app_state.tasks@, task_id.0)].runtime is None
                },
                _ => false,
            },
        },
{
    let task = match get_task_from_btreemap(app_state, task_id) {
        Ok(task) => task,
        Err(e) => {
            return Err(e);
        },
    };
    match &task.runtime {
        Some(rt) => Ok(rt),
        None => Err(BzError::RuntimeNotFound(task_id)),
    }
}

/// Looks a task up by id and checks that its status is one of the given
/// list; the command is handed in so a rejection can report it.
pub fn assert_task_status(
    app_state: &AppState,
    task_id: BzTaskId,
    status_list: &Vec<BzTaskStatus>,
    task_message: BzTaskMessage,
) -> (r: BzResult<usize>)
    requires
        app_state.wf(),
    ensures
        match r {
            Ok(i) => {
                &&& i < app_state.tasks@.len()
                &&& contains_task(app_state.tasks@, task_id.0)
                &&& i as int == task_index(app_state.tasks@, task_id.0)
                &&& app_state.tasks@[i as int].id.0 == task_id.0
                &&& status_list@.contains(app_state.tasks@[i as int].info.status)
            },
            Err(e) => match e {
                BzError::TaskNotFound(x) => x == task_id && !contains_task(
                    app_state.tasks@,
                    task_id.0,
                ),
                BzError::TaskStatusError(st, m) => {
                    &&& contains_task(app_state.tasks@, task_id.0)
                    &&& st == app_state.tasks@[task_index(app_state.tasks@, task_id.0)].info.status
                    &&& !status_list@.contains(st)
                    &&& m == task_message
                },
                _ => false,
            },
        },
{
    let i = match app_state.find_task_index(task_id) {
        Some(i) => i,
        None => {
            return Err(BzError::TaskNotFound(task_id));
        },
    };
    proof {
        lemma_index_unique(app_state.tasks@, task_id.0, i as int);
    }
    let current = app_state.tasks[i].info.status;
    let mut k: usize = 0;
    let mut found: bool = false;
    while k < status_list.len()
        invariant
            k <= status_list@.len(),
            found <==> exists|j: int| 0 <= j < k && status_list@[j] == current,
        decreases status_list@.len() - k,
    {
        if status_list[k] == current {
            found = true;
        }
        k = k + 1;
    }
    if found {
        Ok(i)
    } else {
        Err(BzError::TaskStatusError(current, task_message))
    }
}

/// Replaces the status of the task at a known index.
fn set_task_status(app_state: &mut AppState, i: usize, status: BzTaskStatus)
    requires
        old(app_state).wf(),
        i < old(app_state).tasks@.len(),
    ensures
        final(app_state).wf(),
        final(app_state).ids == old(app_state).ids,
        final(app_state).tasks@ == old(app_state).tasks@.update(
            i as int,
            with_status(old(app_state).tasks@[i as int], status),
        ),
{
    let mut task = app_state.tasks.remove(i);
    task.info.status = status;
    let ghost updated = task;
    app_state.tasks.insert(i, task);
    proof {
        assert(app_state.tasks@ =~= old(app_state).tasks@.update(i as int, updated));
        lemma_order_after_update(
            old(app_state).tasks@,
            i as int,
            updated,
            old(app_state).ids.next,
        );
    }
}

/// Applies one command to the registry under the transition table: the
/// orchestrator's single point of mutation for commands. The contract is the
/// table itself — see `orchestration_step`: every edge of the table has
/// exactly the stated effect, and every (status, command) pair outside the
/// table leaves the registry unchanged and reports the mismatch.
pub fn deal_bztask_message(app_state: &mut AppState, task_message: BzTaskMessage) -> (r: BzResult<
    BzTaskAction,
>)
    requires
        old(app_state).wf(),
        task_message matches BzTaskMessage::AddTask(_) ==> old(app_state).ids.next < u64::MAX,
    ensures
        final(app_state).wf(),
        orchestration_step(*old(app_state), *final(app_state), task_message, r),
{
    match task_message {
        BzTaskMessage::AddTask(info) => {
            let ghost info0 = info;
            let task = BzTask::from_info(info, &mut app_state.ids);
            let task_id = task.id;
            proof {
                assert(task == new_task(info0, old(app_state).ids.next));
                lemma_order_after_push(old(app_state).tasks@, task, app_state.ids.next);
            }
            app_state.tasks.push(task);
            Ok(BzTaskAction::Dispatch(BzTaskMessage::TryStartTask(task_id)))
        },
        BzTaskMessage::TryStartTask(task_id) => {
            let mut statuses: Vec<BzTaskStatus> = Vec::new();
            statuses.push(BzTaskStatus::Queued);
            statuses.push(BzTaskStatus::Stopped);
            let ghost message = BzTaskMessage::TryStartTask(task_id);
            match assert_task_status(app_state, task_id, &statuses, BzTaskMessage::TryStartTask(task_id)) {
                Ok(i) => {
                    proof {
                        assert(statuses@[0] == BzTaskStatus::Queued);
                        assert(statuses@[1] == BzTaskStatus::Stopped);
                    }
                    Ok(BzTaskAction::Spawn(task_id))
                },
                Err(e) => {
                    proof {
                        assert(statuses@[0] == BzTaskStatus::Queued);
                        assert(statuses@[1] == BzTaskStatus::Stopped);
                    }
                    Err(e)
                },
            }
        },
        BzTaskMessage::StartTask(task_id) => {
            let mut statuses: Vec<BzTaskStatus> = Vec::new();
            statuses.push(BzTaskStatus::Queued);
            statuses.push(BzTaskStatus::Stopped);
            match assert_task_status(app_state, task_id, &statuses, BzTaskMessage::StartTask(task_id)) {
                Ok(i) => {
                    proof {
                        assert(statuses@[0] == BzTaskStatus::Queued);
                        assert(statuses@[1] == BzTaskStatus::Stopped);
                    }
                    set_task_status(app_state, i, BzTaskStatus::Running);
                    Ok(BzTaskAction::Idle)
                },
                Err(e) => {
                    proof {
                        assert(statuses@[0] == BzTaskStatus::Queued);
                        assert(statuses@[1] == BzTaskStatus::Stopped);
                    }
                    Err(e)
                },
            }
        },
        BzTaskMessage::TryStopTask(task_id) => {
            let mut statuses: Vec<BzTaskStatus> = Vec::new();
            statuses.push(BzTaskStatus::Running);
            match assert_task_status(app_state, task_id, &statuses, BzTaskMessage::TryStopTask(task_id)) {
                Ok(i) => {
                    proof {
                        assert(statuses@[0] == BzTaskStatus::Running);
                    }
                    let task = &app_state.tasks[i];
                    let runtime = match get_runtime_from_task(task) {
                        Ok(rt) => rt,
                        Err(e) => {
                            return Err(e);
                        },
                    };
                    match try_send_control(
                        &runtime.sender,
                        BzTaskControl { id: task_id, control: Control::Stop },
                    ) {
                        Ok(()) => Ok(BzTaskAction::Idle),
                        Err(e) => Err(BzError::MpscBzTaskControlError(e)),
                    }
                },
                Err(e) => {
                    proof {
                        assert(statuses@[0] == BzTaskStatus::Running);
                    }
                    Err(e)
                },
            }
        },
        BzTaskMessage::StopTask(task_id) => {
            let mut statuses: Vec<BzTaskStatus> = Vec::new();
            statuses.push(BzTaskStatus::Running);
            match assert_task_status(app_state, task_id, &statuses, BzTaskMessage::StopTask(task_id)) {
                Ok(i) => {
                    proof {
                        assert(statuses@[0] == BzTaskStatus::Running);
                    }
                    set_task_status(app_state, i, BzTaskStatus::Stopped);
                    Ok(BzTaskAction::Idle)
                },
                Err(e) => {
                    proof {
                        assert(statuses@[0] == BzTaskStatus::Running);
                    }
                    Err(e)
                },
            }
        },
        BzTaskMessage::RemoveTask(task_id) => {
            let mut statuses: Vec<BzTaskStatus> = Vec::new();
            statuses.push(BzTaskStatus::Stopped);
            match assert_task_status(app_state, task_id, &statuses, BzTaskMessage::RemoveTask(task_id)) {
                Ok(i) => {
                    proof {
                        assert(statuses@[0] == BzTaskStatus::Stopped);
                        lemma_order_after_remove(
                            old(app_state).tasks@,
                            i as int,
                            old(app_state).ids.next,
                        );
                    }
                    app_state.tasks.remove(i);
                    Ok(BzTaskAction::Idle)
                },
                Err(e) => {
                    proof {
                        assert(statuses@[0] == BzTaskStatus::Stopped);
                    }
                    Err(e)
                },
            }
        },
        BzTaskMessage::FinishTask(task_id) => {
            let mut statuses: Vec<BzTaskStatus> = Vec::new();
            statuses.push(BzTaskStatus::Running);
            match assert_task_status(app_state, task_id, &statuses, BzTaskMessage::FinishTask(task_id)) {
                Ok(i) => {
                    proof {
                        assert(statuses@[0] == BzTaskStatus::Running);
                    }
                    let mut task = app_state.tasks.remove(i);
                    task.info.status = BzTaskStatus::Completed;
                    task.extra.progress = PROGRESS_SCALE;
                    let ghost updated = task;
                    app_state.tasks.insert(i, task);
                    proof {
                        assert(app_state.tasks@ =~= old(app_state).tasks@.update(
                            i as int,
                            updated,
                        ));
                        lemma_order_after_update(
                            old(app_state).tasks@,
                            i as int,
                            updated,
                            old(app_state).ids.next,
                        );
                    }
                    Ok(BzTaskAction::Idle)
                },
                Err(e) => {
                    proof {
                        assert(statuses@[0] == BzTaskStatus::Running);
                    }
                    Err(e)
                },
            }
        },
        BzTaskMessage::FailTask(task_id) => {
            let mut statuses: Vec<BzTaskStatus> = Vec::new();
            statuses.push(BzTaskStatus::Running);
            match assert_task_status(app_state, task_id, &statuses, BzTaskMessage::FailTask(task_id)) {
                Ok(i) => {
                    proof {
                        assert(statuses@[0] == BzTaskStatus::Running);
                    }
                    set_task_status(app_state, i, BzTaskStatus::Failed);
                    Ok(BzTaskAction::Idle)
                },
                Err(e) => {
                    proof {
                        assert(statuses@[0] == BzTaskStatus::Running);
                    }
                    Err(e)
                },
            }
        },
    }
}

/// Records the runtime of a freshly spawned worker on its task. The driver
/// calls this right after it carried out a `Spawn` action.
pub fn attach_runtime(
    app_state: &mut AppState,
    task_id: BzTaskId,
    runtime: BzTaskRuntimeInfo,
) -> (r: BzResult<()>)
    requires
        old(app_state).wf(),
    ensures
        final(app_state).wf(),
        final(app_state).ids == old(app_state).ids,
        match r {
            Ok(_) => {
                &&& contains_task(old(app_state).tasks@, task_id.0)
                &&& final(app_state).tasks@ == old(app_state).tasks@.update(
                    task_index(old(app_state).tasks@, task_id.0),
                    with_runtime(
                        old(app_state).tasks@[task_index(old(app_state).tasks@, task_id.0)],
                        runtime,
                    ),
                )
            },
            Err(e) => {
                &&& e matches BzError::TaskNotFound(x) && x == task_id
                &&& !contains_task(old(app_state).tasks@, task_id.0)
                &&& final(app_state).tasks@ == old(app_state).tasks@
            },
        },
{
    let i = match app_state.find_task_index(task_id) {
        Some(i) => i,
        None => {
            return Err(BzError::TaskNotFound(task_id));
        },
    };
    proof {
        lemma_index_unique(app_state.tasks@, task_id.0, i as int);
    }
    let mut task = app_state.tasks.remove(i);
    task.runtime = Some(runtime);
    let ghost updated = task;
    app_state.tasks.insert(i, task);
    proof {
        assert(app_state.tasks@ =~= old(app_state).tasks@.update(i as int, updated));
        lemma_order_after_update(old(app_state).tasks@, i as int, updated, old(app_state).ids.next);
    }
    Ok(())
}

/// Clears the runtime of a task whose worker was observed to have ended:
/// the one registry update that joins a dead worker, performed only here.
/// Clearing a task that has no runtime, or is gone, is harmless.
pub fn detach_runtime(app_state: &mut AppState, task_id: BzTaskId) -> (r: BzResult<()>)
    requires
        old(app_state).wf(),
    ensures
        final(app_state).wf(),
        final(app_state).ids == old(app_state).ids,
        match r {
            Ok(_) => {
                &&& contains_task(old(app_state).tasks@, task_id.0)
                &&& final(app_state).tasks@ == old(app_state).tasks@.update(
                    task_index(old(app_state).tasks@, task_id.0),
                    without_runtime(
                        old(app_state).tasks@[task_index(old(app_state).tasks@, task_id.0)],
                    ),
                )
            },
            Err(e) => {
                &&& e matches BzError::TaskNotFound(x) && x == task_id
                &&& !contains_task(old(app_state).tasks@, task_id.0)
                &&& final(app_state).tasks@ == old(app_state).tasks@
            },
        },
{
    let i = match app_state.find_task_index(task_id) {
        Some(i) => i,
        None => {
            return Err(BzError::TaskNotFound(task_id));
        },
    };
    proof {
        lemma_index_unique(app_state.tasks@, task_id.0, i as int);
    }
    let mut task = app_state.tasks.remove(i);
    task.runtime = None;
    let ghost updated = task;
    app_state.tasks.insert(i, task);
    proof {
        assert(app_state.tasks@ =~= old(app_state).tasks@.update(i as int, updated));
        lemma_order_after_update(old(app_state).tasks@, i as int, updated, old(app_state).ids.next);
    }
    Ok(())
}

/// Applies a progress feedback message: the progress metric of the task is
/// set to the reported value if the task still exists, and the message is
/// silently dropped if it does not (the task was removed meanwhile). The
/// status never changes here.
pub fn apply_progress_feedback(app_state: &mut AppState, feedback: &BzTaskInfoFeedBackMessage)
    requires
        old(app_state).wf(),
    ensures
        final(app_state).wf(),
        final(app_state).ids == old(app_state).ids,
        contains_task(old(app_state).tasks@, feedback.task_id.0) ==> final(app_state).tasks@ == old(
            app_state,
        ).tasks@.update(
            task_index(old(app_state).tasks@, feedback.task_id.0),
            with_progress(
                old(app_state).tasks@[task_index(old(app_state).tasks@, feedback.task_id.0)],
                feedback.progress,
            ),
        ),
        !contains_task(old(app_state).tasks@, feedback.task_id.0) ==> final(app_state).tasks@
            == old(app_state).tasks@,
{
    let i = match app_state.find_task_index(feedback.task_id) {
        Some(i) => i,
        None => {
            return ;
        },
    };
    proof {
        lemma_index_unique(app_state.tasks@, feedback.task_id.0, i as int);
    }
    let mut task = app_state.tasks.remove(i);
    task.extra.progress = feedback.progress;
    let ghost updated = task;
    app_state.tasks.insert(i, task);
    proof {
        assert(app_state.tasks@ =~= old(app_state).tasks@.update(i as int, updated));
        lemma_order_after_update(old(app_state).tasks@, i as int, updated, old(app_state).ids.next);
    }
}

/// How the feedback loop translates a worker's lifecycle event into the
/// orchestrator command that confirms it.
pub fn feedback_to_task_message(message: &BzTaskControlFeedBackMessage) -> (r: BzTaskMessage)
    ensures
        r == match message.control {
            BzTaskControlFeedBack::Started => BzTaskMessage::StartTask(message.task_id),
            BzTaskControlFeedBack::Stopped => BzTaskMessage::StopTask(message.task_id),
            BzTaskControlFeedBack::Finished => BzTaskMessage::FinishTask(message.task_id),
            BzTaskControlFeedBack::Failed => BzTaskMessage::FailTask(message.task_id),
        },
{
    match message.control {
        BzTaskControlFeedBack::Started => BzTaskMessage::StartTask(message.task_id),
        BzTaskControlFeedBack::Stopped => BzTaskMessage::StopTask(message.task_id),
        BzTaskControlFeedBack::Finished => BzTaskMessage::FinishTask(message.task_id),
        BzTaskControlFeedBack::Failed => BzTaskMessage::FailTask(message.task_id),
    }
}

} // verus!
