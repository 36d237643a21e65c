use bz_downloader::app_state::AppState;
use bz_downloader::bz_task::info::{allowed_task_actions, PROGRESS_SCALE};
use bz_downloader::bz_task::message::{
    apply_progress_feedback, attach_runtime, deal_bztask_message, detach_runtime,
    feedback_to_task_message, get_runtime_from_btreemap, get_runtime_from_task,
    get_task_from_btreemap,
};
use bz_downloader::bz_task::{
    BzTask, BzTaskAction, BzTaskControl, BzTaskControlFeedBack, BzTaskControlFeedBackMessage,
    BzTaskId, BzTaskInfo, BzTaskInfoFeedBackMessage, BzTaskMessage, BzTaskRuntimeInfo,
    BzTaskStatus, BzTaskType, Control,
};
use bz_downloader::error::{BzError, BzTaskControlSendError};

fn mk_info(kind: BzTaskType) -> BzTaskInfo {
    BzTaskInfo {
        src: String::from("https://example.com/video.m3u8"),
        dest: String::from("./out/video.mp4"),
        cache: String::from("./cache/video"),
        kind,
        status: BzTaskStatus::Queued,
    }
}

fn status_of(state: &AppState, id: BzTaskId) -> BzTaskStatus {
    get_task_from_btreemap(state, id).unwrap().info.status
}

fn add_task(state: &mut AppState, kind: BzTaskType) -> BzTaskId {
    let action = deal_bztask_message(state, BzTaskMessage::AddTask(mk_info(kind))).unwrap();
    match action {
        BzTaskAction::Dispatch(BzTaskMessage::TryStartTask(id)) => id,
        other => panic!("AddTask produced the wrong follow-up: {:?}", other),
    }
}

fn attach(
    state: &mut AppState,
    id: BzTaskId,
    rt: &tokio::runtime::Runtime,
    capacity: usize,
) -> tokio::sync::mpsc::Receiver<BzTaskControl> {
    let (tx, rx) = tokio::sync::mpsc::channel::<BzTaskControl>(capacity);
    let handle = rt.spawn(async {});
    attach_runtime(state, id, BzTaskRuntimeInfo { sender: tx, join_handle: handle }).unwrap();
    rx
}

#[test]
fn add_task_auto_start_attaches_runtime() {
    // Scenario: a new task is queued, auto-started, and once the worker
    // confirms, it runs with a live runtime attached.
    let rt = tokio::runtime::Runtime::new().unwrap();
    let mut state = AppState::new();
    let id = add_task(&mut state, BzTaskType::Zfs);
    assert_eq!(status_of(&state, id), BzTaskStatus::Queued);
    assert!(get_task_from_btreemap(&state, id).unwrap().runtime.is_none());

    let action = deal_bztask_message(&mut state, BzTaskMessage::TryStartTask(id)).unwrap();
    assert!(matches!(action, BzTaskAction::Spawn(s) if s == id));
    let _rx = attach(&mut state, id, &rt, 8);
    deal_bztask_message(&mut state, BzTaskMessage::StartTask(id)).unwrap();
    assert_eq!(status_of(&state, id), BzTaskStatus::Running);
    assert!(get_task_from_btreemap(&state, id).unwrap().runtime.is_some());
    assert!(get_runtime_from_btreemap(&state, id).is_ok());
}

#[test]
fn try_stop_sends_stop_and_stopped_task_rejects_second_stop() {
    // Scenario: stopping a running task sends the Stop verb; after the
    // worker confirms, a second stop request is rejected.
    let rt = tokio::runtime::Runtime::new().unwrap();
    let mut state = AppState::new();
    let id = add_task(&mut state, BzTaskType::M3u8);
    deal_bztask_message(&mut state, BzTaskMessage::TryStartTask(id)).unwrap();
    let mut rx = attach(&mut state, id, &rt, 8);
    deal_bztask_message(&mut state, BzTaskMessage::StartTask(id)).unwrap();

    let action = deal_bztask_message(&mut state, BzTaskMessage::TryStopTask(id)).unwrap();
    assert!(matches!(action, BzTaskAction::Idle));
    let control = rx.try_recv().unwrap();
    assert_eq!(control, BzTaskControl { id, control: Control::Stop });
    // status does not change until the worker confirms
    assert_eq!(status_of(&state, id), BzTaskStatus::Running);

    deal_bztask_message(&mut state, BzTaskMessage::StopTask(id)).unwrap();
    assert_eq!(status_of(&state, id), BzTaskStatus::Stopped);
    // the runtime is retained until the handle's completion is observed
    assert!(get_task_from_btreemap(&state, id).unwrap().runtime.is_some());

    let rejected = deal_bztask_message(&mut state, BzTaskMessage::TryStopTask(id));
    assert!(matches!(
        rejected,
        Err(BzError::TaskStatusError(BzTaskStatus::Stopped, BzTaskMessage::TryStopTask(_)))
    ));

    // once the worker's end is observed, the runtime is cleared, and the
    // stopped task can be started again
    detach_runtime(&mut state, id).unwrap();
    assert!(get_task_from_btreemap(&state, id).unwrap().runtime.is_none());
    let action = deal_bztask_message(&mut state, BzTaskMessage::TryStartTask(id)).unwrap();
    assert!(matches!(action, BzTaskAction::Spawn(s) if s == id));
}

#[test]
fn remove_stopped_task_then_lookups_fail() {
    // Scenario: removing a stopped task deletes it; later lookups and
    // commands report TaskNotFound.
    let rt = tokio::runtime::Runtime::new().unwrap();
    let mut state = AppState::new();
    let id = add_task(&mut state, BzTaskType::Zfs);
    deal_bztask_message(&mut state, BzTaskMessage::TryStartTask(id)).unwrap();
    let _rx = attach(&mut state, id, &rt, 8);
    deal_bztask_message(&mut state, BzTaskMessage::StartTask(id)).unwrap();
    deal_bztask_message(&mut state, BzTaskMessage::StopTask(id)).unwrap();

    deal_bztask_message(&mut state, BzTaskMessage::RemoveTask(id)).unwrap();
    assert!(matches!(
        get_task_from_btreemap(&state, id),
        Err(BzError::TaskNotFound(x)) if x == id
    ));
    assert!(matches!(
        deal_bztask_message(&mut state, BzTaskMessage::TryStartTask(id)),
        Err(BzError::TaskNotFound(x)) if x == id
    ));
}

#[test]
fn running_task_cannot_be_removed() {
    let rt = tokio::runtime::Runtime::new().unwrap();
    let mut state = AppState::new();
    let id = add_task(&mut state, BzTaskType::Zfs);
    deal_bztask_message(&mut state, BzTaskMessage::TryStartTask(id)).unwrap();
    let _rx = attach(&mut state, id, &rt, 8);
    deal_bztask_message(&mut state, BzTaskMessage::StartTask(id)).unwrap();

    let rejected = deal_bztask_message(&mut state, BzTaskMessage::RemoveTask(id));
    assert!(matches!(
        rejected,
        Err(BzError::TaskStatusError(BzTaskStatus::Running, BzTaskMessage::RemoveTask(_)))
    ));
    // no mutation: the task is still there and still running
    assert_eq!(status_of(&state, id), BzTaskStatus::Running);
}

#[test]
fn transitions_outside_the_table_are_rejected_without_mutation() {
    let rt = tokio::runtime::Runtime::new().unwrap();
    let mut state = AppState::new();
    let id = add_task(&mut state, BzTaskType::Zfs);

    // queued: stop, finish, fail, remove are all invalid
    for msg in [
        BzTaskMessage::TryStopTask(id),
        BzTaskMessage::StopTask(id),
        BzTaskMessage::FinishTask(id),
        BzTaskMessage::FailTask(id),
        BzTaskMessage::RemoveTask(id),
    ] {
        let rejected = deal_bztask_message(&mut state, msg);
        assert!(matches!(rejected, Err(BzError::TaskStatusError(BzTaskStatus::Queued, _))));
        assert_eq!(status_of(&state, id), BzTaskStatus::Queued);
    }

    // running: start commands are invalid
    deal_bztask_message(&mut state, BzTaskMessage::TryStartTask(id)).unwrap();
    let _rx = attach(&mut state, id, &rt, 8);
    deal_bztask_message(&mut state, BzTaskMessage::StartTask(id)).unwrap();
    for msg in [BzTaskMessage::TryStartTask(id), BzTaskMessage::StartTask(id)] {
        let rejected = deal_bztask_message(&mut state, msg);
        assert!(matches!(rejected, Err(BzError::TaskStatusError(BzTaskStatus::Running, _))));
        assert_eq!(status_of(&state, id), BzTaskStatus::Running);
    }

    // completed is terminal but removable
    deal_bztask_message(&mut state, BzTaskMessage::FinishTask(id)).unwrap();
    assert_eq!(status_of(&state, id), BzTaskStatus::Completed);
    let rejected = deal_bztask_message(&mut state, BzTaskMessage::TryStartTask(id));
    assert!(matches!(rejected, Err(BzError::TaskStatusError(BzTaskStatus::Completed, _))));
    let rejected = deal_bztask_message(&mut state, BzTaskMessage::RemoveTask(id));
    assert!(matches!(rejected, Err(BzError::TaskStatusError(BzTaskStatus::Completed, _))));
}

#[test]
fn failed_task_start_request_is_rejected_by_the_table() {
    let rt = tokio::runtime::Runtime::new().unwrap();
    let mut state = AppState::new();
    let id = add_task(&mut state, BzTaskType::M3u8);
    deal_bztask_message(&mut state, BzTaskMessage::TryStartTask(id)).unwrap();
    let _rx = attach(&mut state, id, &rt, 8);
    deal_bztask_message(&mut state, BzTaskMessage::StartTask(id)).unwrap();
    deal_bztask_message(&mut state, BzTaskMessage::FailTask(id)).unwrap();
    assert_eq!(status_of(&state, id), BzTaskStatus::Failed);
    // a failed task needs an explicit restart command; the table has no
    // Failed -> Running edge for the start requests
    let rejected = deal_bztask_message(&mut state, BzTaskMessage::TryStartTask(id));
    assert!(matches!(rejected, Err(BzError::TaskStatusError(BzTaskStatus::Failed, _))));
}

#[test]
fn finish_forces_progress_to_one() {
    let rt = tokio::runtime::Runtime::new().unwrap();
    let mut state = AppState::new();
    let id = add_task(&mut state, BzTaskType::Zfs);
    // metrics start zeroed
    assert_eq!(get_task_from_btreemap(&state, id).unwrap().extra.progress, 0);
    deal_bztask_message(&mut state, BzTaskMessage::TryStartTask(id)).unwrap();
    let _rx = attach(&mut state, id, &rt, 8);
    deal_bztask_message(&mut state, BzTaskMessage::StartTask(id)).unwrap();

    apply_progress_feedback(
        &mut state,
        &BzTaskInfoFeedBackMessage { task_id: id, progress: PROGRESS_SCALE / 2 },
    );
    assert_eq!(get_task_from_btreemap(&state, id).unwrap().extra.progress, PROGRESS_SCALE / 2);

    deal_bztask_message(&mut state, BzTaskMessage::FinishTask(id)).unwrap();
    assert_eq!(get_task_from_btreemap(&state, id).unwrap().extra.progress, PROGRESS_SCALE);
}

#[test]
fn progress_feedback_for_unknown_id_is_dropped() {
    let mut state = AppState::new();
    let id = add_task(&mut state, BzTaskType::Zfs);
    apply_progress_feedback(
        &mut state,
        &BzTaskInfoFeedBackMessage { task_id: BzTaskId(9999), progress: 123 },
    );
    assert_eq!(get_task_from_btreemap(&state, id).unwrap().extra.progress, 0);
}

#[test]
fn try_stop_without_runtime_reports_runtime_not_found() {
    let mut state = AppState::new();
    let id = add_task(&mut state, BzTaskType::Zfs);
    // the worker confirmation can arrive even though nothing was attached
    deal_bztask_message(&mut state, BzTaskMessage::StartTask(id)).unwrap();
    let r = deal_bztask_message(&mut state, BzTaskMessage::TryStopTask(id));
    assert!(matches!(r, Err(BzError::RuntimeNotFound(x)) if x == id));
    let task = get_task_from_btreemap(&state, id).unwrap();
    assert!(matches!(get_runtime_from_task(task), Err(BzError::RuntimeNotFound(_))));
}

#[test]
fn control_send_failures_are_reported_not_fatal() {
    let rt = tokio::runtime::Runtime::new().unwrap();
    let mut state = AppState::new();

    // a full bounded channel: capacity one, two stop requests
    let id = add_task(&mut state, BzTaskType::Zfs);
    deal_bztask_message(&mut state, BzTaskMessage::TryStartTask(id)).unwrap();
    let _rx = attach(&mut state, id, &rt, 1);
    deal_bztask_message(&mut state, BzTaskMessage::StartTask(id)).unwrap();
    deal_bztask_message(&mut state, BzTaskMessage::TryStopTask(id)).unwrap();
    let r = deal_bztask_message(&mut state, BzTaskMessage::TryStopTask(id));
    // the undelivered message handed back is the Stop verb for the task
    assert!(matches!(
        r,
        Err(BzError::MpscBzTaskControlError(BzTaskControlSendError::Full(m)))
            if m == BzTaskControl { id, control: Control::Stop }
    ));

    // a closed channel: the receiver is gone
    let id2 = add_task(&mut state, BzTaskType::Zfs);
    deal_bztask_message(&mut state, BzTaskMessage::TryStartTask(id2)).unwrap();
    let rx2 = attach(&mut state, id2, &rt, 1);
    drop(rx2);
    deal_bztask_message(&mut state, BzTaskMessage::StartTask(id2)).unwrap();
    let r = deal_bztask_message(&mut state, BzTaskMessage::TryStopTask(id2));
    assert!(matches!(
        r,
        Err(BzError::MpscBzTaskControlError(BzTaskControlSendError::Closed(m)))
            if m == BzTaskControl { id: id2, control: Control::Stop }
    ));
    // the task is untouched by the failed send
    assert_eq!(status_of(&state, id2), BzTaskStatus::Running);
}

#[test]
fn feedback_events_translate_to_confirmation_commands() {
    let id = BzTaskId(7);
    let cases = [
        (BzTaskControlFeedBack::Started, BzTaskMessage::StartTask(id)),
        (BzTaskControlFeedBack::Stopped, BzTaskMessage::StopTask(id)),
        (BzTaskControlFeedBack::Finished, BzTaskMessage::FinishTask(id)),
        (BzTaskControlFeedBack::Failed, BzTaskMessage::FailTask(id)),
    ];
    for (event, expected) in cases {
        let msg = feedback_to_task_message(&BzTaskControlFeedBackMessage {
            task_id: id,
            control: event,
        });
        assert_eq!(format!("{:?}", msg), format!("{:?}", expected));
    }
}

#[test]
fn startup_state_keeps_descriptors_and_orders_fresh_ids() {
    let mut stopped = mk_info(BzTaskType::M3u8);
    stopped.status = BzTaskStatus::Stopped;
    let mut completed = mk_info(BzTaskType::Zfs);
    completed.status = BzTaskStatus::Completed;
    let infos = vec![stopped, completed, mk_info(BzTaskType::Zfs)];
    let state = AppState::from_task_infos(infos);

    assert_eq!(state.tasks.len(), 3);
    let ids: Vec<u64> = state.tasks.iter().map(|t: &BzTask| t.id.0).collect();
    assert_eq!(ids, vec![1, 2, 3]);
    assert_eq!(state.tasks[0].info.status, BzTaskStatus::Stopped);
    assert_eq!(state.tasks[1].info.status, BzTaskStatus::Completed);
    assert_eq!(state.tasks[2].info.status, BzTaskStatus::Queued);
    assert!(state.tasks.iter().all(|t: &BzTask| t.runtime.is_none()));
    assert!(state.tasks.iter().all(|t: &BzTask| t.extra.progress == 0));

    // what would be persisted on exit is exactly the descriptors, in order
    let collected = state.collect_task_infos();
    assert_eq!(collected.len(), 3);
    assert_eq!(collected[0].status, BzTaskStatus::Stopped);
    assert_eq!(collected[2].src, "https://example.com/video.m3u8");
}

#[test]
fn commands_render_as_text() {
    let id = BzTaskId(12);
    assert_eq!(BzTaskMessage::TryStartTask(id).describe(), "TryStartTask: 12");
    assert_eq!(BzTaskMessage::RemoveTask(id).describe(), "RemoveTask: 12");
    assert_eq!(
        BzTaskMessage::AddTask(mk_info(BzTaskType::Zfs)).describe(),
        "AddTask: https://example.com/video.m3u8"
    );
}

#[test]
fn action_buttons_follow_the_status_gating() {
    let a = allowed_task_actions(&BzTaskStatus::Queued);
    assert!(a.start && !a.stop && a.remove);
    let a = allowed_task_actions(&BzTaskStatus::Running);
    assert!(!a.start && a.stop && !a.remove);
    let a = allowed_task_actions(&BzTaskStatus::Stopped);
    assert!(a.start && !a.stop && a.remove);
    let a = allowed_task_actions(&BzTaskStatus::Completed);
    assert!(!a.start && !a.stop && a.remove);
    let a = allowed_task_actions(&BzTaskStatus::Failed);
    assert!(a.start && !a.stop && a.remove);
}
