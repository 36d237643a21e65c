pub mod id;
pub mod info;
pub mod message;

pub use id::{BzTaskId, TaskIdGen};
pub use info::{
    BzTask, BzTaskControl, BzTaskControlFeedBack, BzTaskControlFeedBackMessage,
    BzTaskExtraInfo, BzTaskFeedBack, BzTaskInfo, BzTaskInfoFeedBackMessage,
    BzTaskRuntimeInfo, BzTaskStatus, BzTaskType, Control, TaskInnerStatus,
};
pub use message::{BzTaskAction, BzTaskMessage};
