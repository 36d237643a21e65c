use vstd::prelude::*;

use crate::bz_task::id::{BzTaskId, TaskIdGen};
use crate::bz_task::info::{BzTask, BzTaskExtraInfo, BzTaskInfo};

verus! {

/// Whether some task of the registry carries the given id.
pub open spec fn contains_task(tasks: Seq<BzTask>, id: u64) -> bool {
    exists|i: int| 0 <= i < tasks.len() && tasks[i].id.0 == id
}

/// The position of the task with the given id; meaningful when
/// `contains_task` holds (ids are unique in a well-formed registry).
pub open spec fn task_index(tasks: Seq<BzTask>, id: u64) -> int {
    choose|i: int| 0 <= i < tasks.len() && tasks[i].id.0 == id
}

/// Registry order: strictly ascending task ids, which is creation order.
/// Strict ascent also makes every id unique.
pub open spec fn sorted_by_id(tasks: Seq<BzTask>) -> bool {
    forall|i: int, j: int| 0 <= i < j < tasks.len() ==> tasks[i].id.0 < tasks[j].id.0
}

/// Every id of the registry was handed out by the counter: it is below the
/// counter's next value. This is what keeps a fresh id from colliding.
pub open spec fn ids_bounded(tasks: Seq<BzTask>, next: u64) -> bool {
    forall|i: int| 0 <= i < tasks.len() ==> tasks[i].id.0 < next
}

/// The orchestrator's whole state: the id counter and the task registry,
/// an ordered id-to-record mapping held as a vector in ascending id order.
/// The orchestrator is the only writer of this value; workers talk to it
/// exclusively through channels.
pub struct AppState {
    pub ids: TaskIdGen,
    pub tasks: Vec<BzTask>,
}

impl AppState {
    /// Registry invariant: ascending unique ids, all below the counter.
    pub open spec fn wf(&self) -> bool {
        &&& sorted_by_id(self.tasks@)
        &&& ids_bounded(self.tasks@, self.ids.next)
    }

    /// An empty registry with a fresh id counter.
    pub fn new() -> (r: AppState)
        ensures
            r.wf(),
            r.tasks@.len() == 0,
            r.ids.next == 1,
    {
        AppState { ids: TaskIdGen::new(), tasks: Vec::new() }
    }

    /// Builds the state the application starts in from the persisted
    /// descriptors: one record per descriptor, in order, each with a fresh
    /// id, zeroed metrics, no worker, and the descriptor exactly as loaded.
    pub fn from_task_infos(task_infos: Vec<BzTaskInfo>) -> (r: AppState)
        requires
            task_infos@.len() < u64::MAX,
        ensures
            r.wf(),
            r.tasks@.len() == task_infos@.len(),
            r.ids.next as int == 1 + task_infos@.len(),
            forall|i: int| 0 <= i < task_infos@.len() ==> {
                &&& (#[trigger] r.tasks@[i]).id.0 as int == 1 + i
                &&& r.tasks@[i].info == task_infos@[i]
                &&& r.tasks@[i].extra == BzTaskExtraInfo::zero()
                &&& r.tasks@[i].runtime is None
            },
    {
        let mut state = AppState { ids: TaskIdGen::new(), tasks: Vec::new() };
        let mut k: usize = 0;
        while k < task_infos.len()
            invariant
                k <= task_infos@.len(),
                task_infos@.len() < u64::MAX,
                state.tasks@.len() == k,
                state.ids.next as int == 1 + k,
                forall|i: int| 0 <= i < k ==> {
                    &&& (#[trigger] state.tasks@[i]).id.0 as int == 1 + i
                    &&& state.tasks@[i].info == task_infos@[i]
                    &&& state.tasks@[i].extra == BzTaskExtraInfo::zero()
                    &&& state.tasks@[i].runtime is None
                },
            decreases task_infos@.len() - k,
        {
            let info = task_infos[k].clone();
            let id = BzTaskId::unique(&mut state.ids);
            state.tasks.push(
                BzTask {
                    id,
                    info,
                    extra: BzTaskExtraInfo { progress: 0, current_size: 0, total_size: 0 },
                    runtime: None,
                },
            );
            k = k + 1;
        }
        proof {
            assert(sorted_by_id(state.tasks@));
            assert(ids_bounded(state.tasks@, state.ids.next));
        }
        state
    }

    /// Where the task with this id sits in the registry, if anywhere.
    pub fn find_task_index(&self, task_id: BzTaskId) -> (r: Option<usize>)
        ensures
            match r {
                Some(i) => i < self.tasks@.len() && self.tasks@[i as int].id.0 == task_id.0,
                None => !contains_task(self.tasks@, task_id.0),
            },
    {
        let mut k: usize = 0;
        while k < self.tasks.len()
            invariant
                k <= self.tasks@.len(),
                forall|j: int| 0 <= j < k ==> (#[trigger] self.tasks@[j]).id.0 != task_id.0,
            decreases self.tasks@.len() - k,
        {
            if self.tasks[k].id.0 == task_id.0 {
                return Some(k);
            }
            k = k + 1;
        }
        None
    }

    /// The descriptors of all tasks, in registry order: what gets persisted
    /// on a graceful exit. Metrics and runtimes are not part of it.
    pub fn collect_task_infos(&self) -> (r: Vec<BzTaskInfo>)
        ensures
            r@.len() == self.tasks@.len(),
            forall|i: int| 0 <= i < r@.len() ==> r@[i] == (#[trigger] self.tasks@[i]).info,
    {
        let mut infos: Vec<BzTaskInfo> = Vec::new();
        let mut k: usize = 0;
        while k < self.tasks.len()
            invariant
                k <= self.tasks@.len(),
                infos@.len() == k,
                forall|i: int| 0 <= i < k ==> infos@[i] == (#[trigger] self.tasks@[i]).info,
            decreases self.tasks@.len() - k,
        {
            infos.push(self.tasks[k].info.clone());
            k = k + 1;
        }
        infos
    }
}

/// In a registry with strictly ascending ids, an index holding an id is the
/// only one, so it is what `task_index` names.
pub proof fn lemma_index_unique(tasks: Seq<BzTask>, id: u64, i: int)
    requires
        sorted_by_id(tasks),
        0 <= i < tasks.len(),
        tasks[i].id.0 == id,
    ensures
        contains_task(tasks, id),
        task_index(tasks, id) == i,
{
    assert(contains_task(tasks, id));
    let j = task_index(tasks, id);
    assert(0 <= j < tasks.len() && tasks[j].id.0 == id);
    if i < j {
        assert(tasks[i].id.0 < tasks[j].id.0);
    } else if j < i {
        assert(tasks[j].id.0 < tasks[i].id.0);
    }
}

/// Replacing a record by one with the same id keeps the registry
/// well-ordered and its ids bounded.
pub proof fn lemma_order_after_update(tasks: Seq<BzTask>, i: int, t: BzTask, next: u64)
    requires
        sorted_by_id(tasks),
        ids_bounded(tasks, next),
        0 <= i < tasks.len(),
        t.id == tasks[i].id,
    ensures
        sorted_by_id(tasks.update(i, t)),
        ids_bounded(tasks.update(i, t), next),
{
    let updated = tasks.update(i, t);
    assert forall|a: int, b: int| 0 <= a < b < updated.len() implies updated[a].id.0
        < updated[b].id.0 by {
        assert(tasks[a].id.0 < tasks[b].id.0);
    }
    assert forall|a: int| 0 <= a < updated.len() implies (#[trigger] updated[a]).id.0 < next by {
        assert(tasks[a].id.0 < next);
    }
}

/// Taking a record out keeps the registry well-ordered and its ids bounded.
pub proof fn lemma_order_after_remove(tasks: Seq<BzTask>, i: int, next: u64)
    requires
        sorted_by_id(tasks),
        ids_bounded(tasks, next),
        0 <= i < tasks.len(),
    ensures
        sorted_by_id(tasks.remove(i)),
        ids_bounded(tasks.remove(i), next),
{
    let removed = tasks.remove(i);
    assert forall|a: int, b: int| 0 <= a < b < removed.len() implies removed[a].id.0
        < removed[b].id.0 by {
        let a0 = if a < i { a } else { a + 1 };
        let b0 = if b < i { b } else { b + 1 };
        assert(removed[a] == tasks[a0]);
        assert(removed[b] == tasks[b0]);
        assert(tasks[a0].id.0 < tasks[b0].id.0);
    }
    assert forall|a: int| 0 <= a < removed.len() implies (#[trigger] removed[a]).id.0 < next by {
        let a0 = if a < i { a } else { a + 1 };
        assert(removed[a] == tasks[a0]);
    }
}

/// Appending a record whose id tops every existing one keeps the registry
/// well-ordered; bounding is kept for any counter past the new id.
pub proof fn lemma_order_after_push(tasks: Seq<BzTask>, t: BzTask, next: u64)
    requires
        sorted_by_id(tasks),
        ids_bounded(tasks, t.id.0),
        t.id.0 < next,
        forall|i: int| 0 <= i < tasks.len() ==> (#[trigger] tasks[i]).id.0 < next,
    ensures
        sorted_by_id(tasks.push(t)),
        ids_bounded(tasks.push(t), next),
{
    let pushed = tasks.push(t);
    assert forall|a: int, b: int| 0 <= a < b < pushed.len() implies pushed[a].id.0
        < pushed[b].id.0 by {
        if b < tasks.len() {
            assert(tasks[a].id.0 < tasks[b].id.0);
        } else {
            assert(pushed[b] == t);
            assert(tasks[a].id.0 < t.id.0);
        }
    }
}

} // verus!
