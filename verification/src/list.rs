//! The task list: an ordered, exclusively owned collection of tasks with
//! lookup-by-id mutation. Its model is the sequence of task models, in
//! insertion order.

use vstd::prelude::*;

use crate::error::{ErrorModel, TodoError};
use crate::task::{Task, TaskModel, TaskStatus};

verus! {

/// An ordered collection of tasks, insertion order preserved.
#[derive(Debug)]
pub struct TaskList {
    pub tasks: Vec<Task>,
}

impl View for TaskList {
    type V = Seq<TaskModel>;

    open spec fn view(&self) -> Seq<TaskModel> {
        self.tasks@.map_values(|t: Task| t@)
    }
}

/// `ts` without the tasks whose id is `id`.
pub open spec fn remove_model(ts: Seq<TaskModel>, id: u32) -> Seq<TaskModel> {
    ts.filter(|t: TaskModel| t.id != id)
}

/// Whether some task in `ts` carries `id`.
pub open spec fn has_id(ts: Seq<TaskModel>, id: u32) -> bool {
    exists|i: int| 0 <= i < ts.len() && ts[i].id == id
}

/// Whether `i` is the position of the first task in `ts` carrying `id`.
pub open spec fn is_first_match(ts: Seq<TaskModel>, id: u32, i: int) -> bool {
    &&& 0 <= i < ts.len()
    &&& ts[i].id == id
    &&& forall|j: int| 0 <= j < i ==> ts[j].id != id
}

pub open spec fn with_status(t: TaskModel, status: TaskStatus) -> TaskModel {
    TaskModel { status, ..t }
}

pub open spec fn with_description(t: TaskModel, description: Seq<char>) -> TaskModel {
    TaskModel { description, ..t }
}

impl TaskList {
    /// An empty list.
    pub fn new() -> (r: TaskList)
        ensures
            r@ == Seq::<TaskModel>::empty(),
    {
        let r = TaskList { tasks: Vec::new() };
        proof {
            assert(r@ =~= Seq::<TaskModel>::empty());
        }
        r
    }

    /// Appends `task` at the end; never merges by id and never fails.
    pub fn add(&mut self, task: Task)
        ensures
            final(self)@ == old(self)@.push(task@),
    {
        let ghost m = task@;
        self.tasks.push(task);
        proof {
            assert(self@ =~= old(self)@.push(m));
        }
    }

    /// Deletes every task whose id is `task_id`. A missing id is a silent
    /// no-op, not an error.
    pub fn remove(&mut self, task_id: u32)
        ensures
            final(self)@ == remove_model(old(self)@, task_id),
            forall|j: int| 0 <= j < final(self)@.len() ==> final(self)@[j].id != task_id,
    {
        let n = self.tasks.len();
        let mut kept: Vec<Task> = Vec::new();
        let mut i: usize = 0;
        proof {
            assert(old(self)@.take(0) =~= Seq::<TaskModel>::empty());
            assert(kept@.map_values(|t: Task| t@) =~= remove_model(old(self)@.take(0), task_id));
        }
        while i < n
            invariant
                *self == *old(self),
                n == self.tasks@.len(),
                i <= n,
                kept@.map_values(|t: Task| t@) == remove_model(old(self)@.take(i as int), task_id),
            decreases n - i,
        {
            let ghost pre = kept@.map_values(|t: Task| t@);
            proof {
                reveal(Seq::filter);
                assert(old(self)@.take(i + 1 as int).drop_last() =~= old(self)@.take(i as int));
                assert(old(self)@.take(i + 1 as int).last() == old(self)@[i as int]);
                assert(old(self)@[i as int] == self.tasks@[i as int]@);
            }
            if self.tasks[i].id != task_id {
                let copy = self.tasks[i].clone();
                kept.push(copy);
                proof {
                    reveal(Seq::filter);
                    assert(kept@.map_values(|t: Task| t@) =~= pre.push(old(self)@[i as int]));
                    assert(kept@.map_values(|t: Task| t@) == remove_model(
                        old(self)@.take(i + 1 as int),
                        task_id,
                    ));
                }
            } else {
                proof {
                    reveal(Seq::filter);
                    assert(kept@.map_values(|t: Task| t@) == remove_model(
                        old(self)@.take(i + 1 as int),
                        task_id,
                    ));
                }
            }
            i = i + 1;
        }
        self.tasks = kept;
        proof {
            assert(old(self)@.take(n as int) =~= old(self)@);
        }
    }

    /// Overwrites the status of the first task carrying `task_id`; duplicates
    /// beyond the first are untouched. Fails with `NotFound` when no task
    /// carries the id, leaving the list unchanged.
    pub fn update_status(&mut self, task_id: u32, new_status: TaskStatus) -> (r: Result<
        (),
        TodoError,
    >)
        ensures
            (r is Ok) == has_id(old(self)@, task_id),
            r is Ok ==> exists|i: int|
                #[trigger] is_first_match(old(self)@, task_id, i) && final(self)@ == old(
                    self,
                )@.update(i, with_status(old(self)@[i], new_status)),
            r is Err ==> final(self)@ == old(self)@ && (r matches Err(e) && e@ == (
            ErrorModel::NotFound { id: task_id })),
    {
        let n = self.tasks.len();
        let mut i: usize = 0;
        while i < n
            invariant
                *self == *old(self),
                n == self.tasks@.len(),
                i <= n,
                forall|j: int| 0 <= j < i ==> old(self)@[j].id != task_id,
            decreases n - i,
        {
            if self.tasks[i].id == task_id {
                proof {
                    assert(old(self)@[i as int] == self.tasks@[i as int]@);
                    assert(is_first_match(old(self)@, task_id, i as int));
                }
                self.tasks[i].status = new_status;
                proof {
                    assert(self@ =~= old(self)@.update(
                        i as int,
                        with_status(old(self)@[i as int], new_status),
                    ));
                }
                return Ok(());
            }
            i = i + 1;
        }
        proof {
            assert(!has_id(old(self)@, task_id));
        }
        Err(TodoError::not_found(task_id))
    }

    /// Overwrites the description of the first task carrying `task_id`, with
    /// the same contract as `update_status`.
    pub fn update_description(&mut self, task_id: u32, new_description: String) -> (r: Result<
        (),
        TodoError,
    >)
        ensures
            (r is Ok) == has_id(old(self)@, task_id),
            r is Ok ==> exists|i: int|
                #[trigger] is_first_match(old(self)@, task_id, i) && final(self)@ == old(
                    self,
                )@.update(i, with_description(old(self)@[i], new_description@)),
            r is Err ==> final(self)@ == old(self)@ && (r matches Err(e) && e@ == (
            ErrorModel::NotFound { id: task_id })),
    {
        let n = self.tasks.len();
        let mut i: usize = 0;
        while i < n
            invariant
                *self == *old(self),
                n == self.tasks@.len(),
                i <= n,
                forall|j: int| 0 <= j < i ==> old(self)@[j].id != task_id,
            decreases n - i,
        {
            if self.tasks[i].id == task_id {
                proof {
                    assert(old(self)@[i as int] == self.tasks@[i as int]@);
                    assert(is_first_match(old(self)@, task_id, i as int));
                }
                self.tasks[i].description = new_description;
                proof {
                    assert(self@ =~= old(self)@.update(
                        i as int,
                        with_description(old(self)@[i as int], new_description@),
                    ));
                }
                return Ok(());
            }
            i = i + 1;
        }
        proof {
            assert(!has_id(old(self)@, task_id));
        }
        Err(TodoError::not_found(task_id))
    }
}

/// Law: a task built by `Task::new` and appended by `add` enters the list at
/// the end with the given id and description and status `NotStarted`, and
/// every task already in the list is untouched.
pub proof fn lemma_added_task_fresh(pre: Seq<TaskModel>, id: u32, description: Seq<char>)
    ensures
        ({
            let post = pre.push(
                TaskModel { id, description, status: TaskStatus::NotStarted },
            );
            &&& post.len() == pre.len() + 1
            &&& post.last().id == id
            &&& post.last().description == description
            &&& post.last().status == TaskStatus::NotStarted
            &&& forall|j: int| 0 <= j < pre.len() ==> post[j] == pre[j]
        }),
{
}

proof fn lemma_remove_model_no_match(ts: Seq<TaskModel>, id: u32)
    requires
        forall|j: int| 0 <= j < ts.len() ==> ts[j].id != id,
    ensures
        remove_model(ts, id) == ts,
    decreases ts.len(),
{
    reveal(Seq::filter);
    if ts.len() == 0 {
        assert(remove_model(ts, id) =~= ts);
    } else {
        lemma_remove_model_no_match(ts.drop_last(), id);
        assert(ts.last().id != id);
        assert(remove_model(ts, id) =~= ts);
    }
}

/// Law: `remove` is idempotent — removing an id a second time finds nothing
/// left to delete and leaves the list exactly as the first removal did.
pub proof fn lemma_remove_idempotent(ts: Seq<TaskModel>, id: u32)
    ensures
        remove_model(remove_model(ts, id), id) == remove_model(ts, id),
{
    let once = remove_model(ts, id);
    assert forall|j: int| 0 <= j < once.len() implies once[j].id != id by {
        ts.lemma_filter_pred(|t: TaskModel| t.id != id, j);
    }
    lemma_remove_model_no_match(once, id);
}

} // verus!
