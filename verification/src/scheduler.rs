//! The scheduler: the map from task identifier to task, and every operation
//! the command surface performs on it — create, start, pause, resume, cancel,
//! remove, list, clear-completed, lookup, and the snapshot round trip.
//!
//! Identifiers are unique across the map ([`sched_wf`]); every operation
//! preserves that, and each contract pins down exactly which task changed and
//! how.

use vstd::prelude::*;
use crate::task::{Task, task_wf, new_task_spec, spec_speed_bps};
use crate::types::{TaskStatus, TaskError, TaskInfo, CreateTaskInput};
use crate::types::new_task_id;
use crate::persist::PersistedTask;
use crate::text::str_eq;

verus! {

/// The predicate `clear_completed_tasks` keeps tasks by.
pub open spec fn keeps_uncompleted() -> spec_fn(Task) -> bool {
    |t: Task| t.status != TaskStatus::Completed
}

/// The engine's collection of tasks.
pub struct Scheduler {
    tasks: Vec<Task>,
}

impl View for Scheduler {
    type V = Seq<Task>;

    closed spec fn view(&self) -> Seq<Task> {
        self.tasks@
    }
}

/// No two tasks share an identifier.
pub open spec fn ids_unique(ts: Seq<Task>) -> bool {
    forall|i: int, j: int| 0 <= i < j < ts.len() ==> ts[i].id@ != ts[j].id@
}

/// Well-formedness of the scheduler: identifiers are unique.
pub open spec fn sched_wf(s: &Scheduler) -> bool {
    ids_unique(s@)
}

/// Some task in the sequence carries this identifier.
pub open spec fn has_task(ts: Seq<Task>, id: Seq<char>) -> bool {
    exists|i: int| 0 <= i < ts.len() && ts[i].id@ == id
}

/// The index of the task carrying this identifier (meaningful when
/// [`has_task`] holds; unique under [`ids_unique`]).
pub open spec fn task_at(ts: Seq<Task>, id: Seq<char>) -> int {
    choose|i: int| 0 <= i < ts.len() && ts[i].id@ == id
}

/// What `list_downloads` and `get_task` report of one task at one moment.
pub open spec fn info_matches(info: TaskInfo, t: Task, now_secs: i64) -> bool {
    &&& info.id@ == t.id@
    &&& info.url@ == t.url@
    &&& info.filename@ == t.filename@
    &&& info.save_path@ == t.save_path@
    &&& info.total_bytes == t.total_bytes
    &&& info.downloaded_bytes == t.downloaded
    &&& info.status == t.status
    &&& info.error_message.deep_view() == t.error_message.deep_view()
    &&& info.speed_bps == spec_speed_bps(&t, now_secs)
    &&& info.created_at == t.created_at
}

/// The normalization a loaded status goes through: a task stored as
/// `Downloading` is not actually running, so it comes back `Paused`.
pub open spec fn normalize_status(s: TaskStatus) -> TaskStatus {
    if s == TaskStatus::Downloading {
        TaskStatus::Paused
    } else {
        s
    }
}

/// The task a snapshot record reconstitutes into on load.
pub open spec fn loaded_task(p: PersistedTask) -> Task {
    Task {
        id: p.id,
        url: p.url,
        save_path: p.save_path,
        filename: p.filename,
        total_bytes: p.total_bytes,
        downloaded: p.downloaded_bytes,
        status: normalize_status(p.status),
        error_message: None,
        pending_segments: p.pending_segments,
        supports_range: p.supports_range,
        created_at: p.created_at,
        last_sample: None,
    }
}

/// The tasks a list of snapshot records loads into: each record in order,
/// normalized, skipping any whose identifier is already taken.
pub open spec fn load_list(rs: Seq<PersistedTask>) -> Seq<Task>
    decreases rs.len(),
{
    if rs.len() == 0 {
        Seq::empty()
    } else {
        let rest = load_list(rs.drop_last());
        if has_task(rest, rs.last().id@) {
            rest
        } else {
            rest.push(loaded_task(rs.last()))
        }
    }
}

/// Loading keeps identifiers unique.
pub proof fn lemma_load_list_unique(rs: Seq<PersistedTask>)
    ensures
        ids_unique(load_list(rs)),
    decreases rs.len(),
{
    if rs.len() > 0 {
        lemma_load_list_unique(rs.drop_last());
        let rest = load_list(rs.drop_last());
        if !has_task(rest, rs.last().id@) {
            let ts = rest.push(loaded_task(rs.last()));
            assert forall|i: int, j: int| 0 <= i < j < ts.len() implies ts[i].id@ != ts[j].id@ by {
                if j == ts.len() - 1 {
                    assert(ts[i] == rest[i]);
                    assert(!(rest[i].id@ == rs.last().id@));
                }
            }
        }
    }
}

impl Scheduler {
    /// An empty scheduler.
    pub fn new() -> (s: Scheduler)
        ensures
            s@ == Seq::<Task>::empty(),
            sched_wf(&s),
    {
        Scheduler { tasks: Vec::new() }
    }

    /// The index of the task with this identifier, if any.
    fn find_index(&self, task_id: &str) -> (r: Option<usize>)
        ensures
            match r {
                Some(i) => 0 <= i < self@.len() && self@[i as int].id@ == task_id@,
                None => !has_task(self@, task_id@),
            },
    {
        let n = self.tasks.len();
        let mut i: usize = 0;
        while i < n
            invariant
                0 <= i <= n,
                n == self@.len(),
                forall|j: int| 0 <= j < i as int ==> self@[j].id@ != task_id@,
            decreases n - i,
        {
            if str_eq(self.tasks.get(i).unwrap().id.as_str(), task_id) {
                return Some(i);
            }
            i = i + 1;
        }
        None
    }

    /// Number of tasks held.
    pub fn len(&self) -> (r: usize)
        ensures
            r == self@.len(),
    {
        self.tasks.len()
    }

    /// Add a task built from this input and probe outcome under the given
    /// identifier; refused when the identifier is already taken.
    pub fn create_task_with_id(
        &mut self,
        input: CreateTaskInput,
        supports_range: bool,
        total_bytes: Option<u64>,
        id: String,
        created_at: i64,
    ) -> (r: Result<(), TaskError>)
        ensures
            has_task(old(self)@, id@) ==> r == Err::<(), TaskError>(TaskError::DuplicateId)
                && *final(self) == *old(self),
            !has_task(old(self)@, id@) ==> {
                &&& r == Ok::<(), TaskError>(())
                &&& final(self)@.len() == old(self)@.len() + 1
                &&& final(self)@ == old(self)@.push(final(self)@.last())
                &&& new_task_spec(
                    final(self)@.last(),
                    input,
                    supports_range,
                    total_bytes,
                    id@,
                    created_at,
                )
                &&& task_wf(&final(self)@.last())
            },
            sched_wf(old(self)) ==> sched_wf(final(self)),
    {
        match self.find_index(id.as_str()) {
            Some(_) => Err(TaskError::DuplicateId),
            None => {
                let t = Task::new(input, supports_range, total_bytes, id, created_at);
                self.tasks.push(t);
                proof {
                    let ts = final(self)@;
                    if sched_wf(old(self)) {
                        assert forall|i: int, j: int|
                            0 <= i < j < ts.len() implies ts[i].id@ != ts[j].id@ by {
                            if j == ts.len() - 1 {
                                assert(ts[i] == old(self)@[i]);
                            }
                        }
                    }
                }
                Ok(())
            },
        }
    }

    /// Create a task under a freshly drawn identifier and hand it back;
    /// refused only if the drawn identifier collides with an existing one.
    pub fn create_task(
        &mut self,
        input: CreateTaskInput,
        supports_range: bool,
        total_bytes: Option<u64>,
        created_at: i64,
    ) -> (r: Result<String, TaskError>)
        ensures
            match r {
                Ok(id) => {
                    &&& !has_task(old(self)@, id@)
                    &&& final(self)@.len() == old(self)@.len() + 1
                    &&& final(self)@ == old(self)@.push(final(self)@.last())
                    &&& new_task_spec(
                        final(self)@.last(),
                        input,
                        supports_range,
                        total_bytes,
                        id@,
                        created_at,
                    )
                    &&& task_wf(&final(self)@.last())
                },
                Err(e) => e == TaskError::DuplicateId && *final(self) == *old(self),
            },
            sched_wf(old(self)) ==> sched_wf(final(self)),
    {
        let id = new_task_id();
        let id_copy = id.clone();
        match self.create_task_with_id(input, supports_range, total_bytes, id, created_at) {
            Ok(()) => Ok(id_copy),
            Err(e) => Err(e),
        }
    }

    /// Move a task into `Downloading` so its workers can be spawned; `resume`
    /// is the same operation. Refused when the identifier is unknown or the
    /// task is not in `Pending` or `Paused` — in particular, starting a task
    /// already `Downloading` is an error and changes nothing.
    pub fn start_download(&mut self, task_id: &str) -> (r: Result<(), TaskError>)
        requires
            sched_wf(old(self)),
        ensures
            start_spec(old(self), final(self), task_id@, r),
            sched_wf(final(self)),
    {
        match self.find_index(task_id) {
            None => Err(TaskError::NotFound),
            Some(i) => {
                proof {
                    lemma_unique_at(old(self)@, task_id@, i as int);
                }
                let ghost told = self.tasks@[i as int];
                let t = &mut self.tasks[i];
                let r = t.begin();
                proof {
                    if told.status == TaskStatus::Pending || told.status == TaskStatus::Paused {
                        assert(final(self)@ =~= old(self)@.update(
                            i as int,
                            Task { status: TaskStatus::Downloading, ..told },
                        ));
                    } else {
                        assert(final(self)@ =~= old(self)@);
                    }
                    assert(forall|k: int|
                        0 <= k < final(self)@.len() ==> (#[trigger] final(self)@[k]).id@ == old(
                            self,
                        )@[k].id@);
                }
                r
            },
        }
    }

    /// `resume` is an alias for `start`: same checks, same transition.
    pub fn resume_task(&mut self, task_id: &str) -> (r: Result<(), TaskError>)
        requires
            sched_wf(old(self)),
        ensures
            start_spec(old(self), final(self), task_id@, r),
            sched_wf(final(self)),
    {
        self.start_download(task_id)
    }

    /// Ask a task to pause. Pausing a task that is not `Downloading` (already
    /// paused, say) changes nothing and still succeeds.
    pub fn pause_task(&mut self, task_id: &str) -> (r: Result<(), TaskError>)
        requires
            sched_wf(old(self)),
        ensures
            !has_task(old(self)@, task_id@) ==> r == Err::<(), TaskError>(TaskError::NotFound)
                && *final(self) == *old(self),
            has_task(old(self)@, task_id@) ==> {
                let i = task_at(old(self)@, task_id@);
                let t = old(self)@[i];
                &&& r == Ok::<(), TaskError>(())
                &&& t.status == TaskStatus::Downloading ==> final(self)@ == old(self)@.update(
                    i,
                    Task { status: TaskStatus::Paused, ..t },
                )
                &&& t.status != TaskStatus::Downloading ==> final(self)@ == old(self)@
            },
            sched_wf(final(self)),
    {
        match self.find_index(task_id) {
            None => Err(TaskError::NotFound),
            Some(i) => {
                proof {
                    lemma_unique_at(old(self)@, task_id@, i as int);
                }
                let t = &mut self.tasks[i];
                let ghost told = *t;
                t.pause();
                proof {
                    if told.status == TaskStatus::Downloading {
                        assert(final(self)@ =~= old(self)@.update(
                            i as int,
                            Task { status: TaskStatus::Paused, ..told },
                        ));
                    } else {
                        assert(final(self)@ =~= old(self)@);
                    }
                    if sched_wf(old(self)) {
                        assert(forall|k: int|
                            0 <= k < final(self)@.len() ==> (#[trigger] final(self)@[k]).id@
                                == old(self)@[k].id@);
                    }
                }
                Ok(())
            },
        }
    }

    /// Mark a task `Cancelled`; its workers observe this and wind down.
    pub fn cancel_task(&mut self, task_id: &str) -> (r: Result<(), TaskError>)
        requires
            sched_wf(old(self)),
        ensures
            !has_task(old(self)@, task_id@) ==> r == Err::<(), TaskError>(TaskError::NotFound)
                && *final(self) == *old(self),
            has_task(old(self)@, task_id@) ==> {
                let i = task_at(old(self)@, task_id@);
                &&& r == Ok::<(), TaskError>(())
                &&& final(self)@ == old(self)@.update(
                    i,
                    Task { status: TaskStatus::Cancelled, ..old(self)@[i] },
                )
            },
            sched_wf(final(self)),
    {
        match self.find_index(task_id) {
            None => Err(TaskError::NotFound),
            Some(i) => {
                proof {
                    lemma_unique_at(old(self)@, task_id@, i as int);
                }
                let t = &mut self.tasks[i];
                let ghost told = *t;
                t.cancel();
                proof {
                    assert(final(self)@ =~= old(self)@.update(
                        i as int,
                        Task { status: TaskStatus::Cancelled, ..told },
                    ));
                    if sched_wf(old(self)) {
                        assert(forall|k: int|
                            0 <= k < final(self)@.len() ==> (#[trigger] final(self)@[k]).id@
                                == old(self)@[k].id@);
                    }
                }
                Ok(())
            },
        }
    }

    /// Cancel a task and take it out of the map.
    pub fn remove_task(&mut self, task_id: &str) -> (r: Result<(), TaskError>)
        requires
            sched_wf(old(self)),
        ensures
            !has_task(old(self)@, task_id@) ==> r == Err::<(), TaskError>(TaskError::NotFound)
                && *final(self) == *old(self),
            has_task(old(self)@, task_id@) ==> {
                let i = task_at(old(self)@, task_id@);
                &&& r == Ok::<(), TaskError>(())
                &&& final(self)@ == old(self)@.remove(i)
            },
            sched_wf(final(self)),
    {
        match self.find_index(task_id) {
            None => Err(TaskError::NotFound),
            Some(i) => {
                proof {
                    lemma_unique_at(old(self)@, task_id@, i as int);
                }
                self.tasks.remove(i);
                proof {
                    assert(final(self)@ =~= old(self)@.remove(i as int));
                    if sched_wf(old(self)) {
                        let post = final(self)@;
                        let ts = old(self)@;
                        let ii = i as int;
                        assert forall|a: int, b: int|
                            0 <= a < b < post.len() implies post[a].id@ != post[b].id@ by {
                            let oa = if a < ii {
                                a
                            } else {
                                a + 1
                            };
                            let ob = if b < ii {
                                b
                            } else {
                                b + 1
                            };
                            assert(post[a] == ts[oa]);
                            assert(post[b] == ts[ob]);
                        }
                    }
                }
                Ok(())
            },
        }
    }

    /// Remove every task in `Completed`; says how many left.
    pub fn clear_completed_tasks(&mut self) -> (removed: usize)
        requires
            sched_wf(old(self)),
        ensures
            final(self)@ == old(self)@.filter(keeps_uncompleted()),
            removed == old(self)@.len() - final(self)@.len(),
            sched_wf(final(self)),
    {
        let ghost pred = keeps_uncompleted();
        let n = self.tasks.len();
        let ghost orig = self.tasks@;
        let mut i: usize = n;
        proof {
            assert(orig.take(n as int) =~= orig);
            assert(orig.skip(n as int) =~= Seq::<Task>::empty());
            lemma_filter_empty(pred);
            assert(self.tasks@ =~= orig.take(n as int) + orig.skip(n as int).filter(pred));
        }
        while i > 0
            invariant
                pred == keeps_uncompleted(),
                0 <= i <= n,
                n == orig.len(),
                self.tasks@ =~= orig.take(i as int) + orig.skip(i as int).filter(pred),
            decreases i,
        {
            i = i - 1;
            let ghost gi = i as int;
            let ghost pre = self.tasks@;
            proof {
                assert(orig.skip(gi) =~= seq![orig[gi]] + orig.skip(gi + 1));
                Seq::filter_distributes_over_add(seq![orig[gi]], orig.skip(gi + 1), pred);
                lemma_filter_singleton(orig[gi], pred);
                assert(orig.skip(gi).filter(pred) == seq![orig[gi]].filter(pred) + orig.skip(
                    gi + 1,
                ).filter(pred));
                assert(pre[gi] == orig.take(gi + 1)[gi]);
                assert(pre[gi] == orig[gi]);
            }
            let st = self.tasks.get(i).unwrap().status;
            proof {
                assert(st == pre[gi].status);
                assert(st == orig[gi].status);
                assert(pred(orig[gi]) == (orig[gi].status != TaskStatus::Completed));
            }
            let completed = matches!(st, TaskStatus::Completed);
            if completed {
                self.tasks.remove(i);
                proof {
                    assert(!pred(orig[gi]));
                    assert(orig.skip(gi).filter(pred) =~= orig.skip(gi + 1).filter(pred));
                    assert(self.tasks@ =~= pre.remove(gi));
                    assert(self.tasks@ =~= orig.take(gi) + orig.skip(gi).filter(pred));
                }
            } else {
                proof {
                    assert(pred(orig[gi]));
                    assert(orig.skip(gi).filter(pred) =~= seq![orig[gi]] + orig.skip(
                        gi + 1,
                    ).filter(pred));
                    assert(orig.take(gi + 1) =~= orig.take(gi).push(orig[gi]));
                    assert(self.tasks@ =~= orig.take(gi) + orig.skip(gi).filter(pred));
                }
            }
        }
        proof {
            assert(orig.skip(0) =~= orig);
            assert(orig.take(0) =~= Seq::<Task>::empty());
            assert(self.tasks@ =~= orig.filter(pred));
            lemma_filter_unique(orig, pred);
            orig.lemma_filter_len(pred);
        }
        n - self.tasks.len()
    }

    /// The display record of the task with this identifier, if it exists,
    /// with speed judged against the given time.
    pub fn get_task(&self, task_id: &str, now_secs: i64) -> (r: Option<TaskInfo>)
        requires
            sched_wf(self),
        ensures
            !has_task(self@, task_id@) ==> r is None,
            has_task(self@, task_id@) ==> r is Some && info_matches(
                r->0,
                self@[task_at(self@, task_id@)],
                now_secs,
            ),
    {
        match self.find_index(task_id) {
            None => None,
            Some(i) => {
                proof {
                    lemma_unique_at(self@, task_id@, i as int);
                }
                Some(task_to_info(self.tasks.get(i).unwrap(), now_secs))
            },
        }
    }

    /// Display records of every task, in map order.
    pub fn list_downloads(&self, now_secs: i64) -> (r: Vec<TaskInfo>)
        ensures
            r@.len() == self@.len(),
            forall|i: int| 0 <= i < r@.len() ==> info_matches(#[trigger] r@[i], self@[i], now_secs),
    {
        let n = self.tasks.len();
        let mut out: Vec<TaskInfo> = Vec::new();
        let mut i: usize = 0;
        while i < n
            invariant
                0 <= i <= n,
                n == self@.len(),
                out@.len() == i,
                forall|j: int|
                    0 <= j < i as int ==> info_matches(#[trigger] out@[j], self@[j], now_secs),
            decreases n - i,
        {
            out.push(task_to_info(self.tasks.get(i).unwrap(), now_secs));
            i = i + 1;
        }
        out
    }

    /// Whether any task currently stands in `Downloading` (drives the
    /// periodic snapshot).
    pub fn any_downloading(&self) -> (r: bool)
        ensures
            r == exists|i: int|
                0 <= i < self@.len() && (#[trigger] self@[i]).status == TaskStatus::Downloading,
    {
        let n = self.tasks.len();
        let mut i: usize = 0;
        while i < n
            invariant
                0 <= i <= n,
                n == self@.len(),
                forall|j: int|
                    0 <= j < i as int ==> (#[trigger] self@[j]).status != TaskStatus::Downloading,
            decreases n - i,
        {
            if matches!(self.tasks.get(i).unwrap().status, TaskStatus::Downloading) {
                return true;
            }
            i = i + 1;
        }
        false
    }

    /// Point the task at a fresh URL (after a re-probe of the address).
    pub fn refresh_task_url(&mut self, task_id: &str, new_url: String) -> (r: Result<
        (),
        TaskError,
    >)
        requires
            sched_wf(old(self)),
        ensures
            !has_task(old(self)@, task_id@) ==> r == Err::<(), TaskError>(TaskError::NotFound)
                && *final(self) == *old(self),
            has_task(old(self)@, task_id@) ==> {
                let i = task_at(old(self)@, task_id@);
                &&& r == Ok::<(), TaskError>(())
                &&& final(self)@ == old(self)@.update(i, Task { url: new_url, ..old(self)@[i] })
            },
            sched_wf(final(self)),
    {
        match self.find_index(task_id) {
            None => Err(TaskError::NotFound),
            Some(i) => {
                proof {
                    lemma_unique_at(old(self)@, task_id@, i as int);
                }
                let ghost told = self.tasks@[i as int];
                let t = &mut self.tasks[i];
                t.url = new_url;
                proof {
                    assert(final(self)@ =~= old(self)@.update(
                        i as int,
                        Task { url: new_url, ..told },
                    ));
                    if sched_wf(old(self)) {
                        assert(forall|k: int|
                            0 <= k < final(self)@.len() ==> (#[trigger] final(self)@[k]).id@
                                == old(self)@[k].id@);
                    }
                }
                Ok(())
            },
        }
    }

    /// Change where the task's file is written.
    pub fn update_task_save_path(&mut self, task_id: &str, new_save_path: String) -> (r: Result<
        (),
        TaskError,
    >)
        requires
            sched_wf(old(self)),
        ensures
            !has_task(old(self)@, task_id@) ==> r == Err::<(), TaskError>(TaskError::NotFound)
                && *final(self) == *old(self),
            has_task(old(self)@, task_id@) ==> {
                let i = task_at(old(self)@, task_id@);
                &&& r == Ok::<(), TaskError>(())
                &&& final(self)@ == old(self)@.update(
                    i,
                    Task { save_path: new_save_path, ..old(self)@[i] },
                )
            },
            sched_wf(final(self)),
    {
        match self.find_index(task_id) {
            None => Err(TaskError::NotFound),
            Some(i) => {
                proof {
                    lemma_unique_at(old(self)@, task_id@, i as int);
                }
                let ghost told = self.tasks@[i as int];
                let t = &mut self.tasks[i];
                t.save_path = new_save_path;
                proof {
                    assert(final(self)@ =~= old(self)@.update(
                        i as int,
                        Task { save_path: new_save_path, ..told },
                    ));
                    if sched_wf(old(self)) {
                        assert(forall|k: int|
                            0 <= k < final(self)@.len() ==> (#[trigger] final(self)@[k]).id@
                                == old(self)@[k].id@);
                    }
                }
                Ok(())
            },
        }
    }

    /// Borrow the task at an index (for the run loop around one task).
    pub fn task_at_index(&self, i: usize) -> (r: &Task)
        requires
            i < self@.len(),
        ensures
            *r == self@[i as int],
    {
        self.tasks.get(i).unwrap()
    }

    /// Mutably borrow the task at an index (for the run loop around one
    /// task); the caller's changes to it are the only change to the map.
    pub fn task_at_index_mut(&mut self, i: usize) -> (r: &mut Task)
        requires
            i < old(self)@.len(),
        ensures
            *r == old(self)@[i as int],
            final(self)@ == old(self)@.update(i as int, *final(r)),
    {
        &mut self.tasks[i]
    }

    /// Snapshot records of every task, in map order.
    pub fn to_persisted(&self) -> (r: Vec<PersistedTask>)
        ensures
            r@.len() == self@.len(),
            forall|i: int|
                0 <= i < r@.len() ==> persisted_matches(#[trigger] r@[i], self@[i]),
    {
        let n = self.tasks.len();
        let mut out: Vec<PersistedTask> = Vec::new();
        let mut i: usize = 0;
        while i < n
            invariant
                0 <= i <= n,
                n == self@.len(),
                out@.len() == i,
                forall|j: int|
                    0 <= j < i as int ==> persisted_matches(#[trigger] out@[j], self@[j]),
            decreases n - i,
        {
            out.push(PersistedTask::from_task(self.tasks.get(i).unwrap()));
            i = i + 1;
        }
        out
    }

    /// Rebuild a scheduler from snapshot records: each in order, normalized
    /// (`Downloading` comes back `Paused`), skipping records whose identifier
    /// was already taken.
    pub fn from_persisted_list(records: Vec<PersistedTask>) -> (s: Scheduler)
        ensures
            s@ == load_list(records@),
            sched_wf(&s),
    {
        let ghost all = records@;
        let mut records = records;
        let mut tasks: Vec<Task> = Vec::new();
        let ghost done: int = 0;
        let mut out = Scheduler { tasks };
        proof {
            assert(all.take(0) =~= Seq::<PersistedTask>::empty());
        }
        while records.len() > 0
            invariant
                0 <= done <= all.len(),
                records@ =~= all.skip(done),
                out@ == load_list(all.take(done)),
            decreases records@.len(),
        {
            let p = records.remove(0);
            proof {
                assert(p == all[done]);
                assert(records@ =~= all.skip(done + 1));
                assert(all.take(done + 1).drop_last() =~= all.take(done));
                assert(all.take(done + 1).last() == all[done]);
            }
            let already = out.find_index(p.id.as_str()).is_some();
            if !already {
                let mut t = Task::from_persisted(p);
                if matches!(t.status, TaskStatus::Downloading) {
                    t.status = TaskStatus::Paused;
                }
                out.tasks.push(t);
            }
            proof {
                done = done + 1;
            }
        }
        proof {
            assert(all.take(all.len() as int) =~= all);
            lemma_load_list_unique(all);
        }
        out
    }
}

/// What `start_download` (and `resume_task`) does: unknown identifiers are
/// `NotFound`; a task in `Pending` or `Paused` turns `Downloading`; any other
/// status is an `InvalidState` error and the map does not change.
pub open spec fn start_spec(
    pre: &Scheduler,
    post: &Scheduler,
    id: Seq<char>,
    r: Result<(), TaskError>,
) -> bool {
    &&& !has_task(pre@, id) ==> r == Err::<(), TaskError>(TaskError::NotFound) && post@ == pre@
    &&& has_task(pre@, id) ==> {
        let i = task_at(pre@, id);
        let t = pre@[i];
        &&& (t.status == TaskStatus::Pending || t.status == TaskStatus::Paused) ==> {
            &&& r == Ok::<(), TaskError>(())
            &&& post@ == pre@.update(i, Task { status: TaskStatus::Downloading, ..t })
        }
        &&& !(t.status == TaskStatus::Pending || t.status == TaskStatus::Paused) ==> {
            &&& r == Err::<(), TaskError>(TaskError::InvalidState)
            &&& post@ == pre@
        }
    }
}

/// Snapshot record equality with a task, field by field.
pub open spec fn persisted_matches(p: PersistedTask, t: Task) -> bool {
    &&& p.id@ == t.id@
    &&& p.url@ == t.url@
    &&& p.save_path@ == t.save_path@
    &&& p.filename@ == t.filename@
    &&& p.total_bytes == t.total_bytes
    &&& p.downloaded_bytes == t.downloaded
    &&& p.status == t.status
    &&& p.pending_segments@ == t.pending_segments@
    &&& p.supports_range == t.supports_range
    &&& p.created_at == t.created_at
}

/// Under unique identifiers, any index holding the identifier is the one
/// `task_at` names.
pub proof fn lemma_unique_at(ts: Seq<Task>, id: Seq<char>, i: int)
    requires
        ids_unique(ts),
        0 <= i < ts.len(),
        ts[i].id@ == id,
    ensures
        has_task(ts, id),
        task_at(ts, id) == i,
{
    assert(has_task(ts, id));
    let j = task_at(ts, id);
    if i < j {
        assert(ts[i].id@ != ts[j].id@);
    } else if j < i {
        assert(ts[j].id@ != ts[i].id@);
    }
}

/// Filtering the empty sequence yields the empty sequence.
proof fn lemma_filter_empty(pred: spec_fn(Task) -> bool)
    ensures
        Seq::<Task>::empty().filter(pred) =~= Seq::<Task>::empty(),
{
    reveal(Seq::filter);
}

/// What filtering a one-element sequence yields.
proof fn lemma_filter_singleton(t: Task, pred: spec_fn(Task) -> bool)
    ensures
        pred(t) ==> seq![t].filter(pred) =~= seq![t],
        !pred(t) ==> seq![t].filter(pred) =~= Seq::<Task>::empty(),
{
    reveal(Seq::filter);
    lemma_filter_empty(pred);
    assert(seq![t].drop_last() =~= Seq::<Task>::empty());
    assert(seq![t].last() == t);
}

/// Every element a filter keeps comes from the original sequence.
proof fn lemma_filter_subset(s: Seq<Task>, pred: spec_fn(Task) -> bool)
    ensures
        forall|i: int| 0 <= i < s.filter(pred).len() ==> s.contains(#[trigger] s.filter(pred)[i]),
    decreases s.len(),
{
    reveal(Seq::filter);
    if s.len() > 0 {
        lemma_filter_subset(s.drop_last(), pred);
        let f = s.filter(pred);
        let fd = s.drop_last().filter(pred);
        assert forall|i: int| 0 <= i < f.len() implies s.contains(f[i]) by {
            if pred(s.last()) && i == f.len() - 1 {
                assert(f[i] == s.last());
                assert(s[s.len() - 1] == s.last());
            } else {
                assert(f[i] == fd[i]);
                assert(s.drop_last().contains(fd[i]));
                let k = choose|k: int| 0 <= k < s.drop_last().len() && s.drop_last()[k] == fd[i];
                assert(s[k] == fd[i]);
            }
        }
    }
}

/// Filtering a sequence with unique identifiers keeps them unique.
proof fn lemma_filter_unique(ts: Seq<Task>, pred: spec_fn(Task) -> bool)
    requires
        ids_unique(ts),
    ensures
        ids_unique(ts.filter(pred)),
    decreases ts.len(),
{
    reveal(Seq::filter);
    if ts.len() > 0 {
        assert forall|i: int, j: int|
            0 <= i < j < ts.drop_last().len() implies ts.drop_last()[i].id@
            != ts.drop_last()[j].id@ by {
            assert(ts.drop_last()[i] == ts[i]);
            assert(ts.drop_last()[j] == ts[j]);
        }
        lemma_filter_unique(ts.drop_last(), pred);
        if pred(ts.last()) {
            lemma_filter_subset(ts.drop_last(), pred);
            let rest = ts.drop_last().filter(pred);
            let f = ts.filter(pred);
            assert forall|a: int, b: int| 0 <= a < b < f.len() implies f[a].id@ != f[b].id@ by {
                if b == f.len() - 1 {
                    assert(f[a] == rest[a]);
                    assert(ts.drop_last().contains(rest[a]));
                    let k = choose|k: int|
                        0 <= k < ts.drop_last().len() && ts.drop_last()[k] == rest[a];
                    assert(ts[k] == rest[a]);
                    assert(ts[k].id@ != ts[ts.len() - 1].id@);
                } else {
                    assert(f[a] == rest[a]);
                    assert(f[b] == rest[b]);
                }
            }
        }
    }
}

/// Display record of one task at one moment.
fn task_to_info(t: &Task, now_secs: i64) -> (info: TaskInfo)
    ensures
        info_matches(info, *t, now_secs),
{
    TaskInfo {
        id: t.id.clone(),
        url: t.url.clone(),
        filename: t.filename.clone(),
        save_path: t.save_path.clone(),
        total_bytes: t.total_bytes,
        downloaded_bytes: t.downloaded,
        status: t.status,
        error_message: match &t.error_message {
            Some(m) => Some(m.clone()),
            None => None,
        },
        speed_bps: t.speed_bps(now_secs),
        created_at: t.created_at,
    }
}

} // verus!
