//! The log of tasks.

use crate::clock::{millis_between, parse_db_time, rounded_millis, stored_moment};
use crate::seqs::{changed_where, first_item, lemma_first_where_is};
use crate::state::cycles::LAST_ID;
use crate::state::types::{State, StateError, StateModel, TaskLogEntry, TaskLogEntryModel};
use crate::text::{opt_view, same, views};
use vstd::prelude::*;

verus! {

/// How many of the newest tasks are kept after they have ended.
pub const TASK_LOG_KEEP: usize = 100;

/// A task that has just begun.
pub open spec fn begun_task(
    id: int,
    kind: Seq<char>,
    source_id: Seq<char>,
    destination_id: Seq<char>,
    now: Seq<char>,
) -> TaskLogEntryModel {
    TaskLogEntryModel {
        id: id as i64,
        kind,
        source_id,
        destination_id,
        started_at: now,
        ended_at: None,
        duration_ms: None,
        status: "running"@,
        error: ""@,
        files_synced: 0,
        differences: 0,
        entries_scanned: 0,
    }
}

/// The tasks among the first that stay in the log: those that have not ended, and the newest.
pub open spec fn kept_tasks(ts: Seq<TaskLogEntryModel>, n: int) -> Seq<TaskLogEntryModel>
    decreases n,
{
    if n <= 0 {
        Seq::empty()
    } else if ts[n - 1].ended_at is None || n - 1 >= ts.len() - TASK_LOG_KEEP {
        kept_tasks(ts, n - 1).push(ts[n - 1])
    } else {
        kept_tasks(ts, n - 1)
    }
}

/// The log after a task has begun.
pub open spec fn tasks_begun(ts: Seq<TaskLogEntryModel>, t: TaskLogEntryModel) -> Seq<
    TaskLogEntryModel,
> {
    kept_tasks(ts.push(t), (ts.len() + 1) as int)
}

/// The milliseconds between two texts, where both give a moment.
pub open spec fn duration(from: Seq<char>, to: Seq<char>) -> Option<i64> {
    match (stored_moment(from), stored_moment(to)) {
        (Some(a), Some(b)) => {
            let ms = rounded_millis(b) - rounded_millis(a);
            if i64::MIN <= ms <= i64::MAX {
                Some(ms as i64)
            } else {
                None
            }
        },
        _ => None,
    }
}

/// The test for a task with an identifier.
pub open spec fn task_with_id(id: i64) -> spec_fn(TaskLogEntryModel) -> bool {
    |t: TaskLogEntryModel| t.id == id
}

/// The test for tasks with another identifier.
pub open spec fn task_without_id(id: i64) -> spec_fn(TaskLogEntryModel) -> bool {
    |t: TaskLogEntryModel| t.id != id
}

/// The test for tasks that are under way.
pub open spec fn running() -> spec_fn(TaskLogEntryModel) -> bool {
    |t: TaskLogEntryModel| t.status == "running"@
}

/// Ending a task.
pub open spec fn ending(
    status: Seq<char>,
    error: Seq<char>,
    files_synced: u64,
    differences: u64,
    entries_scanned: u64,
    now: Seq<char>,
) -> spec_fn(TaskLogEntryModel) -> TaskLogEntryModel {
    |t: TaskLogEntryModel|
        TaskLogEntryModel {
            ended_at: Some(now),
            duration_ms: duration(t.started_at, now),
            status,
            error,
            files_synced,
            differences,
            entries_scanned,
            ..t
        }
}

/// Giving up a task that a restart has orphaned.
pub open spec fn aborting(now: Seq<char>) -> spec_fn(TaskLogEntryModel) -> TaskLogEntryModel {
    |t: TaskLogEntryModel|
        TaskLogEntryModel {
            ended_at: Some(now),
            duration_ms: duration(t.started_at, now),
            status: "aborted"@,
            error: "daemon restarted while the task was running"@,
            ..t
        }
}

/// The newest tasks, newest first.
pub open spec fn newest_tasks(ts: Seq<TaskLogEntryModel>, limit: int) -> Seq<TaskLogEntryModel> {
    let n = if limit < ts.len() {
        limit
    } else {
        ts.len() as int
    };
    Seq::new(n as nat, |i: int| ts[ts.len() - 1 - i])
}

/// The milliseconds between two texts, where both give a moment.
fn text_duration(from: &str, to: &str) -> (r: Option<i64>)
    ensures
        r == duration(from@, to@),
{
    match (parse_db_time(from), parse_db_time(to)) {
        (Some(a), Some(b)) => {
            let ms: i128 = millis_between(a, b);
            if i64::MIN as i128 <= ms && ms <= i64::MAX as i128 {
                Some(ms as i64)
            } else {
                None
            }
        },
        _ => None,
    }
}

impl State {
    /// Opens a task. Tasks that have ended and are not among the newest are dropped; one that is
    /// under way never is.
    pub fn task_start(&mut self, kind: &str, source_id: &str, destination_id: &str, now: &str) -> (r:
        Result<i64, StateError>)
        ensures
            r is Ok == (old(self)@.next_task < LAST_ID),
            r is Err ==> *final(self) == *old(self),
            r is Ok ==> r->Ok_0 == old(self)@.next_task,
            r is Ok ==> final(self)@ == (StateModel {
                tasks: tasks_begun(
                    old(self)@.tasks,
                    begun_task(
                        old(self)@.next_task,
                        kind@,
                        source_id@,
                        destination_id@,
                        now@,
                    ),
                ),
                next_task: old(self)@.next_task + 1,
                ..old(self)@
            }),
    {
        if self.next_task >= LAST_ID {
            return Err(StateError::Full);
        }
        let id: i64 = self.next_task;
        let ghost was = self@.tasks;
        let task = TaskLogEntry {
            id,
            kind: kind.to_string(),
            source_id: source_id.to_string(),
            destination_id: destination_id.to_string(),
            started_at: now.to_string(),
            ended_at: None,
            duration_ms: None,
            status: "running".to_string(),
            error: "".to_string(),
            files_synced: 0,
            differences: 0,
            entries_scanned: 0,
        };
        let ghost tv = task@;
        self.next_task = id + 1;
        self.tasks.push(task);
        let ghost all = self@.tasks;
        proof {
            assert(all =~= was.push(tv));
        }
        let n: usize = self.tasks.len();
        let mut kept: Vec<TaskLogEntry> = Vec::new();
        proof {
            assert(views(kept@) =~= kept_tasks(all, 0));
        }
        for i in 0..n
            invariant
                n == self.tasks.len(),
                all == views(self.tasks@),
                self@ == (StateModel { tasks: all, next_task: id + 1, ..old(self)@ }),
                views(kept@) == kept_tasks(all, i as int),
        {
            let ghost before = views(kept@);
            proof {
                assert(all[i as int] == self.tasks@[i as int]@);
            }
            if self.tasks[i].ended_at.is_none() || n - i <= TASK_LOG_KEEP {
                kept.push(self.tasks[i].clone());
                proof {
                    assert(views(kept@) =~= before.push(all[i as int]));
                }
            }
        }
        self.tasks = kept;
        Ok(id)
    }

    /// Closes a task with its outcome; a task that does not exist is left out.
    pub fn task_finish(
        &mut self,
        task_id: i64,
        status: &str,
        error: &str,
        files_synced: u64,
        differences: u64,
        entries_scanned: u64,
        now: &str,
    )
        ensures
            final(self)@ == (StateModel {
                tasks: changed_where(
                    old(self)@.tasks,
                    task_with_id(task_id),
                    ending(
                        status@,
                        error@,
                        files_synced,
                        differences,
                        entries_scanned,
                        now@,
                    ),
                ),
                ..old(self)@
            }),
    {
        let ghost ts = self@.tasks;
        let ghost f = ending(
            status@,
            error@,
            files_synced,
            differences,
            entries_scanned,
            now@,
        );
        let n: usize = self.tasks.len();
        for i in 0..n
            invariant
                n == self.tasks.len(),
                ts == old(self)@.tasks,
                ts.len() == n,
                f == ending(
                    status@,
                    error@,
                    files_synced,
                    differences,
                    entries_scanned,
                    now@,
                ),
                self@ == (StateModel { tasks: self@.tasks, ..old(self)@ }),
                forall|j: int|
                    0 <= j < i ==> (#[trigger] self.tasks@[j])@ == (if ts[j].id == task_id {
                        f(ts[j])
                    } else {
                        ts[j]
                    }),
                forall|j: int| i <= j < n ==> (#[trigger] self.tasks@[j])@ == ts[j],
        {
            if self.tasks[i].id == task_id {
                let mut t = self.tasks[i].clone();
                t.ended_at = Some(now.to_string());
                t.duration_ms = text_duration(t.started_at.as_str(), now);
                t.status = status.to_string();
                t.error = error.to_string();
                t.files_synced = files_synced;
                t.differences = differences;
                t.entries_scanned = entries_scanned;
                proof {
                    assert(t@ == f(ts[i as int]));
                }
                self.tasks.set(i, t);
            }
        }
        proof {
            assert(self@.tasks =~= changed_where(ts, task_with_id(task_id), f));
        }
    }

    /// Drops a task that turned out to do nothing.
    pub fn task_discard(&mut self, task_id: i64)
        ensures
            final(self)@ == (StateModel {
                tasks: old(self)@.tasks.filter(task_without_id(task_id)),
                ..old(self)@
            }),
    {
        let ghost all = self@.tasks;
        let ghost keep = task_without_id(task_id);
        let n: usize = self.tasks.len();
        let mut kept: Vec<TaskLogEntry> = Vec::new();
        proof {
            assert(views(kept@) =~= all.take(0).filter(keep));
        }
        for i in 0..n
            invariant
                n == self.tasks.len(),
                *self == *old(self),
                all == views(self.tasks@),
                keep == task_without_id(task_id),
                views(kept@) == all.take(i as int).filter(keep),
        {
            let t = &self.tasks[i];
            let ghost was = views(kept@);
            proof {
                assert(all[i as int] == t@);
                assert(all.take(i + 1) =~= all.take(i as int).push(t@));
                all.take(i as int).lemma_filter_push(t@, keep);
            }
            if t.id != task_id {
                kept.push(t.clone());
                proof {
                    assert(views(kept@) =~= was.push(t@));
                }
            }
        }
        proof {
            assert(all.take(all.len() as int) =~= all);
        }
        self.tasks = kept;
    }

    /// Gives up the tasks that a restart has orphaned; gives their number.
    pub fn abort_stale_running_tasks(&mut self, now: &str) -> (r: usize)
        ensures
            r == old(self)@.tasks.filter(running()).len(),
            final(self)@ == (StateModel {
                tasks: changed_where(old(self)@.tasks, running(), aborting(now@)),
                ..old(self)@
            }),
    {
        let ghost ts = self@.tasks;
        let ghost f = aborting(now@);
        let n: usize = self.tasks.len();
        let mut count: usize = 0;
        proof {
            assert(ts.take(0).filter(running()) =~= Seq::empty());
        }
        for i in 0..n
            invariant
                n == self.tasks.len(),
                ts == old(self)@.tasks,
                ts.len() == n,
                f == aborting(now@),
                count <= i,
                count == ts.take(i as int).filter(running()).len(),
                self@ == (StateModel { tasks: self@.tasks, ..old(self)@ }),
                forall|j: int|
                    0 <= j < i ==> (#[trigger] self.tasks@[j])@ == (if running()(ts[j]) {
                        f(ts[j])
                    } else {
                        ts[j]
                    }),
                forall|j: int| i <= j < n ==> (#[trigger] self.tasks@[j])@ == ts[j],
        {
            proof {
                assert(ts.take(i + 1) =~= ts.take(i as int).push(ts[i as int]));
                ts.take(i as int).lemma_filter_push(ts[i as int], running());
            }
            if same(self.tasks[i].status.as_str(), "running") {
                let mut t = self.tasks[i].clone();
                t.ended_at = Some(now.to_string());
                t.duration_ms = text_duration(t.started_at.as_str(), now);
                t.status = "aborted".to_string();
                t.error = "daemon restarted while the task was running".to_string();
                proof {
                    assert(t@ == f(ts[i as int]));
                }
                self.tasks.set(i, t);
                count = count + 1;
            }
        }
        proof {
            assert(ts.take(ts.len() as int) =~= ts);
            assert(self@.tasks =~= changed_where(ts, running(), f));
        }
        count
    }

    /// The task with an identifier.
    pub fn task_by_id(&self, task_id: i64) -> (r: Option<TaskLogEntry>)
        ensures
            opt_view(r) == first_item(self@.tasks, task_with_id(task_id)),
    {
        let ghost ts = self@.tasks;
        let ghost test = task_with_id(task_id);
        for i in 0..self.tasks.len()
            invariant
                ts == views(self.tasks@),
                ts == self@.tasks,
                test == task_with_id(task_id),
                forall|j: int| 0 <= j < i ==> !test(#[trigger] ts[j]),
        {
            proof {
                assert(ts[i as int] == self.tasks@[i as int]@);
            }
            if self.tasks[i].id == task_id {
                proof {
                    lemma_first_where_is(ts, test, i as int);
                }
                return Some(self.tasks[i].clone());
            }
        }
        proof {
            lemma_first_where_is(ts, test, ts.len() as int);
        }
        None
    }

    /// The newest tasks, newest first.
    pub fn recent_tasks(&self, limit: usize) -> (out: Vec<TaskLogEntry>)
        ensures
            views(out@) == newest_tasks(self@.tasks, limit as int),
    {
        let total: usize = self.tasks.len();
        let n: usize = if limit < total {
            limit
        } else {
            total
        };
        let mut out: Vec<TaskLogEntry> = Vec::new();
        for i in 0..n
            invariant
                n <= total,
                total == self.tasks.len(),
                out.len() == i,
                forall|j: int|
                    0 <= j < i ==> (#[trigger] out@[j])@ == self.tasks@[total - 1 - j]@,
        {
            out.push(self.tasks[total - 1 - i].clone());
        }
        proof {
            assert(views(out@) =~= newest_tasks(self@.tasks, limit as int));
        }
        out
    }
}

proof fn lemma_kept_tasks(ts: Seq<TaskLogEntryModel>, n: int, t: TaskLogEntryModel)
    requires
        0 <= n <= ts.len(),
    ensures
        kept_tasks(ts, n).len() <= n,
        kept_tasks(ts, n).contains(t) == exists|i: int|
            0 <= i < n && #[trigger] ts[i] == t && (t.ended_at is None || i >= ts.len()
                - TASK_LOG_KEEP),
    decreases n,
{
    let k = kept_tasks(ts, n);
    if n > 0 {
        lemma_kept_tasks(ts, n - 1, t);
        let before = kept_tasks(ts, n - 1);
        if k.len() > before.len() {
            if before.contains(t) {
                let m = choose|m: int| 0 <= m < before.len() && before[m] == t;
                assert(k[m] == t);
            }
            if ts[n - 1] == t {
                assert(k[before.len() as int] == t);
            }
        }
    }
}

/// When a task begins, it is in the log, and so is every task that has not ended.
pub proof fn unended_tasks_stay(
    ts: Seq<TaskLogEntryModel>,
    begun: TaskLogEntryModel,
    t: TaskLogEntryModel,
)
    requires
        t == begun || (ts.contains(t) && t.ended_at is None),
    ensures
        tasks_begun(ts, begun).contains(t),
{
    let all = ts.push(begun);
    lemma_kept_tasks(all, all.len() as int, t);
    if t == begun {
        assert(all[ts.len() as int] == t);
    } else {
        let i = choose|i: int| 0 <= i < ts.len() && ts[i] == t;
        assert(all[i] == t);
    }
}

/// The test for tasks that have ended.
pub open spec fn ended() -> spec_fn(TaskLogEntryModel) -> bool {
    |t: TaskLogEntryModel| t.ended_at is Some
}

proof fn lemma_kept_ended(ts: Seq<TaskLogEntryModel>, n: int)
    requires
        0 <= n <= ts.len(),
    ensures
        kept_tasks(ts, n).filter(ended()).len() <= (if n <= ts.len() - TASK_LOG_KEEP {
            0
        } else if ts.len() <= TASK_LOG_KEEP {
            n
        } else {
            n - (ts.len() - TASK_LOG_KEEP)
        }),
    decreases n,
{
    let k = kept_tasks(ts, n);
    if n <= 0 {
        assert(k.filter(ended()) =~= Seq::empty());
    } else {
        lemma_kept_ended(ts, n - 1);
        kept_tasks(ts, n - 1).lemma_filter_push(ts[n - 1], ended());
    }
}

/// When a task has begun, no more than the newest of those that have ended are in the log.
pub proof fn ended_tasks_are_few(ts: Seq<TaskLogEntryModel>, begun: TaskLogEntryModel)
    ensures
        tasks_begun(ts, begun).filter(ended()).len() <= TASK_LOG_KEEP,
{
    lemma_kept_ended(ts.push(begun), (ts.len() + 1) as int);
}

} // verus!
