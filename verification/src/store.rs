//! The task store: the aggregate of all tasks and their run histories,
//! with create/update/delete/toggle/get/list and run recording.
//!
//! The store itself is a plain in-memory value; the shell around the
//! library owns it behind a lock, passes the current instant into every
//! mutating operation, and persists the encoded store after each one.

use vstd::prelude::*;

use crate::cron::next_run_time;
use crate::cron::spec_next_run_time;
use crate::model::ScheduledTask;
use crate::model::TaskHistory;
use crate::model::TaskHistoryV;
use crate::model::TaskRun;
use crate::model::TaskRunV;
use crate::model::TaskStep;
use crate::model::TaskV;
use crate::model::dup_runs;
use crate::model::dup_tasks;
use crate::text::str_eq;

verus! {

/// Why a store operation was refused.
#[derive(Clone, Debug, PartialEq)]
pub enum StoreError {
    /// The operation referenced a task id that is not in the store.
    NotFound { task_id: String },
}

/// The text of the error for a missing task.
pub open spec fn not_found_text(id: Seq<char>) -> Seq<char> {
    "Task not found: "@ + id
}

impl StoreError {
    /// Renders the error as the store's callers report it.
    pub fn message(&self) -> (r: String)
        ensures
            (match self {
                StoreError::NotFound { task_id } => r@ == not_found_text(task_id@),
            }),
    {
        match self {
            StoreError::NotFound { task_id } => {
                let mut s = String::from_str("Task not found: ");
                s.append(task_id.as_str());
                s
            },
        }
    }
}

/// All tasks and all histories, the single document the shell persists.
#[derive(Clone, Debug, PartialEq)]
pub struct TaskStore {
    pub tasks: Vec<ScheduledTask>,
    pub history: Vec<TaskHistory>,
}

/// View of a [`TaskStore`].
#[verifier::ext_equal]
pub ghost struct StoreV {
    pub tasks: Seq<TaskV>,
    pub history: Seq<TaskHistoryV>,
}

impl View for TaskStore {
    type V = StoreV;

    open spec fn view(&self) -> StoreV {
        StoreV { tasks: self.tasks.deep_view(), history: self.history.deep_view() }
    }
}

impl DeepView for TaskStore {
    type V = StoreV;

    open spec fn deep_view(&self) -> StoreV {
        self.view()
    }
}

/// The position of the first task with the given id, or `-1`.
pub open spec fn find_idx(tasks: Seq<TaskV>, id: Seq<char>) -> int
    decreases tasks.len(),
{
    if tasks.len() == 0 {
        -1
    } else if tasks[0].id == id {
        0
    } else {
        let rest = find_idx(tasks.drop_first(), id);
        if rest == -1 {
            -1
        } else {
            rest + 1
        }
    }
}

/// A scan that saw different ids at every position before `i` and the id
/// itself at `i` has found the first occurrence.
pub proof fn lemma_find_idx_hit(tasks: Seq<TaskV>, id: Seq<char>, i: int)
    requires
        0 <= i < tasks.len(),
        forall|k: int| 0 <= k < i ==> tasks[k].id != id,
        tasks[i].id == id,
    ensures
        find_idx(tasks, id) == i,
    decreases i,
{
    if i == 0 {
    } else {
        assert(tasks[0].id != id);
        assert forall|k: int| 0 <= k < i - 1 implies tasks.drop_first()[k].id != id by {
            assert(tasks.drop_first()[k] == tasks[k + 1]);
        }
        assert(tasks.drop_first()[i - 1] == tasks[i]);
        lemma_find_idx_hit(tasks.drop_first(), id, i - 1);
    }
}

/// A scan that saw different ids at every position has found nothing.
pub proof fn lemma_find_idx_miss(tasks: Seq<TaskV>, id: Seq<char>)
    requires
        forall|k: int| 0 <= k < tasks.len() ==> tasks[k].id != id,
    ensures
        find_idx(tasks, id) == -1,
    decreases tasks.len(),
{
    if tasks.len() == 0 {
    } else {
        assert(tasks[0].id != id);
        assert forall|k: int| 0 <= k < tasks.len() - 1 implies tasks.drop_first()[k].id != id by {
            assert(tasks.drop_first()[k] == tasks[k + 1]);
        }
        lemma_find_idx_miss(tasks.drop_first(), id);
    }
}

/// Where `find_idx` points, the id matches, and nothing before it does.
pub proof fn lemma_find_idx_props(tasks: Seq<TaskV>, id: Seq<char>)
    ensures
        find_idx(tasks, id) == -1 || (0 <= find_idx(tasks, id) < tasks.len()
            && tasks[find_idx(tasks, id)].id == id && forall|k: int|
            0 <= k < find_idx(tasks, id) ==> tasks[k].id != id),
    decreases tasks.len(),
{
    if tasks.len() == 0 {
    } else if tasks[0].id == id {
    } else {
        lemma_find_idx_props(tasks.drop_first(), id);
        assert forall|k: int| 0 <= k < tasks.len() - 1 implies #[trigger] tasks.drop_first()[k]
            == tasks[k + 1] by {}
        let rest = find_idx(tasks.drop_first(), id);
        if rest != -1 {
            assert(tasks[rest + 1] == tasks.drop_first()[rest]);
            assert forall|k: int| 0 <= k < rest + 1 implies tasks[k].id != id by {
                if k > 0 {
                    assert(tasks[k] == tasks.drop_first()[k - 1]);
                }
            }
        }
    }
}

impl TaskStore {
    /// An empty store, what corrupt or missing persisted content becomes.
    pub fn new() -> (s: TaskStore)
        ensures
            s@.tasks.len() == 0,
            s@.history.len() == 0,
    {
        let s = TaskStore { tasks: Vec::new(), history: Vec::new() };
        proof {
            assert(s@.tasks =~= Seq::<TaskV>::empty());
            assert(s@.history =~= Seq::<TaskHistoryV>::empty());
        }
        s
    }

    /// Finds the position of the first task with the given id.
    fn position_of(&self, task_id: &str) -> (r: Option<usize>)
        ensures
            (match r {
                Option::Some(p) => p == find_idx(self@.tasks, task_id@),
                Option::None => find_idx(self@.tasks, task_id@) == -1,
            }),
    {
        let mut i: usize = 0;
        while i < self.tasks.len()
            invariant
                i <= self@.tasks.len(),
                self@.tasks.len() == self.tasks@.len(),
                forall|k: int| 0 <= k < i ==> self@.tasks[k].id != task_id@,
            decreases self.tasks@.len() - i,
        {
            if str_eq(self.tasks[i].id.as_str(), task_id) {
                proof {
                    lemma_find_idx_hit(self@.tasks, task_id@, i as int);
                }
                return Option::Some(i);
            }
            i = i + 1;
        }
        proof {
            lemma_find_idx_miss(self@.tasks, task_id@);
        }
        Option::None
    }

    /// Read-only snapshots of all tasks.
    pub fn get_tasks(&self) -> (r: Vec<ScheduledTask>)
        ensures
            r.deep_view() == self@.tasks,
    {
        dup_tasks(&self.tasks)
    }

    /// A read-only snapshot of the task with the given id, or the error
    /// naming it when no task has it.
    pub fn get_task(&self, task_id: &str) -> (r: Result<ScheduledTask, StoreError>)
        ensures
            (match r {
                Result::Ok(t) => find_idx(self@.tasks, task_id@) >= 0 && t@ == self@.tasks[
                    find_idx(self@.tasks, task_id@)
                ],
                Result::Err(e) => find_idx(self@.tasks, task_id@) == -1 && (match e {
                    StoreError::NotFound { task_id: missing } => missing@ == task_id@,
                }),
            }),
    {
        match self.position_of(task_id) {
            Option::Some(p) => {
                proof {
                    lemma_find_idx_props(self@.tasks, task_id@);
                    assert(self@.tasks[p as int] == self.tasks@[p as int].deep_view());
                }
                Result::Ok((&self.tasks[p]).duplicate())
            },
            Option::None => Result::Err(StoreError::NotFound { task_id: task_id.to_owned() }),
        }
    }
}

/// The position of the first history entry for the given task id, or `-1`.
pub open spec fn find_hist_idx(history: Seq<TaskHistoryV>, id: Seq<char>) -> int
    decreases history.len(),
{
    if history.len() == 0 {
        -1
    } else if history[0].task_id == id {
        0
    } else {
        let rest = find_hist_idx(history.drop_first(), id);
        if rest == -1 {
            -1
        } else {
            rest + 1
        }
    }
}

/// A scan that saw different task ids at every position before `i` and
/// the id itself at `i` has found the first history entry.
pub proof fn lemma_find_hist_idx_hit(history: Seq<TaskHistoryV>, id: Seq<char>, i: int)
    requires
        0 <= i < history.len(),
        forall|k: int| 0 <= k < i ==> history[k].task_id != id,
        history[i].task_id == id,
    ensures
        find_hist_idx(history, id) == i,
    decreases i,
{
    if i == 0 {
    } else {
        assert(history[0].task_id != id);
        assert forall|k: int| 0 <= k < i - 1 implies history.drop_first()[k].task_id != id by {
            assert(history.drop_first()[k] == history[k + 1]);
        }
        assert(history.drop_first()[i - 1] == history[i]);
        lemma_find_hist_idx_hit(history.drop_first(), id, i - 1);
    }
}

/// Where `find_hist_idx` points, the task id matches, nothing before it
/// does, and a full miss means no entry carries the id.
pub proof fn lemma_find_hist_idx_props(history: Seq<TaskHistoryV>, id: Seq<char>)
    ensures
        find_hist_idx(history, id) == -1 ==> forall|k: int|
            0 <= k < history.len() ==> history[k].task_id != id,
        find_hist_idx(history, id) != -1 ==> (0 <= find_hist_idx(history, id) < history.len()
            && history[find_hist_idx(history, id)].task_id == id && forall|k: int|
            0 <= k < find_hist_idx(history, id) ==> history[k].task_id != id),
    decreases history.len(),
{
    if history.len() == 0 {
    } else if history[0].task_id == id {
    } else {
        lemma_find_hist_idx_props(history.drop_first(), id);
        assert forall|k: int| 0 <= k < history.len() - 1 implies #[trigger] history.drop_first()[k]
            == history[k + 1] by {}
        let rest = find_hist_idx(history.drop_first(), id);
        if rest != -1 {
            assert(history[rest + 1] == history.drop_first()[rest]);
            assert forall|k: int| 0 <= k < rest + 1 implies history[k].task_id != id by {
                if k > 0 {
                    assert(history[k] == history.drop_first()[k - 1]);
                }
            }
        } else {
            assert forall|k: int| 0 <= k < history.len() implies history[k].task_id != id by {
                if k > 0 {
                    assert(history[k] == history.drop_first()[k - 1]);
                }
            }
        }
    }
}

/// What recording a run does to a task's run log: the run is appended and
/// only the most recent 20 entries are kept, oldest evicted first.
pub open spec fn appended_runs(runs: Seq<TaskRunV>, run: TaskRunV) -> Seq<TaskRunV> {
    let grown = runs.push(run);
    if grown.len() > 20 {
        grown.skip(grown.len() - 20)
    } else {
        grown
    }
}

/// Recording a run never leaves more than 20 entries in a task's log, and
/// what stays is exactly the tail of the grown log: the most recent runs,
/// in order, the oldest evicted first.
pub proof fn lemma_record_run_bounds_history(runs: Seq<TaskRunV>, run: TaskRunV)
    ensures
        appended_runs(runs, run).len() <= 20,
        ({
            let grown = runs.push(run);
            let kept = appended_runs(runs, run);
            forall|j: int|
                0 <= j < kept.len() ==> #[trigger] kept[j] == grown[grown.len() - kept.len() + j]
        }),
{
}

/// The task as `update_task` stores it: re-stamped, with the next firing
/// instant recomputed from the (possibly changed) cron expression.
pub open spec fn restamped(t: TaskV, now: u64) -> TaskV {
    TaskV { updated_at: now, next_run: spec_next_run_time(t.cron_expression, now), ..t }
}

/// The task as `toggle_task` stores it: flipped, re-stamped, and with the
/// next firing instant recomputed when the flip enables it.  Disabling
/// leaves the stale instant in place; due-checks ignore it.
pub open spec fn toggled(t: TaskV, now: u64) -> TaskV {
    if t.enabled {
        TaskV { enabled: false, updated_at: now, ..t }
    } else {
        TaskV {
            enabled: true,
            updated_at: now,
            next_run: spec_next_run_time(t.cron_expression, now),
            ..t
        }
    }
}

/// Relies on `uuid::Uuid::new_v4` and the `Display` form of a `Uuid`: the
/// hyphenated rendering is always 36 characters.  Which identifier comes
/// back is random and nothing more is assumed of it.
#[verifier::external_body]
fn fresh_uuid() -> (r: String)
    ensures
        r@.len() == 36,
{
    uuid::Uuid::new_v4().to_string()
}

/// Whether some string in the list reads as `id`.
pub open spec fn id_among(ids: Seq<Seq<char>>, id: Seq<char>) -> bool {
    exists|m: int| 0 <= m < ids.len() && ids[m] == id
}

/// Appending a string keeps every earlier membership and adds its own.
proof fn lemma_id_among_push(ids: Seq<Seq<char>>, x: Seq<char>, id: Seq<char>)
    ensures
        id_among(ids, id) ==> id_among(ids.push(x), id),
        id_among(ids.push(x), x),
{
    if id_among(ids, id) {
        let m = choose|m: int| 0 <= m < ids.len() && ids[m] == id;
        assert(ids.push(x)[m] == id);
    }
    assert(ids.push(x)[ids.len() as int] == x);
}

/// The length of the longest string in a list.
pub open spec fn seq_max_len(ids: Seq<Seq<char>>) -> nat
    decreases ids.len(),
{
    if ids.len() == 0 {
        0
    } else {
        let rest = seq_max_len(ids.drop_last());
        if ids.last().len() > rest {
            ids.last().len()
        } else {
            rest
        }
    }
}

/// Every string in a list is at most as long as the longest.
proof fn lemma_seq_max_len(ids: Seq<Seq<char>>, j: int)
    requires
        0 <= j < ids.len(),
    ensures
        ids[j].len() <= seq_max_len(ids),
    decreases ids.len(),
{
    if j == ids.len() - 1 {
    } else {
        lemma_seq_max_len(ids.drop_last(), j);
        assert(ids.drop_last()[j] == ids[j]);
    }
}

/// Decides whether a candidate id occurs in a list of ids.
pub(crate) fn id_present(ids: &Vec<String>, cand: &String) -> (r: bool)
    ensures
        r == id_among(ids.deep_view(), cand@),
{
    let mut i: usize = 0;
    while i < ids.len()
        invariant
            i <= ids@.len(),
            forall|k: int| 0 <= k < i ==> ids.deep_view()[k] != cand@,
        decreases ids@.len() - i,
    {
        if str_eq(ids[i].as_str(), cand.as_str()) {
            proof {
                assert(ids.deep_view()[i as int] == cand@);
            }
            return true;
        }
        proof {
            assert(ids.deep_view()[i as int] == ids@[i as int]@);
        }
        i = i + 1;
    }
    false
}

/// A fresh, non-empty id that differs from every id in the list.  The
/// first candidate is a random identifier; on the rare collision the
/// candidate is lengthened until it is longer than everything taken.
fn unique_id(existing: &Vec<String>) -> (r: String)
    ensures
        r@.len() > 0,
        !id_among(existing.deep_view(), r@),
{
    let mut cand = fresh_uuid();
    loop
        invariant
            cand@.len() >= 1,
        ensures
            cand@.len() >= 1,
            !id_among(existing.deep_view(), cand@),
        decreases seq_max_len(existing.deep_view()) + 1 - cand@.len(),
    {
        if !id_present(existing, &cand) {
            break;
        }
        proof {
            let j = choose|j: int|
                0 <= j < existing.deep_view().len() && existing.deep_view()[j] == cand@;
            lemma_seq_max_len(existing.deep_view(), j);
        }
        cand.push('x');
    }
    cand
}

/// How `create_task` treats the steps of a new task: every field is kept,
/// and each empty step id is replaced by a fresh non-empty one that
/// differs from every other step id of the task.
pub open spec fn step_ids_assigned(orig: Seq<crate::model::StepV>, out: Seq<
    crate::model::StepV,
>) -> bool {
    &&& out.len() == orig.len()
    &&& forall|i: int|
        0 <= i < orig.len() ==> {
            &&& (#[trigger] out[i]).name == orig[i].name
            &&& out[i].executor == orig[i].executor
            &&& out[i].action == orig[i].action
            &&& out[i].depends_on_previous == orig[i].depends_on_previous
            &&& (orig[i].id.len() > 0 ==> out[i].id == orig[i].id)
            &&& out[i].id.len() > 0
        }
    &&& forall|i: int, j: int|
        0 <= i < orig.len() && 0 <= j < orig.len() && i != j && orig[i].id.len() == 0
            ==> (#[trigger] out[i]).id != (#[trigger] out[j]).id
}

/// The step ids of a created task are pairwise distinct outright —
/// generated or kept — whenever the caller's own non-empty step ids were
/// pairwise distinct.  (Duplicates the caller supplies are kept as given;
/// only the generated ids are made to differ from everything else.)
pub proof fn lemma_step_ids_all_distinct(orig: Seq<crate::model::StepV>, out: Seq<
    crate::model::StepV,
>)
    requires
        step_ids_assigned(orig, out),
        forall|i: int, j: int|
            0 <= i < orig.len() && 0 <= j < orig.len() && i != j && (#[trigger] orig[i]).id.len()
                > 0 && (#[trigger] orig[j]).id.len() > 0 ==> orig[i].id != orig[j].id,
    ensures
        forall|i: int, j: int|
            0 <= i < out.len() && 0 <= j < out.len() && i != j ==> (#[trigger] out[i]).id != (
            #[trigger] out[j]).id,
{
    assert forall|i: int, j: int|
        0 <= i < out.len() && 0 <= j < out.len() && i != j implies (#[trigger] out[i]).id != (
    #[trigger] out[j]).id by {
        if orig[i].id.len() == 0 {
        } else if orig[j].id.len() == 0 {
        } else {
            assert(out[i].id == orig[i].id);
            assert(out[j].id == orig[j].id);
        }
    }
}

impl TaskStore {
    /// Appends a new task: assigns a fresh id when the given one is empty
    /// (unique in the store), likewise for empty step ids (unique within
    /// the task — see [`lemma_step_ids_all_distinct`]), stamps both audit
    /// times to `now` and computes the first firing instant.  Returns the
    /// task as stored.
    pub fn create_task(&mut self, task: ScheduledTask, now: u64) -> (r: Result<
        ScheduledTask,
        StoreError,
    >)
        ensures
            r is Ok,
            ({
                let t = r.unwrap()@;
                let orig = task@;
                &&& final(self)@.tasks == old(self)@.tasks.push(t)
                &&& final(self)@.history == old(self)@.history
                &&& t.name == orig.name
                &&& t.description == orig.description
                &&& t.schedule == orig.schedule
                &&& t.cron_expression == orig.cron_expression
                &&& t.project_id == orig.project_id
                &&& t.enabled == orig.enabled
                &&& t.on_failure == orig.on_failure
                &&& t.last_run == orig.last_run
                &&& t.created_at == now
                &&& t.updated_at == now
                &&& t.next_run == spec_next_run_time(orig.cron_expression, now)
                &&& (t.next_run is Some ==> t.next_run.unwrap() > now)
                &&& (orig.id.len() > 0 ==> t.id == orig.id)
                &&& t.id.len() > 0
                &&& (orig.id.len() == 0 ==> forall|k: int|
                    0 <= k < old(self)@.tasks.len() ==> (#[trigger] old(
                        self,
                    )@.tasks[k]).id != t.id)
                &&& step_ids_assigned(orig.steps, t.steps)
            }),
    {
        let mut task = task;
        if task.id.as_str().is_empty() {
            let mut existing: Vec<String> = Vec::new();
            let mut i: usize = 0;
            while i < self.tasks.len()
                invariant
                    i <= self.tasks@.len(),
                    self@.tasks.len() == self.tasks@.len(),
                    existing@.len() == i,
                    forall|k: int| 0 <= k < i ==> existing.deep_view()[k] == (#[trigger] self@.tasks[k]).id,
                decreases self.tasks@.len() - i,
            {
                let ghost prev = existing.deep_view();
                existing.push(self.tasks[i].id.clone());
                proof {
                    assert(existing.deep_view() =~= prev.push(self@.tasks[i as int].id));
                }
                i = i + 1;
            }
            let fresh_task_id = unique_id(&existing);
            proof {
                assert forall|k: int| 0 <= k < self@.tasks.len() implies (#[trigger] self@.tasks[k]).id
                    != fresh_task_id@ by {
                    if self@.tasks[k].id == fresh_task_id@ {
                        assert(existing.deep_view()[k] == fresh_task_id@);
                        assert(id_among(existing.deep_view(), fresh_task_id@));
                    }
                }
            }
            task.id = fresh_task_id;
        }
        task.created_at = now;
        task.updated_at = now;
        task.next_run = next_run_time(task.cron_expression.as_str(), now);

        // Collect every provided (non-empty) step id; fresh step ids are
        // then drawn apart from these and from each other.
        let mut taken: Vec<String> = Vec::new();
        let ghost orig_steps = task.steps.deep_view();
        let mut k: usize = 0;
        while k < task.steps.len()
            invariant
                k <= task.steps@.len(),
                orig_steps == task.steps.deep_view(),
                orig_steps.len() == task.steps@.len(),
                forall|l: int|
                    0 <= l < k && (#[trigger] orig_steps[l]).id.len() > 0 ==> id_among(
                        taken.deep_view(),
                        orig_steps[l].id,
                    ),
            decreases task.steps@.len() - k,
        {
            let ghost prev_taken = taken.deep_view();
            if !task.steps[k].id.as_str().is_empty() {
                let pushed = task.steps[k].id.clone();
                let ghost pushed_v = pushed@;
                taken.push(pushed);
                proof {
                    assert(task.steps@[k as int].deep_view() == orig_steps[k as int]);
                    assert(pushed_v == orig_steps[k as int].id);
                    assert(taken.deep_view() =~= prev_taken.push(pushed_v));
                    assert forall|idv: Seq<char>| id_among(prev_taken, idv) implies id_among(
                        taken.deep_view(),
                        idv,
                    ) by {
                        lemma_id_among_push(prev_taken, pushed_v, idv);
                    }
                    lemma_id_among_push(prev_taken, pushed_v, pushed_v);
                }
            } else {
                proof {
                    assert(task.steps@[k as int].deep_view() == orig_steps[k as int]);
                }
            }
            k = k + 1;
        }

        let mut new_steps: Vec<TaskStep> = Vec::new();
        let mut i: usize = 0;
        while i < task.steps.len()
            invariant
                i <= task.steps@.len(),
                orig_steps == task.steps.deep_view(),
                orig_steps.len() == task.steps@.len(),
                new_steps@.len() == i,
                forall|l: int|
                    0 <= l < orig_steps.len() && (#[trigger] orig_steps[l]).id.len() > 0
                        ==> id_among(taken.deep_view(), orig_steps[l].id),
                forall|q: int|
                    0 <= q < i ==> {
                        &&& (#[trigger] new_steps@[q])@.name == orig_steps[q].name
                        &&& new_steps@[q]@.executor == orig_steps[q].executor
                        &&& new_steps@[q]@.action == orig_steps[q].action
                        &&& new_steps@[q]@.depends_on_previous == orig_steps[q].depends_on_previous
                        &&& (orig_steps[q].id.len() > 0 ==> new_steps@[q]@.id == orig_steps[q].id)
                        &&& new_steps@[q]@.id.len() > 0
                    },
                forall|q: int|
                    0 <= q < i ==> id_among(taken.deep_view(), (#[trigger] new_steps@[q])@.id),
                forall|q: int, l: int|
                    0 <= q < i && 0 <= l < orig_steps.len() && orig_steps[q].id.len() == 0
                        && orig_steps[l].id.len() > 0 ==> (#[trigger] new_steps@[q])@.id != (
                    #[trigger] orig_steps[l]).id,
                forall|q: int, l: int|
                    0 <= q < i && 0 <= l < i && q != l && orig_steps[q].id.len() == 0 ==> (
                    #[trigger] new_steps@[q])@.id != (#[trigger] new_steps@[l])@.id,
            decreases task.steps@.len() - i,
        {
            let ghost prev_taken = taken.deep_view();
            let ghost prev_steps = new_steps@;
            let mut s = (&task.steps[i]).duplicate();
            proof {
                assert(task.steps@[i as int].deep_view() == orig_steps[i as int]);
            }
            if s.id.as_str().is_empty() {
                let fresh_one = unique_id(&taken);
                let ghost fresh_v = fresh_one@;
                s.id = fresh_one.clone();
                taken.push(fresh_one);
                proof {
                    assert(taken.deep_view() =~= prev_taken.push(fresh_v));
                    assert forall|idv: Seq<char>| id_among(prev_taken, idv) implies id_among(
                        taken.deep_view(),
                        idv,
                    ) by {
                        lemma_id_among_push(prev_taken, fresh_v, idv);
                    }
                    lemma_id_among_push(prev_taken, fresh_v, fresh_v);
                    assert(id_among(taken.deep_view(), s@.id));
                    // The fresh id avoids everything taken so far: every
                    // provided id and every id already assigned.
                    assert(!id_among(prev_taken, fresh_v));
                }
            } else {
                proof {
                    assert(taken.deep_view() == prev_taken);
                    assert(orig_steps[i as int].id.len() > 0);
                    assert(id_among(taken.deep_view(), s@.id));
                }
            }
            new_steps.push(s);
            proof {
                let ghost cur_taken = taken.deep_view();
                assert forall|q: int| 0 <= q < i + 1 implies id_among(
                    cur_taken,
                    (#[trigger] new_steps@[q])@.id,
                ) by {
                    if q < i {
                        assert(new_steps@[q] == prev_steps[q]);
                        assert(id_among(prev_taken, prev_steps[q]@.id));
                    }
                }
                assert forall|q: int, l: int|
                    0 <= q < i + 1 && 0 <= l < orig_steps.len() && (#[trigger] orig_steps[q]).id.len()
                        == 0 && (#[trigger] orig_steps[l]).id.len() > 0 implies new_steps@[q]@.id
                    != orig_steps[l].id by {
                    if q == i {
                        if new_steps@[q]@.id == orig_steps[l].id {
                            assert(id_among(prev_taken, orig_steps[l].id));
                        }
                    }
                }
                assert forall|q: int, l: int|
                    0 <= q < i + 1 && 0 <= l < i + 1 && q != l && (#[trigger] orig_steps[q]).id.len()
                        == 0 implies (#[trigger] new_steps@[q])@.id != (#[trigger] new_steps@[l])@.id by {
                    if q == i {
                        if new_steps@[q]@.id == new_steps@[l]@.id {
                            assert(id_among(prev_taken, prev_steps[l]@.id));
                        }
                    } else if l == i {
                        if orig_steps[i as int].id.len() == 0 {
                            if new_steps@[q]@.id == new_steps@[l]@.id {
                                assert(id_among(prev_taken, prev_steps[q]@.id));
                            }
                        } else {
                            assert(new_steps@[l]@.id == orig_steps[l].id);
                        }
                    }
                }
            }
            i = i + 1;
        }
        task.steps = new_steps;
        let stored = task.duplicate();
        let ghost before = self@;
        self.tasks.push(task);
        proof {
            assert(self@.tasks =~= before.tasks.push(stored@));
            assert(self@.history =~= before.history);
        }
        Result::Ok(stored)
    }

    /// Replaces the task whose id matches, re-stamps it and recomputes its
    /// next firing instant; a missing id is refused and the store is left
    /// unchanged.
    pub fn update_task(&mut self, updated: ScheduledTask, now: u64) -> (r: Result<
        ScheduledTask,
        StoreError,
    >)
        ensures
            ({
                let p = find_idx(old(self)@.tasks, updated@.id);
                match r {
                    Result::Ok(t) => {
                        &&& p >= 0
                        &&& t@ == restamped(updated@, now)
                        &&& t@.next_run is Some ==> t@.next_run.unwrap() > now
                        &&& final(self)@.tasks == old(self)@.tasks.update(p, t@)
                        &&& final(self)@.history == old(self)@.history
                    },
                    Result::Err(e) => {
                        &&& p == -1
                        &&& final(self)@ == old(self)@
                        &&& (match e {
                            StoreError::NotFound { task_id: missing } => missing@ == updated@.id,
                        })
                    },
                }
            }),
    {
        let p = match self.position_of(updated.id.as_str()) {
            Option::Some(p) => p,
            Option::None => {
                let missing = updated.id.clone();
                return Result::Err(StoreError::NotFound { task_id: missing });
            },
        };
        proof {
            lemma_find_idx_props(self@.tasks, updated@.id);
        }
        let mut task = updated;
        task.updated_at = now;
        task.next_run = next_run_time(task.cron_expression.as_str(), now);
        let stored = task.duplicate();
        let ghost before = self@;
        self.tasks[p] = task;
        proof {
            assert(self@.tasks =~= before.tasks.update(p as int, stored@));
            assert(self@.history =~= before.history);
        }
        Result::Ok(stored)
    }

    /// Removes the task with the given id together with its history; a
    /// missing id is refused and the store is left unchanged.
    pub fn delete_task(&mut self, task_id: &str) -> (r: Result<(), StoreError>)
        ensures
            (match r {
                Result::Ok(u) => {
                    &&& find_idx(old(self)@.tasks, task_id@) >= 0
                    &&& final(self)@.tasks == old(self)@.tasks.filter(
                        |t: TaskV| t.id != task_id@,
                    )
                    &&& final(self)@.history == old(self)@.history.filter(
                        |h: TaskHistoryV| h.task_id != task_id@,
                    )
                },
                Result::Err(e) => {
                    &&& find_idx(old(self)@.tasks, task_id@) == -1
                    &&& final(self)@ == old(self)@
                    &&& (match e {
                        StoreError::NotFound { task_id: missing } => missing@ == task_id@,
                    })
                },
            }),
    {
        if let Option::None = self.position_of(task_id) {
            return Result::Err(StoreError::NotFound { task_id: task_id.to_owned() });
        }
        proof {
            lemma_find_idx_props(self@.tasks, task_id@);
            reveal(Seq::filter);
        }
        let mut kept_tasks: Vec<ScheduledTask> = Vec::new();
        let mut i: usize = 0;
        proof {
            reveal(Seq::filter);
            assert(self@.tasks.take(0).filter(|t: TaskV| t.id != task_id@) =~= Seq::<
                TaskV,
            >::empty());
            assert(kept_tasks.deep_view() =~= Seq::<TaskV>::empty());
        }
        while i < self.tasks.len()
            invariant
                i <= self.tasks@.len(),
                self@.tasks.len() == self.tasks@.len(),
                kept_tasks.deep_view() == self@.tasks.take(i as int).filter(
                    |t: TaskV| t.id != task_id@,
                ),
            decreases self.tasks@.len() - i,
        {
            let ghost prefix = self@.tasks.take(i as int);
            let ghost prev = kept_tasks.deep_view();
            if !str_eq(self.tasks[i].id.as_str(), task_id) {
                kept_tasks.push((&self.tasks[i]).duplicate());
                proof {
                    assert(kept_tasks.deep_view() =~= prev.push(self@.tasks[i as int]));
                }
            }
            proof {
                reveal(Seq::filter);
                let longer = self@.tasks.take(i as int + 1);
                assert(longer.drop_last() =~= prefix);
                assert(longer.last() == self@.tasks[i as int]);
                assert(kept_tasks.deep_view() =~= longer.filter(|t: TaskV| t.id != task_id@));
            }
            i = i + 1;
        }
        let mut kept_history: Vec<TaskHistory> = Vec::new();
        let mut j: usize = 0;
        proof {
            reveal(Seq::filter);
            assert(self@.history.take(0).filter(|h: TaskHistoryV| h.task_id != task_id@) =~= Seq::<
                TaskHistoryV,
            >::empty());
            assert(kept_history.deep_view() =~= Seq::<TaskHistoryV>::empty());
        }
        while j < self.history.len()
            invariant
                j <= self.history@.len(),
                self@.history.len() == self.history@.len(),
                kept_history.deep_view() == self@.history.take(j as int).filter(
                    |h: TaskHistoryV| h.task_id != task_id@,
                ),
            decreases self.history@.len() - j,
        {
            let ghost prefix = self@.history.take(j as int);
            let ghost prev = kept_history.deep_view();
            if !str_eq(self.history[j].task_id.as_str(), task_id) {
                kept_history.push((&self.history[j]).duplicate());
                proof {
                    assert(kept_history.deep_view() =~= prev.push(self@.history[j as int]));
                }
            }
            proof {
                reveal(Seq::filter);
                let longer = self@.history.take(j as int + 1);
                assert(longer.drop_last() =~= prefix);
                assert(longer.last() == self@.history[j as int]);
                assert(kept_history.deep_view() =~= longer.filter(
                    |h: TaskHistoryV| h.task_id != task_id@,
                ));
            }
            j = j + 1;
        }
        proof {
            assert(old(self)@.tasks.take(old(self)@.tasks.len() as int) =~= old(self)@.tasks);
            assert(old(self)@.history.take(old(self)@.history.len() as int) =~= old(
                self,
            )@.history);
        }
        self.tasks = kept_tasks;
        self.history = kept_history;
        Result::Ok(())
    }

    /// Flips the enabled state of the task with the given id; enabling
    /// recomputes the next firing instant even when the cron expression is
    /// unchanged.  A missing id is refused and the store is left unchanged.
    pub fn toggle_task(&mut self, task_id: &str, now: u64) -> (r: Result<
        ScheduledTask,
        StoreError,
    >)
        ensures
            ({
                let p = find_idx(old(self)@.tasks, task_id@);
                match r {
                    Result::Ok(t) => {
                        &&& p >= 0
                        &&& t@ == toggled(old(self)@.tasks[p], now)
                        &&& t@.enabled && t@.next_run is Some ==> t@.next_run.unwrap() > now
                        &&& final(self)@.tasks == old(self)@.tasks.update(p, t@)
                        &&& final(self)@.history == old(self)@.history
                    },
                    Result::Err(e) => {
                        &&& p == -1
                        &&& final(self)@ == old(self)@
                        &&& (match e {
                            StoreError::NotFound { task_id: missing } => missing@ == task_id@,
                        })
                    },
                }
            }),
    {
        let p = match self.position_of(task_id) {
            Option::Some(p) => p,
            Option::None => {
                return Result::Err(StoreError::NotFound { task_id: task_id.to_owned() });
            },
        };
        proof {
            lemma_find_idx_props(self@.tasks, task_id@);
            assert(self@.tasks[p as int] == self.tasks@[p as int].deep_view());
        }
        let mut task = (&self.tasks[p]).duplicate();
        task.enabled = !task.enabled;
        task.updated_at = now;
        if task.enabled {
            task.next_run = next_run_time(task.cron_expression.as_str(), now);
        }
        let stored = task.duplicate();
        let ghost before = self@;
        self.tasks[p] = task;
        proof {
            assert(self@.tasks =~= before.tasks.update(p as int, stored@));
            assert(self@.history =~= before.history);
        }
        Result::Ok(stored)
    }

    /// Finds the position of the first history entry for the given id.
    fn hist_position_of(&self, task_id: &str) -> (r: Option<usize>)
        ensures
            (match r {
                Option::Some(q) => q == find_hist_idx(self@.history, task_id@),
                Option::None => find_hist_idx(self@.history, task_id@) == -1,
            }),
    {
        let mut j: usize = 0;
        while j < self.history.len()
            invariant
                j <= self.history@.len(),
                self@.history.len() == self.history@.len(),
                forall|k: int| 0 <= k < j ==> self@.history[k].task_id != task_id@,
            decreases self.history@.len() - j,
        {
            if str_eq(self.history[j].task_id.as_str(), task_id) {
                proof {
                    lemma_find_hist_idx_hit(self@.history, task_id@, j as int);
                }
                return Option::Some(j);
            }
            j = j + 1;
        }
        proof {
            lemma_find_hist_idx_props(self@.history, task_id@);
            if find_hist_idx(self@.history, task_id@) != -1 {
                assert(self@.history[find_hist_idx(self@.history, task_id@)].task_id == task_id@);
            }
        }
        Option::None
    }

    /// Records a completed run: the task's `last_run` is set, its next
    /// firing instant advanced, and the run appended to the task's history,
    /// of which only the most recent 20 entries are kept, oldest evicted
    /// first.  A task id without a task still gets a history entry, as a
    /// run may finish after its task was deleted.
    pub fn record_run(&mut self, task_id: &str, run: TaskRun, now: u64)
        ensures
            ({
                let p = find_idx(old(self)@.tasks, task_id@);
                if p == -1 {
                    final(self)@.tasks == old(self)@.tasks
                } else {
                    final(self)@.tasks == old(self)@.tasks.update(
                        p,
                        TaskV {
                            last_run: Option::Some(run@),
                            next_run: spec_next_run_time(
                                old(self)@.tasks[p].cron_expression,
                                now,
                            ),
                            updated_at: old(self)@.tasks[p].updated_at,
                            ..old(self)@.tasks[p]
                        },
                    )
                }
            }),
            ({
                let q = find_hist_idx(old(self)@.history, task_id@);
                if q == -1 {
                    final(self)@.history == old(self)@.history.push(
                        TaskHistoryV { task_id: task_id@, runs: seq![run@] },
                    )
                } else {
                    final(self)@.history == old(self)@.history.update(
                        q,
                        TaskHistoryV {
                            task_id: old(self)@.history[q].task_id,
                            runs: appended_runs(old(self)@.history[q].runs, run@),
                        },
                    )
                }
            }),
    {
        let run_for_task = run.duplicate();
        if let Option::Some(p) = self.position_of(task_id) {
            proof {
                lemma_find_idx_props(self@.tasks, task_id@);
                assert(self@.tasks[p as int] == self.tasks@[p as int].deep_view());
            }
            let mut t = (&self.tasks[p]).duplicate();
            t.last_run = Option::Some(run_for_task);
            t.next_run = next_run_time(t.cron_expression.as_str(), now);
            let ghost before = self@.tasks;
            let ghost tv = t@;
            self.tasks[p] = t;
            proof {
                assert(self@.tasks =~= before.update(p as int, tv));
            }
        }
        let ghost mid_history = self@.history;
        match self.hist_position_of(task_id) {
            Option::Some(q) => {
                proof {
                    lemma_find_hist_idx_props(self@.history, task_id@);
                    assert(self@.history[q as int] == self.history@[q as int].deep_view());
                }
                let mut entry = (&self.history[q]).duplicate();
                let ghost grown = self@.history[q as int].runs.push(run@);
                entry.runs.push(run);
                proof {
                    assert(entry.runs.deep_view() =~= grown);
                }
                if entry.runs.len() > 20 {
                    let cut = entry.runs.len() - 20;
                    let tail = entry.runs.split_off(cut);
                    entry.runs = tail;
                    proof {
                        assert(entry.runs.deep_view() =~= grown.skip(grown.len() - 20));
                    }
                }
                proof {
                    assert(entry.runs.deep_view() =~= appended_runs(
                        mid_history[q as int].runs,
                        run@,
                    ));
                }
                let ghost ev = entry@;
                self.history[q] = entry;
                proof {
                    assert(self@.history =~= mid_history.update(q as int, ev));
                }
            },
            Option::None => {
                let mut runs: Vec<TaskRun> = Vec::new();
                runs.push(run);
                let entry = TaskHistory { task_id: task_id.to_owned(), runs };
                let ghost ev = entry@;
                proof {
                    assert(ev.runs =~= seq![run@]);
                }
                self.history.push(entry);
                proof {
                    assert(self@.history =~= mid_history.push(ev));
                }
            },
        }
    }

    /// Read-only snapshots of the recorded runs of one task, oldest first;
    /// a task without history yields the empty list.
    pub fn get_task_history(&self, task_id: &str) -> (r: Vec<TaskRun>)
        ensures
            ({
                let q = find_hist_idx(self@.history, task_id@);
                if q == -1 {
                    r.deep_view() == Seq::<TaskRunV>::empty()
                } else {
                    r.deep_view() == self@.history[q].runs
                }
            }),
    {
        let mut j: usize = 0;
        while j < self.history.len()
            invariant
                j <= self.history@.len(),
                self@.history.len() == self.history@.len(),
                forall|k: int| 0 <= k < j ==> self@.history[k].task_id != task_id@,
            decreases self.history@.len() - j,
        {
            if str_eq(self.history[j].task_id.as_str(), task_id) {
                proof {
                    lemma_find_hist_idx_hit(self@.history, task_id@, j as int);
                    assert(self@.history[j as int] == self.history@[j as int].deep_view());
                }
                return dup_runs(&self.history[j].runs);
            }
            j = j + 1;
        }
        proof {
            lemma_find_hist_idx_props(self@.history, task_id@);
        }
        let r: Vec<TaskRun> = Vec::new();
        proof {
            assert(r.deep_view() =~= Seq::<TaskRunV>::empty());
        }
        r
    }
}

} // verus!
