//! The scheduling pass: the run-now queue and the decision, taken once per
//! tick, of which tasks to dispatch.
//!
//! The shell owns one [`RunNowQueue`] and a timer.  Each tick it drains the
//! queue, snapshots the store, asks [`plan_tick`] which tasks to run, and
//! dispatches each as an independent unit of work.

use vstd::prelude::*;

use crate::cron::is_task_due;
use crate::cron::spec_is_due;
use crate::model::ScheduledTask;
use crate::model::TaskV;
use crate::store::find_idx;
use crate::store::id_among;
use crate::store::id_present;
use crate::store::lemma_find_idx_props;

verus! {

/// The deduplicating list of task ids awaiting an out-of-band run.
pub struct RunNowQueue {
    ids: Vec<String>,
}

impl View for RunNowQueue {
    type V = Seq<Seq<char>>;

    closed spec fn view(&self) -> Seq<Seq<char>> {
        self.ids.deep_view()
    }
}

impl RunNowQueue {
    /// An empty queue.
    pub fn new() -> (q: RunNowQueue)
        ensures
            q@.len() == 0,
    {
        let q = RunNowQueue { ids: Vec::new() };
        proof {
            assert(q@ =~= Seq::<Seq<char>>::empty());
        }
        q
    }

    /// Requests an immediate run of the task with the given id.  Asking
    /// twice is the same as asking once: an id already queued is not
    /// queued again.  No existence check is made here; the caller
    /// validates the id against the store first.
    pub fn queue_run_now(&mut self, task_id: &str)
        ensures
            id_among(old(self)@, task_id@) ==> final(self)@ == old(self)@,
            !id_among(old(self)@, task_id@) ==> final(self)@ == old(self)@.push(task_id@),
    {
        let candidate = task_id.to_owned();
        if !id_present(&self.ids, &candidate) {
            let ghost prev = self@;
            self.ids.push(candidate);
            proof {
                assert(self@ =~= prev.push(task_id@));
            }
        }
    }

    /// Removes and returns everything queued, in request order, leaving
    /// the queue empty; one atomic step under the queue's lock.
    pub fn drain(&mut self) -> (r: Vec<String>)
        ensures
            r.deep_view() == old(self)@,
            final(self)@.len() == 0,
    {
        let mut out: Vec<String> = Vec::new();
        core::mem::swap(&mut out, &mut self.ids);
        proof {
            assert(self@ =~= Seq::<Seq<char>>::empty());
        }
        out
    }
}

/// Requests an immediate out-of-band run of a task: its existence is
/// checked against the store synchronously — a missing id is refused at
/// once and the queue left unchanged — and the id is then queued for the
/// next tick, once, however often it is asked.
pub fn run_task_now(
    store: &crate::store::TaskStore,
    queue: &mut RunNowQueue,
    task_id: &str,
) -> (r: Result<(), crate::store::StoreError>)
    ensures
        (match r {
            Result::Ok(u) => {
                &&& find_idx(store@.tasks, task_id@) >= 0
                &&& (id_among(old(queue)@, task_id@) ==> final(queue)@ == old(queue)@)
                &&& (!id_among(old(queue)@, task_id@) ==> final(queue)@ == old(queue)@.push(
                    task_id@,
                ))
            },
            Result::Err(e) => {
                &&& find_idx(store@.tasks, task_id@) == -1
                &&& final(queue)@ == old(queue)@
                &&& (match e {
                    crate::store::StoreError::NotFound { task_id: missing } => missing@
                        == task_id@,
                })
            },
        }),
{
    match store.get_task(task_id) {
        Result::Ok(found) => {
            queue.queue_run_now(task_id);
            Result::Ok(())
        },
        Result::Err(e) => Result::Err(e),
    }
}

/// The tasks a run-now request list picks from a snapshot: for each
/// requested id, in order, the first task bearing it; ids of deleted
/// tasks pick nothing.
pub open spec fn run_now_picks(tasks: Seq<TaskV>, ids: Seq<Seq<char>>) -> Seq<TaskV>
    decreases ids.len(),
{
    if ids.len() == 0 {
        Seq::empty()
    } else {
        run_now_picks(tasks, ids.drop_last()) + (if find_idx(tasks, ids.last()) == -1 {
            Seq::empty()
        } else {
            seq![tasks[find_idx(tasks, ids.last())]]
        })
    }
}

/// What one scheduling pass dispatches from a snapshot: first the tasks
/// asked to run now, in request order, then every due task that was not
/// already dispatched by a run-now request this tick.
pub open spec fn spec_plan_tick(tasks: Seq<TaskV>, run_now: Seq<Seq<char>>, now: u64) -> Seq<
    TaskV,
> {
    run_now_picks(tasks, run_now) + tasks.filter(
        |t: TaskV| spec_is_due(t, now) && !id_among(run_now, t.id),
    )
}

/// Finds the position of the first task with the given id in a snapshot.
fn position_in(tasks: &Vec<ScheduledTask>, task_id: &String) -> (r: Option<usize>)
    ensures
        (match r {
            Option::Some(p) => p == find_idx(tasks.deep_view(), task_id@),
            Option::None => find_idx(tasks.deep_view(), task_id@) == -1,
        }),
{
    let mut i: usize = 0;
    while i < tasks.len()
        invariant
            i <= tasks@.len(),
            forall|k: int| 0 <= k < i ==> (#[trigger] tasks.deep_view()[k]).id != task_id@,
        decreases tasks@.len() - i,
    {
        if crate::text::str_eq(tasks[i].id.as_str(), task_id.as_str()) {
            proof {
                assert(tasks.deep_view()[i as int].id == task_id@);
                crate::store::lemma_find_idx_hit(tasks.deep_view(), task_id@, i as int);
            }
            return Option::Some(i);
        }
        proof {
            assert(tasks.deep_view()[i as int].id == tasks@[i as int]@.id);
        }
        i = i + 1;
    }
    proof {
        crate::store::lemma_find_idx_miss(tasks.deep_view(), task_id@);
    }
    Option::None
}

/// Decides one scheduling pass over a snapshot of the store's tasks and
/// the drained run-now ids, as [`spec_plan_tick`] says.  A task both due
/// and requested this tick is dispatched once, through the request.
pub fn plan_tick(tasks: &Vec<ScheduledTask>, run_now: &Vec<String>, now: u64) -> (r: Vec<
    ScheduledTask,
>)
    ensures
        r.deep_view() == spec_plan_tick(tasks.deep_view(), run_now.deep_view(), now),
{
    let ghost tasks_v = tasks.deep_view();
    let ghost ids_v = run_now.deep_view();
    let mut out: Vec<ScheduledTask> = Vec::new();
    let mut i: usize = 0;
    proof {
        assert(out.deep_view() =~= run_now_picks(tasks_v, ids_v.take(0)));
    }
    while i < run_now.len()
        invariant
            i <= run_now@.len(),
            tasks_v == tasks.deep_view(),
            ids_v == run_now.deep_view(),
            ids_v.len() == run_now@.len(),
            out.deep_view() == run_now_picks(tasks_v, ids_v.take(i as int)),
        decreases run_now@.len() - i,
    {
        let ghost prev = out.deep_view();
        proof {
            assert(ids_v.take(i as int + 1).drop_last() =~= ids_v.take(i as int));
            assert(ids_v.take(i as int + 1).last() == ids_v[i as int]);
            assert(run_now.deep_view()[i as int] == run_now@[i as int]@);
        }
        match position_in(tasks, &run_now[i]) {
            Option::Some(p) => {
                proof {
                    lemma_find_idx_props(tasks_v, ids_v[i as int]);
                    assert(tasks.deep_view()[p as int] == tasks@[p as int].deep_view());
                }
                out.push((&tasks[p]).duplicate());
                proof {
                    assert(out.deep_view() =~= prev.push(tasks_v[p as int]));
                    assert(out.deep_view() =~= run_now_picks(tasks_v, ids_v.take(i as int + 1)));
                }
            },
            Option::None => {
                proof {
                    assert(out.deep_view() =~= run_now_picks(tasks_v, ids_v.take(i as int + 1)));
                }
            },
        }
        i = i + 1;
    }
    proof {
        assert(ids_v.take(ids_v.len() as int) =~= ids_v);
    }
    let ghost picked = out.deep_view();
    let ghost pred = |t: TaskV| spec_is_due(t, now) && !id_among(ids_v, t.id);
    let mut j: usize = 0;
    proof {
        reveal(Seq::filter);
        assert(tasks_v.take(0).filter(pred) =~= Seq::<TaskV>::empty());
        assert(out.deep_view() =~= picked + tasks_v.take(0).filter(pred));
    }
    while j < tasks.len()
        invariant
            j <= tasks@.len(),
            tasks_v == tasks.deep_view(),
            ids_v == run_now.deep_view(),
            tasks_v.len() == tasks@.len(),
            out.deep_view() == picked + tasks_v.take(j as int).filter(pred),
            pred == (|t: TaskV| spec_is_due(t, now) && !id_among(ids_v, t.id)),
        decreases tasks@.len() - j,
    {
        let ghost prev = out.deep_view();
        proof {
            assert(tasks.deep_view()[j as int] == tasks@[j as int].deep_view());
        }
        let due = is_task_due(&tasks[j], now);
        let requested = id_present(run_now, &tasks[j].id);
        if due && !requested {
            out.push((&tasks[j]).duplicate());
            proof {
                assert(out.deep_view() =~= prev.push(tasks_v[j as int]));
            }
        }
        proof {
            reveal(Seq::filter);
            let longer = tasks_v.take(j as int + 1);
            assert(longer.drop_last() =~= tasks_v.take(j as int));
            assert(longer.last() == tasks_v[j as int]);
            assert(pred(tasks_v[j as int]) == (due && !requested));
            assert(out.deep_view() =~= picked + longer.filter(pred));
        }
        j = j + 1;
    }
    proof {
        assert(tasks_v.take(tasks_v.len() as int) =~= tasks_v);
        assert(out.deep_view() =~= spec_plan_tick(tasks_v, ids_v, now));
    }
    out
}

} // verus!
