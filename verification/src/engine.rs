//! The execution engine: drives one task's steps to a final run record,
//! enforcing dependency, retry and failure policy.
//!
//! The engine is a state machine over plain values.  The shell asks which
//! step to attempt, invokes the step's executor, and feeds the outcome
//! back; everything the engine decides in between — skipping dependent
//! steps, retrying, cascading skips on a stop, the overall status — is a
//! function of the outcomes fed, stated by [`engine_step`] and proved of
//! every transition.

use vstd::prelude::*;

use crate::model::FailureAction;
use crate::model::RunStatus;
use crate::model::ScheduledTask;
use crate::model::StepResult;
use crate::model::StepResultV;
use crate::model::StepStatus;
use crate::model::StepV;
use crate::model::TaskRun;
use crate::model::TaskRunV;
use crate::model::TaskStep;
use crate::model::dup_opt_string;

verus! {

/// The outcome of one attempt of one step, as an executor reports it.
#[derive(Clone, Debug, PartialEq)]
pub struct StepOutcome {
    pub status: StepStatus,
    pub output: Option<String>,
    pub error: Option<String>,
    pub started_at: u64,
    pub finished_at: u64,
}

/// View of a [`StepOutcome`].
#[verifier::ext_equal]
pub ghost struct OutcomeV {
    pub status: StepStatus,
    pub output: Option<Seq<char>>,
    pub error: Option<Seq<char>>,
    pub started_at: u64,
    pub finished_at: u64,
}

impl View for StepOutcome {
    type V = OutcomeV;

    open spec fn view(&self) -> OutcomeV {
        OutcomeV {
            status: self.status,
            output: self.output.deep_view(),
            error: self.error.deep_view(),
            started_at: self.started_at,
            finished_at: self.finished_at,
        }
    }
}

impl DeepView for StepOutcome {
    type V = OutcomeV;

    open spec fn deep_view(&self) -> OutcomeV {
        self.view()
    }
}

/// The engine's whole state as a mathematical value.
#[verifier::ext_equal]
pub ghost struct EngineV {
    pub steps: Seq<StepV>,
    pub policy: FailureAction,
    /// The step under consideration.
    pub idx: int,
    /// Attempts already made at the current step.
    pub attempt: int,
    /// The results recorded so far, in order.
    pub results: Seq<StepResultV>,
    /// Whether some step has ultimately failed in this run.
    pub had_failure: bool,
    pub done: bool,
    pub started_at: u64,
}

/// How many attempts the failure policy grants one step.
pub open spec fn max_attempts_of(policy: FailureAction) -> int {
    match policy {
        FailureAction::Stop => 1,
        FailureAction::SkipAndContinue => 1,
        FailureAction::Retry { max_attempts } => max_attempts as int,
    }
}

/// The result recorded for an attempted step from its outcome.
pub open spec fn attempt_record(step: StepV, o: OutcomeV) -> StepResultV {
    StepResultV {
        step_id: step.id,
        status: o.status,
        output: o.output,
        error: o.error,
        started_at: o.started_at,
        finished_at: Option::Some(o.finished_at),
    }
}

/// The result recorded for a step skipped because an earlier step failed
/// and this one depends on its predecessor.
pub open spec fn dep_skip_record(step: StepV, now: u64) -> StepResultV {
    StepResultV {
        step_id: step.id,
        status: StepStatus::Skipped,
        output: Option::None,
        error: Option::Some("Skipped: previous step failed"@),
        started_at: now,
        finished_at: Option::Some(now),
    }
}

/// The result recorded for a step never reached because the task stopped
/// at an earlier failure.
pub open spec fn stop_skip_record(step: StepV, now: u64) -> StepResultV {
    StepResultV {
        step_id: step.id,
        status: StepStatus::Skipped,
        output: Option::None,
        error: Option::Some("Skipped: task stopped due to earlier failure"@),
        started_at: now,
        finished_at: Option::Some(now),
    }
}

/// The skip results for the steps in `[from, to)`, recorded when a task
/// under the stop policy halts.
pub open spec fn stop_skips(steps: Seq<StepV>, from: int, to: int, now: u64) -> Seq<StepResultV>
    decreases to - from,
{
    if to <= from {
        Seq::empty()
    } else {
        stop_skips(steps, from, to - 1, now).push(stop_skip_record(steps[to - 1], now))
    }
}

/// The skip cascade covers exactly the steps in `[from, to)`, in order.
pub proof fn lemma_stop_skips_props(steps: Seq<StepV>, from: int, to: int, now: u64)
    requires
        0 <= from <= to <= steps.len(),
    ensures
        stop_skips(steps, from, to, now).len() == to - from,
        forall|j: int|
            0 <= j < to - from ==> #[trigger] stop_skips(steps, from, to, now)[j]
                == stop_skip_record(steps[from + j], now),
    decreases to - from,
{
    if to > from {
        lemma_stop_skips_props(steps, from, to - 1, now);
    }
}

/// Advances past everything that needs no outcome: marks the machine done
/// at the end of the steps, skips a dependent step after a failure, and
/// passes over a step granted zero attempts (which counts as a failure
/// and records nothing).
pub open spec fn engine_settle(v: EngineV, now: u64) -> EngineV
    decreases v.steps.len() - v.idx,
{
    if v.done || v.idx < 0 || v.idx >= v.steps.len() {
        EngineV { done: true, ..v }
    } else if v.had_failure && v.steps[v.idx].depends_on_previous {
        engine_settle(
            EngineV {
                idx: v.idx + 1,
                results: v.results.push(dep_skip_record(v.steps[v.idx], now)),
                ..v
            },
            now,
        )
    } else if max_attempts_of(v.policy) <= 0 {
        engine_settle(EngineV { idx: v.idx + 1, had_failure: true, ..v }, now)
    } else {
        v
    }
}

/// Settling preserves the earlier results and the attempt counter, only
/// appends skip results, and stops either done or at a step that truly
/// awaits an attempt.
pub proof fn lemma_settle_props(v: EngineV, now: u64)
    requires
        0 <= v.idx <= v.steps.len(),
    ensures
        ({
            let s = engine_settle(v, now);
            &&& s.steps == v.steps
            &&& s.policy == v.policy
            &&& s.started_at == v.started_at
            &&& s.attempt == v.attempt
            &&& 0 <= s.idx <= s.steps.len()
            &&& (!s.done ==> s.idx < s.steps.len() && !(s.had_failure && s.steps[
                s.idx
            ].depends_on_previous) && max_attempts_of(s.policy) > 0)
            &&& s.results.len() >= v.results.len()
            &&& (forall|j: int| 0 <= j < v.results.len() ==> s.results[j] == v.results[j])
            &&& (forall|j: int|
                v.results.len() <= j < s.results.len() ==> (#[trigger] s.results[
                    j
                ]).status is Skipped)
            &&& (v.had_failure ==> s.had_failure)
        }),
    decreases v.steps.len() - v.idx,
{
    if v.done || v.idx >= v.steps.len() {
    } else if v.had_failure && v.steps[v.idx].depends_on_previous {
        lemma_settle_props(
            EngineV {
                idx: v.idx + 1,
                results: v.results.push(dep_skip_record(v.steps[v.idx], now)),
                ..v
            },
            now,
        );
    } else if max_attempts_of(v.policy) <= 0 {
        lemma_settle_props(EngineV { idx: v.idx + 1, had_failure: true, ..v }, now);
    }
}

/// The engine's starting state for a task's steps and policy.
pub open spec fn engine_init(
    steps: Seq<StepV>,
    policy: FailureAction,
    started_at: u64,
) -> EngineV {
    engine_settle(
        EngineV {
            steps,
            policy,
            idx: 0,
            attempt: 0,
            results: Seq::empty(),
            had_failure: false,
            done: false,
            started_at,
        },
        started_at,
    )
}

/// One transition: what feeding the outcome of one attempt does.  A
/// success is recorded and the engine moves on; a failure with attempts
/// remaining is discarded and retried; a failure on the last attempt, or
/// any other status, is recorded and the step counts as failed — under
/// the stop policy every remaining step is then skipped, otherwise the
/// engine moves on.
pub open spec fn engine_step(v: EngineV, o: OutcomeV, now: u64) -> EngineV {
    if v.done || v.idx < 0 || v.idx >= v.steps.len() {
        v
    } else {
        let rec = attempt_record(v.steps[v.idx], o);
        if o.status is Success {
            engine_settle(
                EngineV { idx: v.idx + 1, attempt: 0, results: v.results.push(rec), ..v },
                now,
            )
        } else if o.status is Failed && v.attempt + 1 < max_attempts_of(v.policy) {
            EngineV { attempt: v.attempt + 1, ..v }
        } else if v.policy is Stop {
            EngineV {
                results: v.results.push(rec) + stop_skips(
                    v.steps,
                    v.idx + 1,
                    v.steps.len() as int,
                    now,
                ),
                idx: v.steps.len() as int,
                attempt: 0,
                had_failure: true,
                done: true,
                ..v
            }
        } else {
            engine_settle(
                EngineV {
                    idx: v.idx + 1,
                    attempt: 0,
                    results: v.results.push(rec),
                    had_failure: true,
                    ..v
                },
                now,
            )
        }
    }
}

/// The state reached by feeding a list of outcomes in order.
pub open spec fn engine_run(v: EngineV, outcomes: Seq<OutcomeV>, now: u64) -> EngineV
    decreases outcomes.len(),
{
    if outcomes.len() == 0 {
        v
    } else {
        engine_run(engine_step(v, outcomes[0], now), outcomes.drop_first(), now)
    }
}

/// Feeding one more outcome after a list is one more transition.
pub proof fn lemma_engine_run_push(v: EngineV, outcomes: Seq<OutcomeV>, o: OutcomeV, now: u64)
    ensures
        engine_run(v, outcomes.push(o), now) == engine_step(engine_run(v, outcomes, now), o, now),
    decreases outcomes.len(),
{
    if outcomes.len() == 0 {
        assert(outcomes.push(o)[0] == o);
        assert(outcomes.push(o).drop_first() =~= Seq::<OutcomeV>::empty());
        assert(engine_run(v, outcomes.push(o), now) == engine_run(
            engine_step(v, o, now),
            outcomes.push(o).drop_first(),
            now,
        ));
        assert(engine_run(engine_step(v, o, now), outcomes.push(o).drop_first(), now)
            == engine_step(v, o, now));
        assert(engine_run(v, outcomes, now) == v);
    } else {
        assert(outcomes.push(o)[0] == outcomes[0]);
        assert(outcomes.push(o).drop_first() =~= outcomes.drop_first().push(o));
        lemma_engine_run_push(engine_step(v, outcomes[0], now), outcomes.drop_first(), o, now);
    }
}

/// The overall status of a finished run: a success when nothing failed;
/// still a success when everything recorded is a success or a skip (an
/// inert run); a partial success when successes and failures mix; a
/// failure when nothing succeeded.
pub open spec fn run_outcome(had_failure: bool, results: Seq<StepResultV>) -> RunStatus {
    if !had_failure {
        RunStatus::Success
    } else if results.len() > 0 && (forall|i: int|
        0 <= i < results.len() ==> (#[trigger] results[i]).status is Success
            || results[i].status is Skipped) {
        RunStatus::Success
    } else if exists|i: int| 0 <= i < results.len() && (#[trigger] results[i]).status is Success {
        RunStatus::PartialSuccess
    } else {
        RunStatus::Failed
    }
}

/// A machine state between transitions: the index is in range, and when
/// the run is not done the current step is genuinely awaiting an attempt.
pub open spec fn engine_ready(v: EngineV) -> bool {
    &&& 0 <= v.idx <= v.steps.len()
    &&& 0 <= v.attempt
    &&& (!v.done ==> {
        &&& v.idx < v.steps.len()
        &&& !(v.had_failure && v.steps[v.idx].depends_on_previous)
        &&& max_attempts_of(v.policy) > 0
        &&& v.attempt < max_attempts_of(v.policy)
    })
}

/// The engine that drives one task run.
pub struct RunEngine {
    steps: Vec<TaskStep>,
    policy: FailureAction,
    idx: usize,
    attempt: u32,
    results: Vec<StepResult>,
    had_failure: bool,
    done: bool,
    started_at: u64,
}

impl View for RunEngine {
    type V = EngineV;

    closed spec fn view(&self) -> EngineV {
        EngineV {
            steps: self.steps.deep_view(),
            policy: self.policy,
            idx: self.idx as int,
            attempt: self.attempt as int,
            results: self.results.deep_view(),
            had_failure: self.had_failure,
            done: self.done,
            started_at: self.started_at,
        }
    }
}

impl RunEngine {
    /// Runs the settling rules until an outcome is needed or the run is
    /// done, collecting the skip results it records.
    fn settle(&mut self, now: u64, emitted: &mut Vec<StepResult>)
        requires
            0 <= old(self)@.idx <= old(self)@.steps.len(),
        ensures
            final(self)@ == engine_settle(old(self)@, now),
            final(self)@.attempt == old(self)@.attempt,
            final(self)@.results.len() >= old(self)@.results.len(),
            final(emitted)@.len() == old(emitted)@.len() + final(self)@.results.len() - old(self)@.results.len(),
            forall|j: int|
                0 <= j < old(emitted)@.len() ==> final(emitted)@[j] == old(emitted)@[j],
            forall|j: int|
                old(emitted)@.len() <= j < final(emitted)@.len()
                    ==> (#[trigger] final(emitted)@[j])@ == final(self)@.results[
                        final(self)@.results.len() - final(emitted)@.len() + j
                    ],
    {
        let ghost v0 = self@;
        let ghost e0 = emitted@;
        loop
            invariant
                0 <= self@.idx <= self@.steps.len(),
                self.steps@.len() == self@.steps.len(),
                self.results@.len() == self@.results.len(),
                engine_settle(v0, now) == engine_settle(self@, now),
                self@.attempt == v0.attempt,
                self@.steps == v0.steps,
                self@.policy == v0.policy,
                self@.started_at == v0.started_at,
                self@.results.len() >= v0.results.len(),
                emitted@.len() == e0.len() + (self@.results.len() - v0.results.len()),
                forall|j: int| 0 <= j < e0.len() ==> emitted@[j] == e0[j],
                forall|j: int|
                    e0.len() <= j < emitted@.len() ==> (#[trigger] emitted@[j])@
                        == self@.results[self@.results.len() - emitted@.len() + j],
            ensures
                self@ == engine_settle(v0, now),
            decreases (if self.done {
                0int
            } else {
                self@.steps.len() - self@.idx + 1
            }),
        {
            if self.done {
                proof {
                    assert(engine_settle(self@, now) =~= self@);
                }
                break;
            }
            if self.idx >= self.steps.len() {
                let ghost prev = self@;
                self.done = true;
                proof {
                    assert(engine_settle(prev, now) =~= self@);
                    assert(engine_settle(self@, now) =~= self@);
                }
                break;
            }
            let depends = self.steps[self.idx].depends_on_previous;
            if self.had_failure && depends {
                let ghost prev = self@;
                let res = StepResult {
                    step_id: self.steps[self.idx].id.clone(),
                    status: StepStatus::Skipped,
                    output: Option::None,
                    error: Option::Some(String::from_str("Skipped: previous step failed")),
                    started_at: now,
                    finished_at: Option::Some(now),
                };
                proof {
                    assert(res@ =~= dep_skip_record(prev.steps[prev.idx], now));
                }
                emitted.push(res.duplicate());
                self.results.push(res);
                self.idx = self.idx + 1;
                proof {
                    assert(self@.results =~= prev.results.push(
                        dep_skip_record(prev.steps[prev.idx], now),
                    ));
                    assert(self@ =~= EngineV {
                        idx: prev.idx + 1,
                        results: prev.results.push(dep_skip_record(prev.steps[prev.idx], now)),
                        ..prev
                    });
                    assert(engine_settle(prev, now) == engine_settle(self@, now));
                }
            } else if self.max_attempts() == 0 {
                let ghost prev = self@;
                self.had_failure = true;
                self.idx = self.idx + 1;
                proof {
                    assert(self@ =~= EngineV { idx: prev.idx + 1, had_failure: true, ..prev });
                    assert(engine_settle(prev, now) == engine_settle(self@, now));
                }
            } else {
                proof {
                    assert(engine_settle(self@, now) =~= self@);
                }
                break;
            }
        }
    }

    /// The attempts the policy grants one step.
    fn max_attempts(&self) -> (r: u32)
        ensures
            r as int == max_attempts_of(self@.policy),
    {
        match self.policy {
            FailureAction::Retry { max_attempts } => max_attempts,
            FailureAction::Stop => 1,
            FailureAction::SkipAndContinue => 1,
        }
    }

    /// A fresh engine for one run of a task, started at `started_at`.
    pub fn new(task: &ScheduledTask, started_at: u64) -> (r: (RunEngine, Vec<StepResult>))
        ensures
            r.0@ == engine_init(task@.steps, task@.on_failure, started_at),
            engine_ready(r.0@),
            r.1.deep_view() == r.0@.results,
    {
        let mut engine = RunEngine {
            steps: crate::model::dup_steps(&task.steps),
            policy: task.on_failure,
            idx: 0,
            attempt: 0,
            results: Vec::new(),
            had_failure: false,
            done: false,
            started_at,
        };
        proof {
            assert(engine@.results =~= Seq::<StepResultV>::empty());
        }
        let mut emitted: Vec<StepResult> = Vec::new();
        let ghost init = engine@;
        engine.settle(started_at, &mut emitted);
        proof {
            lemma_settle_props(init, started_at);
            assert(emitted.deep_view() =~= engine@.results.skip(0));
            assert(engine@.results.skip(0) =~= engine@.results);
            assert forall|j: int| 0 <= j < emitted.deep_view().len() implies emitted.deep_view()[j]
                == engine@.results[j] by {
                assert(emitted@[j]@ == engine@.results[j]);
            }
            assert(emitted.deep_view() =~= engine@.results);
        }
        (engine, emitted)
    }

    /// The index of the step awaiting an attempt, or nothing when the run
    /// is done.
    pub fn next_step(&self) -> (r: Option<usize>)
        requires
            engine_ready(self@),
        ensures
            (match r {
                Option::Some(i) => !self@.done && i as int == self@.idx && self@.idx
                    < self@.steps.len(),
                Option::None => self@.done,
            }),
    {
        if self.done {
            Option::None
        } else {
            proof {
                assert(0 <= self@.idx);
            }
            proof {
                assert(self@.idx < self@.steps.len());
            }
            Option::Some(self.idx)
        }
    }

    /// A copy of the step awaiting an attempt.
    pub fn current_step(&self) -> (r: Option<TaskStep>)
        requires
            engine_ready(self@),
        ensures
            (match r {
                Option::Some(s) => !self@.done && s@ == self@.steps[self@.idx],
                Option::None => self@.done,
            }),
    {
        if self.done {
            Option::None
        } else {
            proof {
                assert(self@.steps[self@.idx] == self.steps@[self@.idx].deep_view());
            }
            Option::Some((&self.steps[self.idx]).duplicate())
        }
    }

    /// Feeds the outcome of one attempt of the current step.  Returns the
    /// results newly recorded by this transition, in the order recorded —
    /// one completion notification each.
    pub fn feed(&mut self, outcome: StepOutcome, now: u64) -> (emitted: Vec<StepResult>)
        requires
            engine_ready(old(self)@),
            !old(self)@.done,
        ensures
            final(self)@ == engine_step(old(self)@, outcome@, now),
            engine_ready(final(self)@),
            final(self)@.results.len() >= old(self)@.results.len(),
            emitted.deep_view() == final(self)@.results.skip(old(self)@.results.len() as int),
    {
        let ghost v0 = self@;
        let mut emitted: Vec<StepResult> = Vec::new();
        let rec = StepResult {
            step_id: self.steps[self.idx].id.clone(),
            status: outcome.status,
            output: outcome.output,
            error: outcome.error,
            started_at: outcome.started_at,
            finished_at: Option::Some(outcome.finished_at),
        };
        proof {
            assert(v0.steps[v0.idx] == self.steps@[self.idx as int].deep_view());
            assert(rec@ =~= attempt_record(
                v0.steps[v0.idx],
                OutcomeV {
                    status: outcome.status,
                    output: outcome.output.deep_view(),
                    error: outcome.error.deep_view(),
                    started_at: outcome.started_at,
                    finished_at: outcome.finished_at,
                },
            ));
        }
        let is_success = matches!(rec.status, StepStatus::Success);
        let is_failed = matches!(rec.status, StepStatus::Failed);
        let ma = self.max_attempts();
        if is_success {
            emitted.push(rec.duplicate());
            self.results.push(rec);
            proof {
                assert(self.idx < self.steps.len());
            }
            self.idx = self.idx + 1;
            self.attempt = 0;
            let ghost mid = self@;
            proof {
                assert(mid =~= EngineV {
                    idx: v0.idx + 1,
                    attempt: 0,
                    results: v0.results.push(attempt_record(v0.steps[v0.idx], outcome@)),
                    ..v0
                });
            }
            self.settle(now, &mut emitted);
            proof {
                lemma_settle_props(mid, now);
                assert(self@ == engine_step(v0, outcome@, now));
            }
        } else if is_failed && self.attempt + 1 < ma {
            self.attempt = self.attempt + 1;
            proof {
                assert(self@ =~= EngineV { attempt: v0.attempt + 1, ..v0 });
                assert(self@ == engine_step(v0, outcome@, now));
            }
        } else {
            let is_stop = matches!(self.policy, FailureAction::Stop);
            emitted.push(rec.duplicate());
            self.results.push(rec);
            self.had_failure = true;
            if is_stop {
                let ghost mid = self@;
                proof {
                    assert(self.idx < self.steps.len());
                }
                let mut m = self.idx + 1;
                proof {
                    assert(self@.results =~= mid.results + stop_skips(
                        v0.steps,
                        v0.idx + 1,
                        m as int,
                        now,
                    ));
                }
                while m < self.steps.len()
                    invariant
                        v0.idx + 1 <= m <= self@.steps.len(),
                        self.steps@.len() == self@.steps.len(),
                        self@.steps == v0.steps,
                        self@.policy == v0.policy,
                        self@.started_at == v0.started_at,
                        self@.idx == v0.idx,
                        self@.attempt == v0.attempt,
                        self@.had_failure,
                        !self@.done,
                        self@.results == mid.results + stop_skips(
                            v0.steps,
                            v0.idx + 1,
                            m as int,
                            now,
                        ),
                        emitted@.len() == self@.results.len() - v0.results.len(),
                        forall|j: int|
                            0 <= j < emitted@.len() ==> (#[trigger] emitted@[j])@
                                == self@.results[v0.results.len() + j],
                    decreases self@.steps.len() - m,
                {
                    let ghost prev_results = self@.results;
                    let skipped = StepResult {
                        step_id: self.steps[m].id.clone(),
                        status: StepStatus::Skipped,
                        output: Option::None,
                        error: Option::Some(
                            String::from_str("Skipped: task stopped due to earlier failure"),
                        ),
                        started_at: now,
                        finished_at: Option::Some(now),
                    };
                    proof {
                        assert(v0.steps[m as int] == self.steps@[m as int].deep_view());
                        assert(skipped@ =~= stop_skip_record(v0.steps[m as int], now));
                    }
                    emitted.push(skipped.duplicate());
                    self.results.push(skipped);
                    proof {
                        assert(self@.results =~= prev_results.push(
                            stop_skip_record(v0.steps[m as int], now),
                        ));
                        assert(self@.results =~= mid.results + stop_skips(
                            v0.steps,
                            v0.idx + 1,
                            m as int + 1,
                            now,
                        ));
                    }
                    m = m + 1;
                }
                self.idx = self.steps.len();
                self.attempt = 0;
                self.done = true;
                proof {
                    assert(self@ =~= engine_step(v0, outcome@, now));
                }
            } else {
                proof {
                    assert(self.idx < self.steps.len());
                }
                self.idx = self.idx + 1;
                self.attempt = 0;
                let ghost mid2 = self@;
                proof {
                    assert(mid2 =~= EngineV {
                        idx: v0.idx + 1,
                        attempt: 0,
                        results: v0.results.push(attempt_record(v0.steps[v0.idx], outcome@)),
                        had_failure: true,
                        ..v0
                    });
                }
                self.settle(now, &mut emitted);
                proof {
                    lemma_settle_props(mid2, now);
                    assert(self@ == engine_step(v0, outcome@, now));
                }
            }
        }
        proof {
            let fin = self@.results;
            assert(emitted.deep_view().len() == fin.skip(v0.results.len() as int).len());
            assert forall|j: int| 0 <= j < emitted.deep_view().len() implies emitted.deep_view()[j]
                == fin.skip(v0.results.len() as int)[j] by {
                assert(emitted@[j]@ == fin[v0.results.len() + j]);
            }
            assert(emitted.deep_view() =~= fin.skip(v0.results.len() as int));
        }
        emitted
    }

    /// Whether the run is finished.
    pub fn is_done(&self) -> (r: bool)
        ensures
            r == self@.done,
    {
        self.done
    }

    /// Closes the run: the overall status is computed from what was
    /// recorded, and the record carries every step result in order.
    pub fn into_run(self, finished_at: u64) -> (r: TaskRun)
        requires
            self@.done,
        ensures
            r@ == (TaskRunV {
                started_at: self@.started_at,
                finished_at: Option::Some(finished_at),
                status: run_outcome(self@.had_failure, self@.results),
                step_results: self@.results,
            }),
    {
        let status = compute_outcome(self.had_failure, &self.results);
        let run = TaskRun {
            started_at: self.started_at,
            finished_at: Option::Some(finished_at),
            status,
            step_results: self.results,
        };
        proof {
            assert(run@ =~= TaskRunV {
                started_at: self@.started_at,
                finished_at: Option::Some(finished_at),
                status: run_outcome(self@.had_failure, self@.results),
                step_results: self@.results,
            });
        }
        run
    }
}

/// Feeding only successes marches the engine through one step per
/// outcome, recording exactly one success result each and no failure.
pub proof fn lemma_run_of_successes(v: EngineV, outcomes: Seq<OutcomeV>, now: u64)
    requires
        engine_ready(v),
        !v.done,
        !v.had_failure,
        v.attempt == 0,
        outcomes.len() <= v.steps.len() - v.idx,
        forall|i: int| 0 <= i < outcomes.len() ==> (#[trigger] outcomes[i]).status is Success,
    ensures
        ({
            let after = engine_run(v, outcomes, now);
            &&& after.steps == v.steps
            &&& after.policy == v.policy
            &&& after.started_at == v.started_at
            &&& after.idx == v.idx + outcomes.len()
            &&& after.attempt == 0
            &&& !after.had_failure
            &&& (after.done <==> v.idx + outcomes.len() == v.steps.len())
            &&& after.results.len() == v.results.len() + outcomes.len()
            &&& (forall|j: int| 0 <= j < v.results.len() ==> after.results[j] == v.results[j])
            &&& (forall|j: int|
                0 <= j < outcomes.len() ==> after.results[v.results.len() + j]
                    == attempt_record(v.steps[v.idx + j], #[trigger] outcomes[j]))
            &&& engine_ready(after)
        }),
    decreases outcomes.len(),
{
    if outcomes.len() == 0 {
    } else {
        let o = outcomes[0];
        assert(o.status is Success);
        let rec = attempt_record(v.steps[v.idx], o);
        let mid = EngineV { idx: v.idx + 1, attempt: 0, results: v.results.push(rec), ..v };
        let stepped = engine_step(v, o, now);
        assert(stepped == engine_settle(mid, now));
        if mid.idx == v.steps.len() {
            assert(stepped =~= EngineV { done: true, ..mid });
            assert(outcomes.len() == 1);
            assert(engine_run(v, outcomes, now) == engine_run(
                stepped,
                outcomes.drop_first(),
                now,
            ));
            assert(outcomes.drop_first().len() == 0);
            assert(engine_run(v, outcomes, now) == stepped);
        } else {
            assert(!(mid.had_failure && mid.steps[mid.idx].depends_on_previous));
            assert(max_attempts_of(mid.policy) > 0);
            assert(stepped =~= mid);
            lemma_run_of_successes(stepped, outcomes.drop_first(), now);
            let after = engine_run(stepped, outcomes.drop_first(), now);
            assert(engine_run(v, outcomes, now) == after);
            assert forall|j: int| 0 <= j < outcomes.len() implies after.results[v.results.len()
                + j] == attempt_record(v.steps[v.idx + j], #[trigger] outcomes[j]) by {
                if j == 0 {
                    assert(after.results[v.results.len() as int] == mid.results[v.results.len()
                        as int]);
                } else {
                    assert(outcomes.drop_first()[j - 1] == outcomes[j]);
                    assert(after.results[mid.results.len() + (j - 1)] == attempt_record(
                        mid.steps[mid.idx + (j - 1)],
                        outcomes.drop_first()[j - 1],
                    ));
                }
            }
        }
    }
}

/// Under the stop policy, a run whose first `k` steps succeed and whose
/// step `k` then fails halts right there: that failure is recorded, every
/// remaining step — exactly `n - k - 1` of them — is recorded as skipped,
/// and the run is a failure when no step succeeded (`k == 0`) and a
/// partial success otherwise.
pub proof fn lemma_stop_halts_at_failure(
    steps: Seq<StepV>,
    successes: Seq<OutcomeV>,
    failure: OutcomeV,
    started_at: u64,
    now: u64,
)
    requires
        successes.len() < steps.len(),
        forall|i: int| 0 <= i < successes.len() ==> (#[trigger] successes[i]).status is Success,
        failure.status is Failed,
    ensures
        ({
            let k = successes.len() as int;
            let n = steps.len() as int;
            let after = engine_run(
                engine_init(steps, FailureAction::Stop, started_at),
                successes.push(failure),
                now,
            );
            &&& after.done
            &&& after.had_failure
            &&& after.results.len() == n
            &&& (forall|i: int| 0 <= i < k ==> (#[trigger] after.results[i]).status is Success)
            &&& after.results[k].status is Failed
            &&& (forall|i: int| k < i < n ==> (#[trigger] after.results[i]).status is Skipped)
            &&& run_outcome(after.had_failure, after.results) == (if k > 0 {
                RunStatus::PartialSuccess
            } else {
                RunStatus::Failed
            })
        }),
{
    let k = successes.len() as int;
    let n = steps.len() as int;
    let v0 = engine_init(steps, FailureAction::Stop, started_at);
    let raw = EngineV {
        steps,
        policy: FailureAction::Stop,
        idx: 0,
        attempt: 0,
        results: Seq::empty(),
        had_failure: false,
        done: false,
        started_at,
    };
    assert(v0 == engine_settle(raw, started_at));
    assert(v0 =~= raw);
    lemma_run_of_successes(v0, successes, now);
    let at_k = engine_run(v0, successes, now);
    lemma_engine_run_push(v0, successes, failure, now);
    let after = engine_step(at_k, failure, now);
    assert(engine_run(v0, successes.push(failure), now) == after);
    let rec = attempt_record(steps[k], failure);
    assert(after =~= EngineV {
        results: at_k.results.push(rec) + stop_skips(steps, k + 1, n, now),
        idx: n,
        attempt: 0,
        had_failure: true,
        done: true,
        ..at_k
    });
    lemma_stop_skips_props(steps, k + 1, n, now);
    assert(after.results.len() == n);
    assert forall|i: int| 0 <= i < k implies (#[trigger] after.results[i]).status
        is Success by {
        assert(after.results[i] == at_k.results[i]);
        assert(at_k.results[i] == attempt_record(steps[i], successes[i]));
    }
    assert(after.results[k] == rec);
    assert forall|i: int| k < i < n implies (#[trigger] after.results[i]).status is Skipped by {
        assert(after.results[i] == stop_skips(steps, k + 1, n, now)[i - (k + 1)]);
        assert(stop_skips(steps, k + 1, n, now)[i - (k + 1)] == stop_skip_record(steps[i], now));
    }
    assert(!(after.results[k].status is Success || after.results[k].status is Skipped));
    if k > 0 {
        assert(after.results[0].status is Success);
        assert(run_outcome(after.had_failure, after.results) == RunStatus::PartialSuccess);
    } else {
        assert forall|i: int|
            0 <= i < after.results.len() implies !((#[trigger] after.results[i]).status
            is Success) by {
            if i == 0 {
                assert(after.results[0] == rec);
            } else {
                assert(after.results[i].status is Skipped);
            }
        }
        assert(run_outcome(after.had_failure, after.results) == RunStatus::Failed);
    }
}

/// Under a retry policy of three attempts, a step that fails twice and
/// succeeds on the third attempt records exactly one result — the
/// success; the discarded attempts leave no record, and anything recorded
/// after it is a skip of a later step.
pub proof fn lemma_retry_records_only_success(
    v: EngineV,
    f1: OutcomeV,
    f2: OutcomeV,
    s3: OutcomeV,
    now: u64,
)
    requires
        engine_ready(v),
        !v.done,
        v.attempt == 0,
        v.policy == (FailureAction::Retry { max_attempts: 3u32 }),
        f1.status is Failed,
        f2.status is Failed,
        s3.status is Success,
    ensures
        ({
            let after = engine_run(v, seq![f1, f2, s3], now);
            let rec = attempt_record(v.steps[v.idx], s3);
            &&& after == engine_settle(
                EngineV { idx: v.idx + 1, attempt: 0, results: v.results.push(rec), ..v },
                now,
            )
            &&& rec.status is Success
            &&& after.results.len() >= v.results.len() + 1
            &&& (forall|j: int| 0 <= j < v.results.len() ==> after.results[j] == v.results[j])
            &&& after.results[v.results.len() as int] == rec
            &&& (forall|j: int|
                v.results.len() + 1 <= j < after.results.len() ==> (#[trigger] after.results[
                    j
                ]).status is Skipped)
        }),
{
    let outs = seq![f1, f2, s3];
    assert(outs[0] == f1);
    assert(outs.drop_first() =~= seq![f2, s3]);
    assert(outs.drop_first()[0] == f2);
    assert(outs.drop_first().drop_first() =~= seq![s3]);
    assert(seq![s3][0] == s3);
    assert(seq![s3].drop_first() =~= Seq::<OutcomeV>::empty());
    let v1 = engine_step(v, f1, now);
    assert(max_attempts_of(v.policy) == 3);
    assert(v1 =~= EngineV { attempt: 1, ..v });
    let v2 = engine_step(v1, f2, now);
    assert(v2 =~= EngineV { attempt: 2, ..v });
    let rec = attempt_record(v.steps[v.idx], s3);
    let mid = EngineV { idx: v.idx + 1, attempt: 0, results: v.results.push(rec), ..v };
    let v3 = engine_step(v2, s3, now);
    assert(v3 == engine_settle(mid, now));
    assert(engine_run(v, outs, now) == engine_run(v1, seq![f2, s3], now));
    assert(engine_run(v1, seq![f2, s3], now) == engine_run(v2, seq![s3], now));
    assert(engine_run(v2, seq![s3], now) == engine_run(v3, Seq::<OutcomeV>::empty(), now));
    assert(engine_run(v3, Seq::<OutcomeV>::empty(), now) == v3);
    assert(engine_run(v, outs, now) == v3);
    lemma_settle_props(mid, now);
    assert(v3.results[v.results.len() as int] == mid.results[v.results.len() as int]);
}

/// Under skip-and-continue, a two-step task with one failing and one
/// succeeding step — in either order — finishes as a partial success.
pub proof fn lemma_mixed_pair_is_partial(
    steps: Seq<StepV>,
    o0: OutcomeV,
    o1: OutcomeV,
    started_at: u64,
    now: u64,
)
    requires
        steps.len() == 2,
        !steps[1].depends_on_previous,
        (o0.status is Failed && o1.status is Success) || (o0.status is Success && o1.status
            is Failed),
    ensures
        ({
            let after = engine_run(
                engine_init(steps, FailureAction::SkipAndContinue, started_at),
                seq![o0, o1],
                now,
            );
            &&& after.done
            &&& after.results.len() == 2
            &&& run_outcome(after.had_failure, after.results) == RunStatus::PartialSuccess
        }),
{
    let outs = seq![o0, o1];
    assert(outs[0] == o0);
    assert(outs.drop_first() =~= seq![o1]);
    assert(seq![o1][0] == o1);
    assert(seq![o1].drop_first() =~= Seq::<OutcomeV>::empty());
    let raw = EngineV {
        steps,
        policy: FailureAction::SkipAndContinue,
        idx: 0,
        attempt: 0,
        results: Seq::empty(),
        had_failure: false,
        done: false,
        started_at,
    };
    let v0 = engine_init(steps, FailureAction::SkipAndContinue, started_at);
    assert(v0 == engine_settle(raw, started_at));
    assert(v0 =~= raw);
    let rec0 = attempt_record(steps[0], o0);
    let v1 = engine_step(v0, o0, now);
    let mid1 = EngineV { idx: 1, attempt: 0, results: v0.results.push(rec0), ..v0 };
    let mid1f = EngineV { had_failure: true, ..mid1 };
    if o0.status is Success {
        assert(v1 == engine_settle(mid1, now));
        assert(v1 =~= mid1);
    } else {
        assert(max_attempts_of(v0.policy) == 1);
        assert(v1 == engine_settle(mid1f, now));
        assert(!(mid1f.had_failure && mid1f.steps[1].depends_on_previous));
        assert(v1 =~= mid1f);
    }
    let rec1 = attempt_record(steps[1], o1);
    let v2 = engine_step(v1, o1, now);
    assert(v2.done);
    assert(v2.results =~= seq![rec0, rec1]);
    assert(v2.had_failure);
    assert(engine_run(v0, outs, now) == engine_run(v1, seq![o1], now));
    assert(engine_run(v1, seq![o1], now) == engine_run(v2, Seq::<OutcomeV>::empty(), now));
    assert(engine_run(v2, Seq::<OutcomeV>::empty(), now) == v2);
    assert(engine_run(v0, outs, now) == v2);
    if o0.status is Failed {
        assert(!(v2.results[0].status is Success || v2.results[0].status is Skipped));
        assert(v2.results[1].status is Success);
    } else {
        assert(!(v2.results[1].status is Success || v2.results[1].status is Skipped));
        assert(v2.results[0].status is Success);
    }
    assert(run_outcome(v2.had_failure, v2.results) == RunStatus::PartialSuccess);
}

/// A finished run whose every recorded result is a success or a skip,
/// with at least one result recorded, counts as a success even after a
/// failure: such a run was inert, not harmful.
pub proof fn lemma_benign_run_is_success(had_failure: bool, results: Seq<StepResultV>)
    requires
        results.len() > 0,
        forall|i: int|
            0 <= i < results.len() ==> (#[trigger] results[i]).status is Success || results[
                i
            ].status is Skipped,
    ensures
        run_outcome(had_failure, results) == RunStatus::Success,
{
}

/// Computes [`run_outcome`] over recorded results.
pub fn compute_outcome(had_failure: bool, results: &Vec<StepResult>) -> (r: RunStatus)
    ensures
        r == run_outcome(had_failure, results.deep_view()),
{
    if !had_failure {
        return RunStatus::Success;
    }
    let mut any_success: bool = false;
    let mut all_benign: bool = true;
    let mut i: usize = 0;
    while i < results.len()
        invariant
            i <= results@.len(),
            any_success == exists|j: int|
                0 <= j < i && (#[trigger] results.deep_view()[j]).status is Success,
            all_benign == forall|j: int|
                0 <= j < i ==> (#[trigger] results.deep_view()[j]).status is Success
                    || results.deep_view()[j].status is Skipped,
        decreases results@.len() - i,
    {
        proof {
            assert(results.deep_view()[i as int] == results@[i as int]@);
        }
        let is_success = matches!(results[i].status, StepStatus::Success);
        let is_skipped = matches!(results[i].status, StepStatus::Skipped);
        if is_success {
            any_success = true;
        }
        if !is_success && !is_skipped {
            all_benign = false;
        }
        i = i + 1;
    }
    if results.len() > 0 && all_benign {
        RunStatus::Success
    } else if any_success {
        RunStatus::PartialSuccess
    } else {
        RunStatus::Failed
    }
}

/// A notification published to observers of a run.  Observers are not
/// acknowledged and cannot affect execution.
#[derive(Clone, Debug, PartialEq)]
pub struct TaskEvent {
    pub task_id: String,
    pub task_name: String,
    pub event_type: TaskEventType,
}

/// What a [`TaskEvent`] reports.
#[derive(Clone, Debug, PartialEq)]
pub enum TaskEventType {
    /// Task execution started.
    Started,
    /// A step completed, successfully or not, or was skipped.
    StepCompleted {
        step_id: String,
        step_name: String,
        status: StepStatus,
        output: Option<String>,
        error: Option<String>,
    },
    /// The whole task finished.
    Finished { status: RunStatus },
}

/// The name of the first step with the given id, or empty when none
/// carries it.
pub open spec fn step_name_for(steps: Seq<StepV>, id: Seq<char>) -> Seq<char>
    decreases steps.len(),
{
    if steps.len() == 0 {
        Seq::empty()
    } else if steps[0].id == id {
        steps[0].name
    } else {
        step_name_for(steps.drop_first(), id)
    }
}

/// A scan deciding [`step_name_for`]: different ids before `i`, a match
/// at `i`.
proof fn lemma_step_name_hit(steps: Seq<StepV>, id: Seq<char>, i: int)
    requires
        0 <= i < steps.len(),
        forall|k: int| 0 <= k < i ==> (#[trigger] steps[k]).id != id,
        steps[i].id == id,
    ensures
        step_name_for(steps, id) == steps[i].name,
    decreases i,
{
    if i > 0 {
        assert(steps[0].id != id);
        assert forall|k: int| 0 <= k < i - 1 implies (#[trigger] steps.drop_first()[k]).id
            != id by {
            assert(steps.drop_first()[k] == steps[k + 1]);
        }
        assert(steps.drop_first()[i - 1] == steps[i]);
        lemma_step_name_hit(steps.drop_first(), id, i - 1);
    }
}

/// A scan deciding [`step_name_for`]: no id matches.
proof fn lemma_step_name_miss(steps: Seq<StepV>, id: Seq<char>)
    requires
        forall|k: int| 0 <= k < steps.len() ==> (#[trigger] steps[k]).id != id,
    ensures
        step_name_for(steps, id) == Seq::<char>::empty(),
    decreases steps.len(),
{
    if steps.len() > 0 {
        assert(steps[0].id != id);
        assert forall|k: int| 0 <= k < steps.len() - 1 implies (#[trigger] steps.drop_first()[
            k
        ]).id != id by {
            assert(steps.drop_first()[k] == steps[k + 1]);
        }
        lemma_step_name_miss(steps.drop_first(), id);
    }
}

/// The notification that a task's run began.
pub fn started_event(task: &ScheduledTask) -> (e: TaskEvent)
    ensures
        e.task_id@ == task@.id,
        e.task_name@ == task@.name,
        e.event_type is Started,
{
    TaskEvent {
        task_id: task.id.clone(),
        task_name: task.name.clone(),
        event_type: TaskEventType::Started,
    }
}

/// Looks up the name of the first step with the given id; empty when no
/// step carries it.
fn step_name_in(steps: &Vec<TaskStep>, id: &str) -> (r: String)
    ensures
        r@ == step_name_for(steps.deep_view(), id@),
{
    let mut i: usize = 0;
    while i < steps.len()
        invariant
            i <= steps@.len(),
            forall|k: int| 0 <= k < i ==> (#[trigger] steps.deep_view()[k]).id != id@,
        decreases steps@.len() - i,
    {
        proof {
            assert(steps.deep_view()[i as int] == steps@[i as int].deep_view());
        }
        if crate::text::str_eq(steps[i].id.as_str(), id) {
            proof {
                lemma_step_name_hit(steps.deep_view(), id@, i as int);
            }
            return steps[i].name.clone();
        }
        i = i + 1;
    }
    proof {
        lemma_step_name_miss(steps.deep_view(), id@);
    }
    let r = String::new();
    proof {
        assert(r@ =~= Seq::<char>::empty());
    }
    r
}

/// The notification that one step completed, carrying the step's name
/// looked up by its id (empty when the id is not among the task's steps).
pub fn step_completed_event(task: &ScheduledTask, result: &StepResult) -> (e: TaskEvent)
    ensures
        e.task_id@ == task@.id,
        e.task_name@ == task@.name,
        (match e.event_type {
            TaskEventType::StepCompleted { step_id, step_name, status, output, error } => {
                &&& step_id@ == result@.step_id
                &&& step_name@ == step_name_for(task@.steps, result@.step_id)
                &&& status == result@.status
                &&& output.deep_view() == result@.output
                &&& error.deep_view() == result@.error
            },
            _ => false,
        }),
{
    let name = step_name_in(&task.steps, result.step_id.as_str());
    TaskEvent {
        task_id: task.id.clone(),
        task_name: task.name.clone(),
        event_type: TaskEventType::StepCompleted {
            step_id: result.step_id.clone(),
            step_name: name,
            status: result.status,
            output: dup_opt_string(&result.output),
            error: dup_opt_string(&result.error),
        },
    }
}

/// The notification that a task's run finished with the given status;
/// always the last notification of the run.
pub fn finished_event(task: &ScheduledTask, status: RunStatus) -> (e: TaskEvent)
    ensures
        e.task_id@ == task@.id,
        e.task_name@ == task@.name,
        e.event_type == (TaskEventType::Finished { status }),
{
    TaskEvent {
        task_id: task.id.clone(),
        task_name: task.name.clone(),
        event_type: TaskEventType::Finished { status },
    }
}

} // verus!
