use devtasks::engine::{
    finished_event, started_event, step_completed_event, RunEngine, StepOutcome, TaskEventType,
};
use devtasks::model::{
    Executor, FailureAction, RunStatus, ScheduledTask, StepAction, StepStatus, TaskStep,
};

const T0: u64 = 1_000;

fn step(id: &str, depends: bool) -> TaskStep {
    TaskStep {
        id: id.to_string(),
        name: format!("step {}", id),
        executor: Executor::Local,
        action: StepAction::RunCommand { command: "true".to_string(), cwd: None },
        depends_on_previous: depends,
    }
}

fn task(policy: FailureAction, steps: Vec<TaskStep>) -> ScheduledTask {
    ScheduledTask {
        id: "t".to_string(),
        name: "t".to_string(),
        description: String::new(),
        schedule: String::new(),
        cron_expression: "*/5 * * * *".to_string(),
        project_id: None,
        enabled: true,
        steps,
        on_failure: policy,
        last_run: None,
        next_run: None,
        created_at: 0,
        updated_at: 0,
    }
}

fn outcome(status: StepStatus) -> StepOutcome {
    StepOutcome {
        status,
        output: match status {
            StepStatus::Success => Some("ok".to_string()),
            _ => None,
        },
        error: match status {
            StepStatus::Failed => Some("boom".to_string()),
            _ => None,
        },
        started_at: T0,
        finished_at: T0 + 1,
    }
}

#[test]
fn stop_policy_skips_all_remaining_steps() {
    let t = task(FailureAction::Stop, vec![step("a", false), step("b", false), step("c", false)]);
    let (mut engine, _) = RunEngine::new(&t, T0);
    assert_eq!(engine.next_step(), Some(0));
    let emitted = engine.feed(outcome(StepStatus::Failed), T0);
    // The failure plus two synthesized skips, in order.
    assert_eq!(emitted.len(), 3);
    assert!(engine.is_done());
    let run = engine.into_run(T0 + 9);
    assert_eq!(run.step_results.len(), 3);
    assert_eq!(run.step_results[0].status, StepStatus::Failed);
    assert_eq!(run.step_results[1].status, StepStatus::Skipped);
    assert_eq!(
        run.step_results[1].error.as_deref(),
        Some("Skipped: task stopped due to earlier failure")
    );
    assert_eq!(run.step_results[2].status, StepStatus::Skipped);
    assert_eq!(run.status, RunStatus::Failed);
    assert_eq!(run.finished_at, Some(T0 + 9));
}

#[test]
fn stop_after_success_is_partial() {
    let t = task(FailureAction::Stop, vec![step("a", false), step("b", false), step("c", false)]);
    let (mut engine, _) = RunEngine::new(&t, T0);
    engine.feed(outcome(StepStatus::Success), T0);
    engine.feed(outcome(StepStatus::Failed), T0);
    assert!(engine.is_done());
    let run = engine.into_run(T0 + 9);
    assert_eq!(run.step_results.len(), 3);
    assert_eq!(run.step_results[0].status, StepStatus::Success);
    assert_eq!(run.step_results[1].status, StepStatus::Failed);
    assert_eq!(run.step_results[2].status, StepStatus::Skipped);
    assert_eq!(run.status, RunStatus::PartialSuccess);
}

#[test]
fn retry_records_only_the_final_success() {
    let t = task(FailureAction::Retry { max_attempts: 3 }, vec![step("a", false)]);
    let (mut engine, _) = RunEngine::new(&t, T0);
    let e1 = engine.feed(outcome(StepStatus::Failed), T0);
    assert!(e1.is_empty());
    assert!(!engine.is_done());
    assert_eq!(engine.next_step(), Some(0));
    let e2 = engine.feed(outcome(StepStatus::Failed), T0);
    assert!(e2.is_empty());
    let e3 = engine.feed(outcome(StepStatus::Success), T0);
    assert_eq!(e3.len(), 1);
    assert!(engine.is_done());
    let run = engine.into_run(T0 + 9);
    assert_eq!(run.step_results.len(), 1);
    assert_eq!(run.step_results[0].status, StepStatus::Success);
    assert_eq!(run.status, RunStatus::Success);
}

#[test]
fn retry_exhausted_records_the_final_failure() {
    let t = task(FailureAction::Retry { max_attempts: 2 }, vec![step("a", false)]);
    let (mut engine, _) = RunEngine::new(&t, T0);
    engine.feed(outcome(StepStatus::Failed), T0);
    engine.feed(outcome(StepStatus::Failed), T0);
    assert!(engine.is_done());
    let run = engine.into_run(T0 + 9);
    assert_eq!(run.step_results.len(), 1);
    assert_eq!(run.step_results[0].status, StepStatus::Failed);
    assert_eq!(run.status, RunStatus::Failed);
}

#[test]
fn skip_and_continue_mixes_into_partial_success() {
    let t = task(FailureAction::SkipAndContinue, vec![step("a", false), step("b", false)]);
    let (mut engine, _) = RunEngine::new(&t, T0);
    engine.feed(outcome(StepStatus::Failed), T0);
    assert!(!engine.is_done());
    engine.feed(outcome(StepStatus::Success), T0);
    assert!(engine.is_done());
    let run = engine.into_run(T0 + 9);
    assert_eq!(run.status, RunStatus::PartialSuccess);
}

#[test]
fn success_then_failure_is_also_partial() {
    let t = task(FailureAction::SkipAndContinue, vec![step("a", false), step("b", false)]);
    let (mut engine, _) = RunEngine::new(&t, T0);
    engine.feed(outcome(StepStatus::Success), T0);
    engine.feed(outcome(StepStatus::Failed), T0);
    let run = engine.into_run(T0 + 9);
    assert_eq!(run.status, RunStatus::PartialSuccess);
}

#[test]
fn dependent_steps_are_skipped_after_a_failure() {
    let t = task(
        FailureAction::SkipAndContinue,
        vec![step("a", false), step("b", true), step("c", true)],
    );
    let (mut engine, _) = RunEngine::new(&t, T0);
    let emitted = engine.feed(outcome(StepStatus::Failed), T0 + 5);
    // The failed attempt and both dependent skips arrive together.
    assert_eq!(emitted.len(), 3);
    assert_eq!(emitted[1].status, StepStatus::Skipped);
    assert_eq!(emitted[1].error.as_deref(), Some("Skipped: previous step failed"));
    assert_eq!(emitted[1].started_at, T0 + 5);
    assert!(engine.is_done());
    let run = engine.into_run(T0 + 9);
    assert_eq!(run.status, RunStatus::Failed);
}

#[test]
fn an_inert_run_of_skips_counts_as_success() {
    // The first executor reports the step as skipped (a non-success,
    // non-failure status); every later step depends on its predecessor.
    let t = task(
        FailureAction::SkipAndContinue,
        vec![step("a", false), step("b", true), step("c", true)],
    );
    let (mut engine, _) = RunEngine::new(&t, T0);
    engine.feed(outcome(StepStatus::Skipped), T0);
    assert!(engine.is_done());
    let run = engine.into_run(T0 + 9);
    assert_eq!(run.step_results.len(), 3);
    assert!(run.step_results.iter().all(|r| r.status == StepStatus::Skipped));
    assert_eq!(run.status, RunStatus::Success);
}

#[test]
fn independent_steps_still_run_after_a_failure() {
    let t = task(FailureAction::SkipAndContinue, vec![step("a", false), step("b", false)]);
    let (mut engine, _) = RunEngine::new(&t, T0);
    engine.feed(outcome(StepStatus::Failed), T0);
    assert_eq!(engine.next_step(), Some(1));
    let s = engine.current_step().unwrap();
    assert_eq!(s.id, "b");
}

#[test]
fn empty_task_finishes_successfully_at_once() {
    let t = task(FailureAction::Stop, vec![]);
    let (engine, emitted) = RunEngine::new(&t, T0);
    assert!(emitted.is_empty());
    assert!(engine.is_done());
    let run = engine.into_run(T0);
    assert_eq!(run.status, RunStatus::Success);
    assert_eq!(run.started_at, T0);
}

#[test]
fn events_carry_task_and_step_details() {
    let t = task(FailureAction::Stop, vec![step("a", false)]);
    let started = started_event(&t);
    assert_eq!(started.task_id, "t");
    assert!(matches!(started.event_type, TaskEventType::Started));

    let (mut engine, _) = RunEngine::new(&t, T0);
    let emitted = engine.feed(outcome(StepStatus::Success), T0);
    let ev = step_completed_event(&t, &emitted[0]);
    match ev.event_type {
        TaskEventType::StepCompleted { step_id, step_name, status, output, .. } => {
            assert_eq!(step_id, "a");
            assert_eq!(step_name, "step a");
            assert_eq!(status, StepStatus::Success);
            assert_eq!(output.as_deref(), Some("ok"));
        }
        _ => panic!("expected a step completion"),
    }

    let fin = finished_event(&t, RunStatus::Success);
    assert!(matches!(fin.event_type, TaskEventType::Finished { status: RunStatus::Success }));
}

#[test]
fn step_name_lookup_falls_back_to_empty() {
    let t = task(FailureAction::Stop, vec![step("a", false)]);
    let orphan = devtasks::model::StepResult {
        step_id: "missing".to_string(),
        status: StepStatus::Failed,
        output: None,
        error: None,
        started_at: T0,
        finished_at: Some(T0),
    };
    let ev = step_completed_event(&t, &orphan);
    match ev.event_type {
        TaskEventType::StepCompleted { step_name, .. } => assert_eq!(step_name, ""),
        _ => panic!("expected a step completion"),
    }
}
