use devtasks::model::{
    Executor, FailureAction, RunStatus, ScheduledTask, StepAction, StepStatus, StepResult,
    TaskRun, TaskStep,
};
use devtasks::store::{StoreError, TaskStore};

fn step(id: &str, name: &str) -> TaskStep {
    TaskStep {
        id: id.to_string(),
        name: name.to_string(),
        executor: Executor::Local,
        action: StepAction::RunCommand { command: "true".to_string(), cwd: None },
        depends_on_previous: false,
    }
}

fn task(id: &str, cron: &str, steps: Vec<TaskStep>) -> ScheduledTask {
    ScheduledTask {
        id: id.to_string(),
        name: "nightly".to_string(),
        description: "a test task".to_string(),
        schedule: "every five minutes".to_string(),
        cron_expression: cron.to_string(),
        project_id: None,
        enabled: true,
        steps,
        on_failure: FailureAction::Stop,
        last_run: None,
        next_run: None,
        created_at: 0,
        updated_at: 0,
    }
}

fn run_at(ts: u64) -> TaskRun {
    TaskRun {
        started_at: ts,
        finished_at: Some(ts + 1),
        status: RunStatus::Success,
        step_results: vec![StepResult {
            step_id: "s".to_string(),
            status: StepStatus::Success,
            output: None,
            error: None,
            started_at: ts,
            finished_at: Some(ts + 1),
        }],
    }
}

const NOW: u64 = 1_700_000_000;

#[test]
fn create_generates_nonempty_unique_ids() {
    let mut store = TaskStore::new();
    let a = store.create_task(task("", "*/5 * * * *", vec![]), NOW).unwrap();
    let b = store.create_task(task("", "*/5 * * * *", vec![]), NOW).unwrap();
    assert!(!a.id.is_empty());
    assert!(!b.id.is_empty());
    assert_ne!(a.id, b.id);
}

#[test]
fn create_generates_unique_step_ids() {
    let mut store = TaskStore::new();
    let t = task("t1", "*/5 * * * *", vec![step("", "one"), step("", "two"), step("kept", "three")]);
    let stored = store.create_task(t, NOW).unwrap();
    assert!(!stored.steps[0].id.is_empty());
    assert!(!stored.steps[1].id.is_empty());
    assert_ne!(stored.steps[0].id, stored.steps[1].id);
    assert_ne!(stored.steps[0].id, stored.steps[2].id);
    assert_eq!(stored.steps[2].id, "kept");
}

#[test]
fn create_leaves_distinct_given_step_ids_all_distinct() {
    let mut store = TaskStore::new();
    let t = task(
        "t2",
        "*/5 * * * *",
        vec![step("", "gen1"), step("left", "a"), step("", "gen2"), step("right", "b")],
    );
    let stored = store.create_task(t, NOW).unwrap();
    for i in 0..stored.steps.len() {
        assert!(!stored.steps[i].id.is_empty());
        for j in 0..stored.steps.len() {
            if i != j {
                assert_ne!(stored.steps[i].id, stored.steps[j].id);
            }
        }
    }
    assert_eq!(stored.steps[1].id, "left");
    assert_eq!(stored.steps[3].id, "right");
}

#[test]
fn create_keeps_given_id_and_stamps() {
    let mut store = TaskStore::new();
    let stored = store.create_task(task("fixed", "*/5 * * * *", vec![]), NOW).unwrap();
    assert_eq!(stored.id, "fixed");
    assert_eq!(stored.created_at, NOW);
    assert_eq!(stored.updated_at, NOW);
    let next = stored.next_run.expect("a valid cron expression has a next firing");
    assert!(next > NOW);
}

#[test]
fn create_with_bad_cron_leaves_task_dormant() {
    let mut store = TaskStore::new();
    let stored = store.create_task(task("t", "not a cron", vec![]), NOW).unwrap();
    assert_eq!(stored.next_run, None);
}

#[test]
fn update_missing_fails_and_leaves_store_unchanged() {
    let mut store = TaskStore::new();
    store.create_task(task("a", "*/5 * * * *", vec![]), NOW).unwrap();
    let before = store.get_tasks();
    let err = store.update_task(task("ghost", "*/5 * * * *", vec![]), NOW).unwrap_err();
    let StoreError::NotFound { task_id } = err.clone();
    assert_eq!(task_id, "ghost");
    assert_eq!(err.message(), "Task not found: ghost");
    assert_eq!(store.get_tasks(), before);
}

#[test]
fn update_restamps_and_recomputes() {
    let mut store = TaskStore::new();
    store.create_task(task("a", "*/5 * * * *", vec![]), NOW).unwrap();
    let mut changed = task("a", "0 12 * * *", vec![]);
    changed.name = "renamed".to_string();
    let stored = store.update_task(changed, NOW + 50).unwrap();
    assert_eq!(stored.name, "renamed");
    assert_eq!(stored.updated_at, NOW + 50);
    assert!(stored.next_run.unwrap() > NOW + 50);
    assert_eq!(store.get_task("a").unwrap().name, "renamed");
}

#[test]
fn delete_removes_task_and_history() {
    let mut store = TaskStore::new();
    store.create_task(task("a", "*/5 * * * *", vec![]), NOW).unwrap();
    store.create_task(task("b", "*/5 * * * *", vec![]), NOW).unwrap();
    store.record_run("a", run_at(NOW), NOW);
    store.delete_task("a").unwrap();
    assert!(store.get_task("a").is_err());
    assert!(store.get_task("b").is_ok());
    assert!(store.get_task_history("a").is_empty());
}

#[test]
fn delete_missing_fails() {
    let mut store = TaskStore::new();
    let err = store.delete_task("nope").unwrap_err();
    assert_eq!(err.message(), "Task not found: nope");
}

#[test]
fn toggle_disables_without_touching_next_run() {
    let mut store = TaskStore::new();
    let created = store.create_task(task("a", "*/5 * * * *", vec![]), NOW).unwrap();
    let stale = created.next_run;
    let off = store.toggle_task("a", NOW + 10).unwrap();
    assert!(!off.enabled);
    assert_eq!(off.next_run, stale);
}

#[test]
fn toggle_enabling_recomputes_future_next_run() {
    let mut store = TaskStore::new();
    store.create_task(task("a", "*/5 * * * *", vec![]), NOW).unwrap();
    store.toggle_task("a", NOW + 10).unwrap();
    // Much later, re-enable: the stale instant must be replaced by a
    // future one even though the cron expression never changed.
    let much_later = NOW + 1_000_000;
    let on = store.toggle_task("a", much_later).unwrap();
    assert!(on.enabled);
    assert!(on.next_run.unwrap() > much_later);
}

#[test]
fn toggle_missing_fails() {
    let mut store = TaskStore::new();
    assert!(store.toggle_task("nope", NOW).is_err());
}

#[test]
fn record_run_sets_last_run_and_advances_schedule() {
    let mut store = TaskStore::new();
    store.create_task(task("a", "*/5 * * * *", vec![]), NOW).unwrap();
    store.record_run("a", run_at(NOW + 100), NOW + 100);
    let t = store.get_task("a").unwrap();
    assert_eq!(t.last_run.unwrap().started_at, NOW + 100);
    assert!(t.next_run.unwrap() > NOW + 100);
    assert_eq!(store.get_task_history("a").len(), 1);
}

#[test]
fn record_run_keeps_only_twenty_newest() {
    let mut store = TaskStore::new();
    store.create_task(task("a", "*/5 * * * *", vec![]), NOW).unwrap();
    for k in 0..25u64 {
        store.record_run("a", run_at(NOW + k), NOW + k);
    }
    let runs = store.get_task_history("a");
    assert_eq!(runs.len(), 20);
    // Oldest evicted first: the five earliest runs are gone.
    assert_eq!(runs[0].started_at, NOW + 5);
    assert_eq!(runs[19].started_at, NOW + 24);
}

#[test]
fn record_run_for_unknown_task_still_logs() {
    let mut store = TaskStore::new();
    store.record_run("ghost", run_at(NOW), NOW);
    assert_eq!(store.get_task_history("ghost").len(), 1);
}

#[test]
fn get_task_history_empty_when_unknown() {
    let store = TaskStore::new();
    assert!(store.get_task_history("nobody").is_empty());
}
