use devtasks::model::{FailureAction, ScheduledTask};
use devtasks::sched::{plan_tick, run_task_now, RunNowQueue};
use devtasks::store::TaskStore;

const NOW: u64 = 1_700_000_000;

fn task(id: &str, enabled: bool, next_run: Option<u64>) -> ScheduledTask {
    ScheduledTask {
        id: id.to_string(),
        name: id.to_string(),
        description: String::new(),
        schedule: String::new(),
        cron_expression: "*/5 * * * *".to_string(),
        project_id: None,
        enabled,
        steps: vec![],
        on_failure: FailureAction::Stop,
        last_run: None,
        next_run,
        created_at: 0,
        updated_at: 0,
    }
}

#[test]
fn queueing_twice_is_the_same_as_once() {
    let mut queue = RunNowQueue::new();
    queue.queue_run_now("a");
    queue.queue_run_now("b");
    queue.queue_run_now("a");
    let drained = queue.drain();
    assert_eq!(drained, vec!["a".to_string(), "b".to_string()]);
    assert!(queue.drain().is_empty());
}

#[test]
fn a_tick_runs_requests_first_then_due_tasks() {
    let tasks = vec![
        task("due1", true, Some(NOW - 10)),
        task("asked", true, Some(NOW + 999)),
        task("late", true, Some(NOW)),
    ];
    let drained = vec!["asked".to_string()];
    let picked = plan_tick(&tasks, &drained, NOW);
    let ids: Vec<&str> = picked.iter().map(|t| t.id.as_str()).collect();
    assert_eq!(ids, vec!["asked", "due1", "late"]);
}

#[test]
fn a_task_both_asked_and_due_runs_once() {
    let tasks = vec![task("both", true, Some(NOW - 1))];
    let drained = vec!["both".to_string()];
    let picked = plan_tick(&tasks, &drained, NOW);
    assert_eq!(picked.len(), 1);
    assert_eq!(picked[0].id, "both");
}

#[test]
fn deleted_requests_and_disabled_tasks_are_passed_over() {
    let tasks = vec![task("off", false, Some(NOW - 1)), task("idle", true, None)];
    let drained = vec!["ghost".to_string()];
    let picked = plan_tick(&tasks, &drained, NOW);
    assert!(picked.is_empty());
}

#[test]
fn run_now_checks_existence_before_queueing() {
    let mut store = TaskStore::new();
    store.create_task(task("known", true, None), NOW).unwrap();
    let mut queue = RunNowQueue::new();
    assert!(run_task_now(&store, &mut queue, "known").is_ok());
    let err = run_task_now(&store, &mut queue, "ghost").unwrap_err();
    assert_eq!(err.message(), "Task not found: ghost");
    assert_eq!(queue.drain(), vec!["known".to_string()]);
}
