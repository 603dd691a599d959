use devtasks::codec::{decode_store, encode_store, store_from_text};
use devtasks::model::{
    Executor, FailureAction, RunStatus, ScheduledTask, StepAction, StepResult, StepStatus,
    TaskHistory, TaskRun, TaskStep,
};
use devtasks::store::TaskStore;

fn rich_store() -> TaskStore {
    let steps = vec![
        TaskStep {
            id: "s1".to_string(),
            name: "fetch".to_string(),
            executor: Executor::Web,
            action: StepAction::HttpRequest {
                url: "https://example.test/x".to_string(),
                method: "get".to_string(),
                headers: Some(vec![
                    ("Accept".to_string(), "application/json".to_string()),
                    ("X-Mark".to_string(), "a b \"c\"".to_string()),
                ]),
                body: Some("{\"k\": 1}".to_string()),
            },
            depends_on_previous: false,
        },
        TaskStep {
            id: "s2".to_string(),
            name: "commit".to_string(),
            executor: Executor::Local,
            action: StepAction::GitCommit { message: "nightly — automated".to_string() },
            depends_on_previous: true,
        },
        TaskStep {
            id: "s3".to_string(),
            name: "summarize".to_string(),
            executor: Executor::Ai,
            action: StepAction::GenerateContent {
                prompt: "write a summary\nwith two lines".to_string(),
                output_path: None,
            },
            depends_on_previous: false,
        },
    ];
    let run = TaskRun {
        started_at: 1_700_000_000,
        finished_at: Some(1_700_000_042),
        status: RunStatus::PartialSuccess,
        step_results: vec![
            StepResult {
                step_id: "s1".to_string(),
                status: StepStatus::Success,
                output: Some("HTTP 200 — ok".to_string()),
                error: None,
                started_at: 1_700_000_000,
                finished_at: Some(1_700_000_001),
            },
            StepResult {
                step_id: "s2".to_string(),
                status: StepStatus::Failed,
                output: None,
                error: Some("nothing to commit".to_string()),
                started_at: 1_700_000_001,
                finished_at: Some(1_700_000_002),
            },
        ],
    };
    let tasks = vec![
        ScheduledTask {
            id: "t1".to_string(),
            name: "nightly".to_string(),
            description: "does the rounds".to_string(),
            schedule: "Every day at midnight".to_string(),
            cron_expression: "0 0 * * *".to_string(),
            project_id: Some("proj-7".to_string()),
            enabled: true,
            steps,
            on_failure: FailureAction::Retry { max_attempts: 3 },
            last_run: Some(run.clone()),
            next_run: Some(1_700_086_400),
            created_at: 1_690_000_000,
            updated_at: 1_695_000_000,
        },
        ScheduledTask {
            id: "t2".to_string(),
            name: String::new(),
            description: String::new(),
            schedule: String::new(),
            cron_expression: "bad".to_string(),
            project_id: None,
            enabled: false,
            steps: vec![],
            on_failure: FailureAction::SkipAndContinue,
            last_run: None,
            next_run: None,
            created_at: 0,
            updated_at: 0,
        },
    ];
    let history = vec![
        TaskHistory { task_id: "t1".to_string(), runs: vec![run] },
        TaskHistory { task_id: "t2".to_string(), runs: vec![] },
    ];
    TaskStore { tasks, history }
}

#[test]
fn round_trip_reproduces_the_store_exactly() {
    let store = rich_store();
    let text = encode_store(&store);
    let back = decode_store(&text).expect("own encoding must parse");
    assert_eq!(back, store);
}

#[test]
fn empty_store_round_trips() {
    let store = TaskStore::new();
    let text = encode_store(&store);
    let back = decode_store(&text).unwrap();
    assert!(back.tasks.is_empty());
    assert!(back.history.is_empty());
}

#[test]
fn garbage_falls_back_to_an_empty_store() {
    assert!(decode_store("not a store at all").is_none());
    let store = store_from_text("{\"tasks\": []}");
    assert!(store.tasks.is_empty());
    assert!(store.history.is_empty());
}

#[test]
fn leftover_text_is_rejected() {
    let mut text = encode_store(&rich_store());
    text.push_str("trailing");
    assert!(decode_store(&text).is_none());
}

#[test]
fn truncated_text_is_rejected() {
    let text = encode_store(&rich_store());
    let cut: String = text.chars().take(text.chars().count() - 3).collect();
    assert!(decode_store(&cut).is_none());
}
