use devtasks::cron::{is_task_due, next_run_time, normalized_cron};
use devtasks::model::{FailureAction, ScheduledTask};

const NOW: u64 = 1_700_000_000;

fn bare_task(enabled: bool, next_run: Option<u64>) -> ScheduledTask {
    ScheduledTask {
        id: "t".to_string(),
        name: "t".to_string(),
        description: String::new(),
        schedule: String::new(),
        cron_expression: "*/5 * * * *".to_string(),
        project_id: None,
        enabled,
        steps: vec![],
        on_failure: FailureAction::Stop,
        last_run: None,
        next_run,
        created_at: 0,
        updated_at: 0,
    }
}

#[test]
fn five_field_expression_fires_strictly_later() {
    let next = next_run_time("*/5 * * * *", NOW).expect("valid expression");
    assert!(next > NOW);
}

#[test]
fn six_field_expression_fires_strictly_later() {
    let next = next_run_time("30 */5 * * * *", NOW).expect("valid expression");
    assert!(next > NOW);
}

#[test]
fn seven_field_expression_fires_strictly_later() {
    let next = next_run_time("0 0 12 * * * *", NOW).expect("valid expression");
    assert!(next > NOW);
}

#[test]
fn exact_next_instant_of_hourly_schedule() {
    // 1_700_000_000 is 2023-11-14 22:13:20 UTC; minute zero next strikes
    // at 23:00:00, 1_700_002_800.
    assert_eq!(next_run_time("0 * * * *", NOW), Some(1_700_002_800));
}

#[test]
fn malformed_expression_yields_nothing() {
    assert_eq!(next_run_time("every day at noon", NOW), None);
    assert_eq!(next_run_time("* * *", NOW), None);
    assert_eq!(next_run_time("", NOW), None);
}

#[test]
fn normalization_pads_five_and_six_fields() {
    assert_eq!(normalized_cron("*/5 * * * *").unwrap(), "0 */5 * * * * *");
    assert_eq!(normalized_cron("30 */5 * * * *").unwrap(), "0 30 */5 * * * *");
    assert_eq!(normalized_cron("0 0 12 * * * 2099").unwrap(), "0 0 12 * * * 2099");
    assert_eq!(normalized_cron("* * * *"), None);
}

#[test]
fn disabled_task_is_never_due() {
    assert!(!is_task_due(&bare_task(false, Some(0)), NOW));
    assert!(!is_task_due(&bare_task(false, Some(NOW)), NOW));
    assert!(!is_task_due(&bare_task(false, None), NOW));
}

#[test]
fn due_needs_a_past_or_present_instant() {
    assert!(is_task_due(&bare_task(true, Some(NOW)), NOW));
    assert!(is_task_due(&bare_task(true, Some(NOW - 1)), NOW));
    assert!(!is_task_due(&bare_task(true, Some(NOW + 1)), NOW));
    assert!(!is_task_due(&bare_task(true, None), NOW));
}
