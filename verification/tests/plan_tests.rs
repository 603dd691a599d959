use devtasks::mime::content_type_for;
use devtasks::model::{Executor, StepAction, StepStatus, TaskStep};
use devtasks::plan::{classify_exit, http_result, plan_step, spawn_failure, ShellPost, StepPlan};

const HOME: &str = "/home/me";

fn step_with(executor: Executor, action: StepAction) -> TaskStep {
    TaskStep {
        id: "s".to_string(),
        name: "s".to_string(),
        executor,
        action,
        depends_on_previous: false,
    }
}

fn shell_of(plan: StepPlan) -> (Vec<String>, String, ShellPost) {
    match plan {
        StepPlan::Shell { commands, cwd, post } => (commands, cwd, post),
        StepPlan::Done { .. } => panic!("expected a shell plan"),
    }
}

fn done_of(plan: StepPlan) -> (StepStatus, Option<String>, Option<String>) {
    match plan {
        StepPlan::Done { status, output, error } => (status, output, error),
        StepPlan::Shell { .. } => panic!("expected a decided plan"),
    }
}

#[test]
fn run_command_uses_given_directory_or_home() {
    let s = step_with(
        Executor::Local,
        StepAction::RunCommand { command: "make all".to_string(), cwd: Some("/tmp".to_string()) },
    );
    let (cmds, cwd, post) = shell_of(plan_step(&s, &None, HOME));
    assert_eq!(cmds, vec!["make all".to_string()]);
    assert_eq!(cwd, "/tmp");
    assert_eq!(post, ShellPost::Plain);

    let s2 = step_with(
        Executor::Local,
        StepAction::RunCommand { command: "ls".to_string(), cwd: None },
    );
    let (_, cwd2, _) = shell_of(plan_step(&s2, &None, HOME));
    assert_eq!(cwd2, HOME);
}

#[test]
fn backup_files_copies_recursively() {
    let s = step_with(
        Executor::Local,
        StepAction::BackupFiles { source: "/a dir".to_string(), destination: "/b".to_string() },
    );
    let (cmds, cwd, _) = shell_of(plan_step(&s, &None, HOME));
    assert_eq!(cmds, vec!["cp -r \"/a dir\" \"/b\"".to_string()]);
    assert_eq!(cwd, HOME);
}

#[test]
fn git_commit_stages_then_commits_in_project() {
    let s = step_with(
        Executor::Local,
        StepAction::GitCommit { message: "nightly".to_string() },
    );
    let project = Some("/work/proj".to_string());
    let (cmds, cwd, _) = shell_of(plan_step(&s, &project, HOME));
    assert_eq!(cmds, vec!["git add -A".to_string(), "git commit -m \"nightly\"".to_string()]);
    assert_eq!(cwd, "/work/proj");
}

#[test]
fn git_push_defaults_remote_and_branch() {
    let s = step_with(Executor::Local, StepAction::GitPush { remote: None, branch: None });
    let (cmds, cwd, _) = shell_of(plan_step(&s, &None, HOME));
    assert_eq!(cmds, vec!["git push origin main".to_string()]);
    assert_eq!(cwd, HOME);

    let s2 = step_with(
        Executor::Local,
        StepAction::GitPush { remote: Some("up".to_string()), branch: Some("dev".to_string()) },
    );
    let (cmds2, _, _) = shell_of(plan_step(&s2, &None, HOME));
    assert_eq!(cmds2, vec!["git push up dev".to_string()]);
}

#[test]
fn scripts_pick_an_interpreter_by_extension() {
    for (path, cmd, dir) in [
        ("/x/run.sh", "bash \"/x/run.sh\"", "/x"),
        ("/x/job.py", "python3 \"/x/job.py\"", "/x"),
        ("/x/job.js", "node \"/x/job.js\"", "/x"),
        ("/x/job.ps1", "powershell -File \"/x/job.ps1\"", "/x"),
        ("/x/job.bat", "\"/x/job.bat\"", "/x"),
        ("/x/job.weird", "bash \"/x/job.weird\"", "/x"),
        ("job.py", "python3 \"job.py\"", "."),
        ("/top.sh", "bash \"/top.sh\"", "/"),
        ("/x/.hidden", "bash \"/x/.hidden\"", "/x"),
    ] {
        let s = step_with(Executor::Local, StepAction::RunScript { path: path.to_string() });
        let (cmds, cwd, _) = shell_of(plan_step(&s, &None, HOME));
        assert_eq!(cmds, vec![cmd.to_string()], "for {}", path);
        assert_eq!(cwd, dir, "for {}", path);
    }
}

#[test]
fn delete_files_builds_a_find_command() {
    let s = step_with(
        Executor::Local,
        StepAction::DeleteFiles { path: "/logs".to_string(), pattern: "*.tmp".to_string() },
    );
    let (cmds, _, _) = shell_of(plan_step(&s, &None, HOME));
    assert_eq!(cmds, vec!["find \"/logs\" -name \"*.tmp\" -delete".to_string()]);
}

#[test]
fn foreign_actions_are_refused_per_executor() {
    let web_action = StepAction::HttpRequest {
        url: "http://e".to_string(),
        method: "GET".to_string(),
        headers: None,
        body: None,
    };
    let (status, _, error) = done_of(plan_step(&step_with(Executor::Local, web_action), &None, HOME));
    assert_eq!(status, StepStatus::Failed);
    assert_eq!(error.as_deref(), Some("Action type not supported by Local executor"));

    let local_action = StepAction::RunCommand { command: "ls".to_string(), cwd: None };
    let (_, _, err2) = done_of(plan_step(&step_with(Executor::Web, local_action.clone()), &None, HOME));
    assert_eq!(err2.as_deref(), Some("Action type not supported by Web executor"));

    let (_, _, err3) = done_of(plan_step(&step_with(Executor::Ai, local_action), &None, HOME));
    assert_eq!(err3.as_deref(), Some("Action type not supported by AI executor"));
}

#[test]
fn http_request_becomes_a_curl_command() {
    let s = step_with(
        Executor::Web,
        StepAction::HttpRequest {
            url: "https://api.test/v1".to_string(),
            method: "post".to_string(),
            headers: Some(vec![("X-K".to_string(), "v v".to_string())]),
            body: Some("{}".to_string()),
        },
    );
    let (cmds, cwd, post) = shell_of(plan_step(&s, &None, HOME));
    assert_eq!(post, ShellPost::Http);
    assert_eq!(cwd, HOME);
    let expected = "curl -s -w \\n%{http_code} -X POST -H \"X-K: v v\" -d {} -H \"Content-Type: application/json\" https://api.test/v1";
    assert_eq!(cmds, vec![expected.to_string()]);
}

#[test]
fn a_given_content_type_is_not_duplicated() {
    let s = step_with(
        Executor::Web,
        StepAction::HttpRequest {
            url: "https://api.test".to_string(),
            method: "put".to_string(),
            headers: Some(vec![("Content-TYPE".to_string(), "text/plain".to_string())]),
            body: Some("x".to_string()),
        },
    );
    let (cmds, _, _) = shell_of(plan_step(&s, &None, HOME));
    assert!(!cmds[0].contains("application/json"), "{}", cmds[0]);
    assert!(cmds[0].contains("-X PUT"));
}

#[test]
fn webhook_posts_its_payload() {
    let s = step_with(
        Executor::Web,
        StepAction::SendWebhook {
            url: "https://hook.test".to_string(),
            payload: Some("ping".to_string()),
        },
    );
    let (cmds, _, post) = shell_of(plan_step(&s, &None, HOME));
    assert_eq!(post, ShellPost::Http);
    let expected =
        "curl -s -w \\n%{http_code} -X POST -d ping -H \"Content-Type: application/json\" https://hook.test";
    assert_eq!(cmds, vec![expected.to_string()]);
}

#[test]
fn deploy_trigger_is_a_declared_stub() {
    let s = step_with(
        Executor::Web,
        StepAction::DeployTrigger { provider: "acme".to_string(), project_id: "p1".to_string() },
    );
    let (status, output, error) = done_of(plan_step(&s, &None, HOME));
    assert_eq!(status, StepStatus::Failed);
    assert_eq!(output, None);
    assert_eq!(
        error.as_deref(),
        Some("Deploy trigger for acme (project p1) — requires Connections integration (coming soon)")
    );
}

#[test]
fn delegated_steps_identify_their_prompt() {
    let s = step_with(
        Executor::Ai,
        StepAction::GenerateContent {
            prompt: "write the weekly report".to_string(),
            output_path: Some("/out/report.md".to_string()),
        },
    );
    let (status, _, error) = done_of(plan_step(&s, &None, HOME));
    assert_eq!(status, StepStatus::Failed);
    assert_eq!(
        error.as_deref(),
        Some("AI step requires frontend handling — prompt: 'write the weekly report', output: /out/report.md.")
    );

    let long_prompt = "p".repeat(250);
    let s2 = step_with(Executor::Ai, StepAction::AnalyzeAndAct { prompt: long_prompt.clone() });
    let (_, _, err2) = done_of(plan_step(&s2, &None, HOME));
    let text = err2.unwrap();
    assert!(text.contains(&"p".repeat(100)));
    assert!(!text.contains(&"p".repeat(101)));
}

#[test]
fn exit_codes_classify_into_outcomes() {
    let (st, out, err) = classify_exit(0, "  hello \n", "ignored");
    assert_eq!(st, StepStatus::Success);
    assert_eq!(out.as_deref(), Some("hello"));
    assert_eq!(err, None);

    let (st2, out2, err2) = classify_exit(2, "", "  bad thing \n");
    assert_eq!(st2, StepStatus::Failed);
    assert_eq!(out2, None);
    assert_eq!(err2.as_deref(), Some("bad thing"));

    let (st3, _, err3) = classify_exit(-1, "", "");
    assert_eq!(st3, StepStatus::Failed);
    assert_eq!(err3.as_deref(), Some("Command exited with code -1"));

    let (_, out4, _) = classify_exit(0, "", "");
    assert_eq!(out4, None);
}

#[test]
fn spawn_failures_carry_the_reason() {
    let (st, out, err) = spawn_failure("No such file or directory");
    assert_eq!(st, StepStatus::Failed);
    assert_eq!(out, None);
    assert_eq!(err.as_deref(), Some("Failed to execute: No such file or directory"));
}

#[test]
fn http_status_codes_decide_the_outcome() {
    let ok = http_result(
        StepStatus::Success,
        &Some("{\"done\":true}\n204".to_string()),
        &None,
    );
    assert_eq!(ok.0, StepStatus::Success);
    assert_eq!(ok.1.as_deref(), Some("HTTP 204 — {\"done\":true}"));
    assert_eq!(ok.2, None);

    let bad = http_result(StepStatus::Success, &Some("oops\n500".to_string()), &None);
    assert_eq!(bad.0, StepStatus::Failed);
    assert_eq!(bad.1, None);
    assert_eq!(bad.2.as_deref(), Some("HTTP 500 — oops"));
}

#[test]
fn unreadable_http_output_passes_through() {
    let r = http_result(StepStatus::Success, &Some("no code here".to_string()), &None);
    assert_eq!(r.0, StepStatus::Success);
    assert_eq!(r.1.as_deref(), Some("no code here"));

    let f = http_result(StepStatus::Failed, &None, &Some("curl: (6) no host".to_string()));
    assert_eq!(f.0, StepStatus::Failed);
    assert_eq!(f.2.as_deref(), Some("curl: (6) no host"));
}

#[test]
fn content_types_follow_the_lowered_extension() {
    assert_eq!(content_type_for("/site/Index.HTML"), "text/html; charset=utf-8");
    assert_eq!(content_type_for("app.js"), "application/javascript; charset=utf-8");
    assert_eq!(content_type_for("logo.PNG"), "image/png");
    assert_eq!(content_type_for("notes.txt"), "text/plain; charset=utf-8");
    assert_eq!(content_type_for("archive.bin"), "application/octet-stream");
    assert_eq!(content_type_for("mod.wasm"), "application/wasm");
}
