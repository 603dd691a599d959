//! The data model: tasks, steps, actions, run records and their
//! mathematical views.
//!
//! Each executable type carries a ghost view (`TaskV`, `StepV`, ...) whose
//! fields are `Seq<char>`, integers and plain enums, so that contracts can
//! speak about values independently of allocation.  Timestamps are absolute
//! instants in seconds.

use vstd::prelude::*;

verus! {

/// Which strategy carries out a step.
#[derive(Clone, Copy, Debug, PartialEq, Eq, Structural)]
pub enum Executor {
    /// Shell commands, git, file and script operations on this machine.
    Local,
    /// Outbound HTTP calls and webhooks.
    Web,
    /// Work that must be completed by an external model call.
    Ai,
}

/// What a task does on the first step that ultimately fails.
#[derive(Clone, Copy, Debug, PartialEq, Eq, Structural)]
pub enum FailureAction {
    /// Abort the remaining steps.
    Stop,
    /// Proceed to the next step regardless.
    SkipAndContinue,
    /// Re-attempt the same step up to `max_attempts` times in all.
    Retry { max_attempts: u32 },
}

/// Outcome category of one step attempt.
#[derive(Clone, Copy, Debug, PartialEq, Eq, Structural)]
pub enum StepStatus {
    Pending,
    Running,
    Success,
    Failed,
    Skipped,
}

/// Overall outcome of one task run.
#[derive(Clone, Copy, Debug, PartialEq, Eq, Structural)]
pub enum RunStatus {
    Running,
    Success,
    PartialSuccess,
    Failed,
}

/// The operation payload of a step, a closed tagged set.
#[derive(Clone, Debug, PartialEq)]
pub enum StepAction {
    /// Run a shell command, optionally in a given working directory.
    RunCommand { command: String, cwd: Option<String> },
    /// Copy files from a source to a destination.
    BackupFiles { source: String, destination: String },
    /// Stage all changes and commit with the given message.
    GitCommit { message: String },
    /// Push to a remote and branch, with defaults when absent.
    GitPush { remote: Option<String>, branch: Option<String> },
    /// Run a script file, interpreter chosen by extension.
    RunScript { path: String },
    /// Delete files under a path matching a pattern.
    DeleteFiles { path: String, pattern: String },
    /// Make an HTTP request.
    HttpRequest {
        url: String,
        method: String,
        headers: Option<Vec<(String, String)>>,
        body: Option<String>,
    },
    /// Trigger a deployment at a provider.
    DeployTrigger { provider: String, project_id: String },
    /// POST a webhook, optionally with a payload.
    SendWebhook { url: String, payload: Option<String> },
    /// Generate content from a prompt, optionally into an output path.
    GenerateContent { prompt: String, output_path: Option<String> },
    /// Analyze a situation described by a prompt and act on it.
    AnalyzeAndAct { prompt: String },
}

/// View of a [`StepAction`].
#[verifier::ext_equal]
pub ghost enum ActionV {
    RunCommand { command: Seq<char>, cwd: Option<Seq<char>> },
    BackupFiles { source: Seq<char>, destination: Seq<char> },
    GitCommit { message: Seq<char> },
    GitPush { remote: Option<Seq<char>>, branch: Option<Seq<char>> },
    RunScript { path: Seq<char> },
    DeleteFiles { path: Seq<char>, pattern: Seq<char> },
    HttpRequest {
        url: Seq<char>,
        method: Seq<char>,
        headers: Option<Seq<(Seq<char>, Seq<char>)>>,
        body: Option<Seq<char>>,
    },
    DeployTrigger { provider: Seq<char>, project_id: Seq<char> },
    SendWebhook { url: Seq<char>, payload: Option<Seq<char>> },
    GenerateContent { prompt: Seq<char>, output_path: Option<Seq<char>> },
    AnalyzeAndAct { prompt: Seq<char> },
}

impl View for StepAction {
    type V = ActionV;

    open spec fn view(&self) -> ActionV {
        match self {
            StepAction::RunCommand { command, cwd } => ActionV::RunCommand {
                command: command@,
                cwd: cwd.deep_view(),
            },
            StepAction::BackupFiles { source, destination } => ActionV::BackupFiles {
                source: source@,
                destination: destination@,
            },
            StepAction::GitCommit { message } => ActionV::GitCommit { message: message@ },
            StepAction::GitPush { remote, branch } => ActionV::GitPush {
                remote: remote.deep_view(),
                branch: branch.deep_view(),
            },
            StepAction::RunScript { path } => ActionV::RunScript { path: path@ },
            StepAction::DeleteFiles { path, pattern } => ActionV::DeleteFiles {
                path: path@,
                pattern: pattern@,
            },
            StepAction::HttpRequest { url, method, headers, body } => ActionV::HttpRequest {
                url: url@,
                method: method@,
                headers: headers.deep_view(),
                body: body.deep_view(),
            },
            StepAction::DeployTrigger { provider, project_id } => ActionV::DeployTrigger {
                provider: provider@,
                project_id: project_id@,
            },
            StepAction::SendWebhook { url, payload } => ActionV::SendWebhook {
                url: url@,
                payload: payload.deep_view(),
            },
            StepAction::GenerateContent { prompt, output_path } => ActionV::GenerateContent {
                prompt: prompt@,
                output_path: output_path.deep_view(),
            },
            StepAction::AnalyzeAndAct { prompt } => ActionV::AnalyzeAndAct { prompt: prompt@ },
        }
    }
}

impl DeepView for StepAction {
    type V = ActionV;

    open spec fn deep_view(&self) -> ActionV {
        self.view()
    }
}

/// One unit of work inside a task.
#[derive(Clone, Debug, PartialEq)]
pub struct TaskStep {
    pub id: String,
    pub name: String,
    pub executor: Executor,
    pub action: StepAction,
    /// If true, this step is skipped (not attempted) when a previous step
    /// of the same run ultimately failed.
    pub depends_on_previous: bool,
}

/// View of a [`TaskStep`].
#[verifier::ext_equal]
pub ghost struct StepV {
    pub id: Seq<char>,
    pub name: Seq<char>,
    pub executor: Executor,
    pub action: ActionV,
    pub depends_on_previous: bool,
}

impl View for TaskStep {
    type V = StepV;

    open spec fn view(&self) -> StepV {
        StepV {
            id: self.id@,
            name: self.name@,
            executor: self.executor,
            action: self.action@,
            depends_on_previous: self.depends_on_previous,
        }
    }
}

impl DeepView for TaskStep {
    type V = StepV;

    open spec fn deep_view(&self) -> StepV {
        self.view()
    }
}

/// Per-step outcome inside a run record.
#[derive(Clone, Debug, PartialEq)]
pub struct StepResult {
    pub step_id: String,
    pub status: StepStatus,
    pub output: Option<String>,
    pub error: Option<String>,
    pub started_at: u64,
    pub finished_at: Option<u64>,
}

/// View of a [`StepResult`].
#[verifier::ext_equal]
pub ghost struct StepResultV {
    pub step_id: Seq<char>,
    pub status: StepStatus,
    pub output: Option<Seq<char>>,
    pub error: Option<Seq<char>>,
    pub started_at: u64,
    pub finished_at: Option<u64>,
}

impl View for StepResult {
    type V = StepResultV;

    open spec fn view(&self) -> StepResultV {
        StepResultV {
            step_id: self.step_id@,
            status: self.status,
            output: self.output.deep_view(),
            error: self.error.deep_view(),
            started_at: self.started_at,
            finished_at: self.finished_at,
        }
    }
}

impl DeepView for StepResult {
    type V = StepResultV;

    open spec fn deep_view(&self) -> StepResultV {
        self.view()
    }
}

/// One execution record of a task.
#[derive(Clone, Debug, PartialEq)]
pub struct TaskRun {
    pub started_at: u64,
    pub finished_at: Option<u64>,
    pub status: RunStatus,
    pub step_results: Vec<StepResult>,
}

/// View of a [`TaskRun`].
#[verifier::ext_equal]
pub ghost struct TaskRunV {
    pub started_at: u64,
    pub finished_at: Option<u64>,
    pub status: RunStatus,
    pub step_results: Seq<StepResultV>,
}

impl View for TaskRun {
    type V = TaskRunV;

    open spec fn view(&self) -> TaskRunV {
        TaskRunV {
            started_at: self.started_at,
            finished_at: self.finished_at,
            status: self.status,
            step_results: self.step_results.deep_view(),
        }
    }
}

impl DeepView for TaskRun {
    type V = TaskRunV;

    open spec fn deep_view(&self) -> TaskRunV {
        self.view()
    }
}

/// A user-defined automation.
#[derive(Clone, Debug, PartialEq)]
pub struct ScheduledTask {
    pub id: String,
    pub name: String,
    pub description: String,
    /// Human-readable schedule, shown as given.
    pub schedule: String,
    /// The cron expression, in 5-, 6- or 7-field syntax.
    pub cron_expression: String,
    /// The owning project, absent for a general task.
    pub project_id: Option<String>,
    pub enabled: bool,
    pub steps: Vec<TaskStep>,
    pub on_failure: FailureAction,
    pub last_run: Option<TaskRun>,
    /// Next firing instant in seconds, absent when the cron expression
    /// does not yield one.
    pub next_run: Option<u64>,
    pub created_at: u64,
    pub updated_at: u64,
}

/// View of a [`ScheduledTask`].
#[verifier::ext_equal]
pub ghost struct TaskV {
    pub id: Seq<char>,
    pub name: Seq<char>,
    pub description: Seq<char>,
    pub schedule: Seq<char>,
    pub cron_expression: Seq<char>,
    pub project_id: Option<Seq<char>>,
    pub enabled: bool,
    pub steps: Seq<StepV>,
    pub on_failure: FailureAction,
    pub last_run: Option<TaskRunV>,
    pub next_run: Option<u64>,
    pub created_at: u64,
    pub updated_at: u64,
}

impl View for ScheduledTask {
    type V = TaskV;

    open spec fn view(&self) -> TaskV {
        TaskV {
            id: self.id@,
            name: self.name@,
            description: self.description@,
            schedule: self.schedule@,
            cron_expression: self.cron_expression@,
            project_id: self.project_id.deep_view(),
            enabled: self.enabled,
            steps: self.steps.deep_view(),
            on_failure: self.on_failure,
            last_run: self.last_run.deep_view(),
            next_run: self.next_run,
            created_at: self.created_at,
            updated_at: self.updated_at,
        }
    }
}

impl DeepView for ScheduledTask {
    type V = TaskV;

    open spec fn deep_view(&self) -> TaskV {
        self.view()
    }
}

/// The bounded run log of one task.
#[derive(Clone, Debug, PartialEq)]
pub struct TaskHistory {
    pub task_id: String,
    pub runs: Vec<TaskRun>,
}

/// View of a [`TaskHistory`].
#[verifier::ext_equal]
pub ghost struct TaskHistoryV {
    pub task_id: Seq<char>,
    pub runs: Seq<TaskRunV>,
}

impl View for TaskHistory {
    type V = TaskHistoryV;

    open spec fn view(&self) -> TaskHistoryV {
        TaskHistoryV {
            task_id: self.task_id@,
            runs: self.runs.deep_view(),
        }
    }
}

impl DeepView for TaskHistory {
    type V = TaskHistoryV;

    open spec fn deep_view(&self) -> TaskHistoryV {
        self.view()
    }
}

/// Copies an optional string; the view is preserved.
pub fn dup_opt_string(o: &Option<String>) -> (r: Option<String>)
    ensures
        r.deep_view() == o.deep_view(),
{
    match o {
        Option::Some(s) => Option::Some(s.clone()),
        Option::None => Option::None,
    }
}

/// Copies a list of string pairs; the view is preserved.
pub fn dup_string_pairs(v: &Vec<(String, String)>) -> (r: Vec<(String, String)>)
    ensures
        r.deep_view() == v.deep_view(),
{
    let mut r: Vec<(String, String)> = Vec::new();
    let mut i: usize = 0;
    while i < v.len()
        invariant
            i <= v.len(),
            r@.len() == i,
            forall|j: int| 0 <= j < i ==> r@[j].deep_view() == v@[j].deep_view(),
        decreases v.len() - i,
    {
        let p = &v[i];
        r.push((p.0.clone(), p.1.clone()));
        i = i + 1;
    }
    proof {
        assert forall|j: int| 0 <= j < i implies r.deep_view()[j] == v.deep_view()[j] by {
            assert(r@[j].deep_view() == v@[j].deep_view());
        }
        assert(r.deep_view() =~= v.deep_view());
    }
    r
}

impl StepAction {
    /// Copies the action; the view is preserved.
    pub fn duplicate(&self) -> (r: StepAction)
        ensures
            r@ == self@,
    {
        match self {
            StepAction::RunCommand { command, cwd } => StepAction::RunCommand {
                command: command.clone(),
                cwd: dup_opt_string(cwd),
            },
            StepAction::BackupFiles { source, destination } => StepAction::BackupFiles {
                source: source.clone(),
                destination: destination.clone(),
            },
            StepAction::GitCommit { message } => StepAction::GitCommit {
                message: message.clone(),
            },
            StepAction::GitPush { remote, branch } => StepAction::GitPush {
                remote: dup_opt_string(remote),
                branch: dup_opt_string(branch),
            },
            StepAction::RunScript { path } => StepAction::RunScript { path: path.clone() },
            StepAction::DeleteFiles { path, pattern } => StepAction::DeleteFiles {
                path: path.clone(),
                pattern: pattern.clone(),
            },
            StepAction::HttpRequest { url, method, headers, body } => StepAction::HttpRequest {
                url: url.clone(),
                method: method.clone(),
                headers: match headers {
                    Option::Some(h) => Option::Some(dup_string_pairs(h)),
                    Option::None => Option::None,
                },
                body: dup_opt_string(body),
            },
            StepAction::DeployTrigger { provider, project_id } => StepAction::DeployTrigger {
                provider: provider.clone(),
                project_id: project_id.clone(),
            },
            StepAction::SendWebhook { url, payload } => StepAction::SendWebhook {
                url: url.clone(),
                payload: dup_opt_string(payload),
            },
            StepAction::GenerateContent { prompt, output_path } => StepAction::GenerateContent {
                prompt: prompt.clone(),
                output_path: dup_opt_string(output_path),
            },
            StepAction::AnalyzeAndAct { prompt } => StepAction::AnalyzeAndAct {
                prompt: prompt.clone(),
            },
        }
    }
}

impl TaskStep {
    /// Copies the step; the view is preserved.
    pub fn duplicate(&self) -> (r: TaskStep)
        ensures
            r@ == self@,
    {
        TaskStep {
            id: self.id.clone(),
            name: self.name.clone(),
            executor: self.executor,
            action: self.action.duplicate(),
            depends_on_previous: self.depends_on_previous,
        }
    }
}

/// Copies a list of steps; the view is preserved.
pub fn dup_steps(v: &Vec<TaskStep>) -> (r: Vec<TaskStep>)
    ensures
        r.deep_view() == v.deep_view(),
{
    let mut r: Vec<TaskStep> = Vec::new();
    let mut i: usize = 0;
    while i < v.len()
        invariant
            i <= v.len(),
            r@.len() == i,
            forall|j: int| 0 <= j < i ==> r@[j].deep_view() == v@[j].deep_view(),
        decreases v.len() - i,
    {
        r.push((&v[i]).duplicate());
        i = i + 1;
    }
    proof {
        assert forall|j: int| 0 <= j < i implies r.deep_view()[j] == v.deep_view()[j] by {
            assert(r@[j].deep_view() == v@[j].deep_view());
        }
        assert(r.deep_view() =~= v.deep_view());
    }
    r
}

impl StepResult {
    /// Copies the result; the view is preserved.
    pub fn duplicate(&self) -> (r: StepResult)
        ensures
            r@ == self@,
    {
        StepResult {
            step_id: self.step_id.clone(),
            status: self.status,
            output: dup_opt_string(&self.output),
            error: dup_opt_string(&self.error),
            started_at: self.started_at,
            finished_at: self.finished_at,
        }
    }
}

/// Copies a list of step results; the view is preserved.
pub fn dup_step_results(v: &Vec<StepResult>) -> (r: Vec<StepResult>)
    ensures
        r.deep_view() == v.deep_view(),
{
    let mut r: Vec<StepResult> = Vec::new();
    let mut i: usize = 0;
    while i < v.len()
        invariant
            i <= v.len(),
            r@.len() == i,
            forall|j: int| 0 <= j < i ==> r@[j].deep_view() == v@[j].deep_view(),
        decreases v.len() - i,
    {
        r.push((&v[i]).duplicate());
        i = i + 1;
    }
    proof {
        assert forall|j: int| 0 <= j < i implies r.deep_view()[j] == v.deep_view()[j] by {
            assert(r@[j].deep_view() == v@[j].deep_view());
        }
        assert(r.deep_view() =~= v.deep_view());
    }
    r
}

impl TaskRun {
    /// Copies the run record; the view is preserved.
    pub fn duplicate(&self) -> (r: TaskRun)
        ensures
            r@ == self@,
    {
        TaskRun {
            started_at: self.started_at,
            finished_at: self.finished_at,
            status: self.status,
            step_results: dup_step_results(&self.step_results),
        }
    }
}

/// Copies a list of run records; the view is preserved.
pub fn dup_runs(v: &Vec<TaskRun>) -> (r: Vec<TaskRun>)
    ensures
        r.deep_view() == v.deep_view(),
{
    let mut r: Vec<TaskRun> = Vec::new();
    let mut i: usize = 0;
    while i < v.len()
        invariant
            i <= v.len(),
            r@.len() == i,
            forall|j: int| 0 <= j < i ==> r@[j].deep_view() == v@[j].deep_view(),
        decreases v.len() - i,
    {
        r.push((&v[i]).duplicate());
        i = i + 1;
    }
    proof {
        assert forall|j: int| 0 <= j < i implies r.deep_view()[j] == v.deep_view()[j] by {
            assert(r@[j].deep_view() == v@[j].deep_view());
        }
        assert(r.deep_view() =~= v.deep_view());
    }
    r
}

impl ScheduledTask {
    /// Copies the task; the view is preserved.
    pub fn duplicate(&self) -> (r: ScheduledTask)
        ensures
            r@ == self@,
    {
        ScheduledTask {
            id: self.id.clone(),
            name: self.name.clone(),
            description: self.description.clone(),
            schedule: self.schedule.clone(),
            cron_expression: self.cron_expression.clone(),
            project_id: dup_opt_string(&self.project_id),
            enabled: self.enabled,
            steps: dup_steps(&self.steps),
            on_failure: self.on_failure,
            last_run: match &self.last_run {
                Option::Some(run) => Option::Some(run.duplicate()),
                Option::None => Option::None,
            },
            next_run: self.next_run,
            created_at: self.created_at,
            updated_at: self.updated_at,
        }
    }
}

/// Copies a list of tasks; the view is preserved.
pub fn dup_tasks(v: &Vec<ScheduledTask>) -> (r: Vec<ScheduledTask>)
    ensures
        r.deep_view() == v.deep_view(),
{
    let mut r: Vec<ScheduledTask> = Vec::new();
    let mut i: usize = 0;
    while i < v.len()
        invariant
            i <= v.len(),
            r@.len() == i,
            forall|j: int| 0 <= j < i ==> r@[j].deep_view() == v@[j].deep_view(),
        decreases v.len() - i,
    {
        r.push((&v[i]).duplicate());
        i = i + 1;
    }
    proof {
        assert forall|j: int| 0 <= j < i implies r.deep_view()[j] == v.deep_view()[j] by {
            assert(r@[j].deep_view() == v@[j].deep_view());
        }
        assert(r.deep_view() =~= v.deep_view());
    }
    r
}

impl TaskHistory {
    /// Copies the history entry; the view is preserved.
    pub fn duplicate(&self) -> (r: TaskHistory)
        ensures
            r@ == self@,
    {
        TaskHistory {
            task_id: self.task_id.clone(),
            runs: dup_runs(&self.runs),
        }
    }
}

} // verus!
