//! A run's skeleton, its log lines, and the updates that follow them.
use vstd::prelude::*;
use vstd::string::*;

use crate::text::{copy_texts, opt_copy, opt_str, opt_text, same, texts};

verus! {

/// Where the data of a run comes from.
#[derive(Debug, Clone, Copy, PartialEq, Eq, Structural)]
pub enum RunSource {
    /// Read live from the Tekton/Kubernetes API.
    Tekton,
    /// The objects are gone from the cluster; put together from tekton-results
    /// (Postgres) and Loki.
    Archive,
}

/// Coarse status of a run, a task or a step. It follows the meaning of
/// Tekton's conditions: True is succeeded, False is failed, Unknown is still
/// running; Pending is added for what has not started yet.
#[derive(Debug, Clone, Copy, PartialEq, Eq, Structural)]
pub enum RunStatus {
    Pending,
    Running,
    Succeeded,
    Failed,
    Unknown,
}

/// What a condition's `status` and whether the resource has started say of it.
pub open spec fn status_of(status: Option<Seq<char>>, started: bool) -> RunStatus {
    if status == Some("True"@) {
        RunStatus::Succeeded
    } else if status == Some("False"@) {
        RunStatus::Failed
    } else if !started {
        RunStatus::Pending
    } else if status is Some {
        RunStatus::Running
    } else {
        RunStatus::Unknown
    }
}

impl RunStatus {
    /// Maps a condition's `status` ("True", "False" or another), and whether
    /// the resource has started yet, to the coarse status.
    pub fn from_condition(status: Option<&str>, started: bool) -> (r: RunStatus)
        ensures
            r == status_of(opt_str(status), started),
    {
        proof {
            reveal_strlit("True");
            reveal_strlit("False");
        }
        match status {
            Some(s) => if same(s, "True") {
                RunStatus::Succeeded
            } else if same(s, "False") {
                RunStatus::Failed
            } else if started {
                RunStatus::Running
            } else {
                RunStatus::Pending
            },
            None => if started {
                RunStatus::Unknown
            } else {
                RunStatus::Pending
            },
        }
    }

    /// Succeeded or failed: nothing more will change it.
    pub open spec fn terminal(self) -> bool {
        self is Succeeded || self is Failed
    }

    /// Whether nothing more will change the status.
    pub fn is_terminal(&self) -> (r: bool)
        ensures
            r == self.terminal(),
    {
        match self {
            RunStatus::Succeeded => true,
            RunStatus::Failed => true,
            _ => false,
        }
    }

    /// The name of the variant.
    pub open spec fn variant(self) -> Seq<char> {
        match self {
            RunStatus::Pending => "Pending"@,
            RunStatus::Running => "Running"@,
            RunStatus::Succeeded => "Succeeded"@,
            RunStatus::Failed => "Failed"@,
            RunStatus::Unknown => "Unknown"@,
        }
    }

    /// The name of the variant.
    pub fn variant_name(&self) -> (r: &'static str)
        ensures
            r@ == self.variant(),
    {
        match self {
            RunStatus::Pending => "Pending",
            RunStatus::Running => "Running",
            RunStatus::Succeeded => "Succeeded",
            RunStatus::Failed => "Failed",
            RunStatus::Unknown => "Unknown",
        }
    }
}

/// A condition decides a terminal status by itself, whether or not the
/// resource reports a start; and nothing but a condition gives one.
pub proof fn law_terminal_needs_condition(status: Option<Seq<char>>, started: bool)
    ensures
        status_of(status, started).terminal() <==> (status == Some("True"@) || status == Some(
            "False"@,
        )),
        status_of(status, started).terminal() ==> status_of(status, started) == status_of(
            status,
            !started,
        ),
{
}

/// A step of a task.
#[derive(Debug, Clone)]
pub struct StepMeta {
    pub name: String,
    pub container: String,
    pub status: RunStatus,
    /// Set once it is known, such as "Completed", "Error", "ImagePullBackOff".
    pub reason: Option<String>,
}

/// The view of a `StepMeta`.
pub struct StepView {
    pub name: Seq<char>,
    pub container: Seq<char>,
    pub status: RunStatus,
    pub reason: Option<Seq<char>>,
}

impl View for StepMeta {
    type V = StepView;

    open spec fn view(&self) -> StepView {
        StepView {
            name: self.name@,
            container: self.container@,
            status: self.status,
            reason: opt_text(self.reason),
        }
    }
}

impl StepMeta {
    /// A copy.
    pub fn copy(&self) -> (r: StepMeta)
        ensures
            r == *self,
    {
        StepMeta {
            name: self.name.clone(),
            container: self.container.clone(),
            status: self.status,
            reason: opt_copy(&self.reason),
        }
    }
}

/// The views of a list of steps.
pub open spec fn step_views(v: Seq<StepMeta>) -> Seq<StepView> {
    v.map_values(|s: StepMeta| s@)
}

/// A task of a run.
#[derive(Debug, Clone)]
pub struct TaskMeta {
    /// The name of the task within the pipeline (`pipelineTaskName`).
    pub name: String,
    /// The name of the underlying Task (`taskRef.name`), if known.
    pub task_ref: Option<String>,
    pub taskrun_name: String,
    pub pod_name: Option<String>,
    pub status: RunStatus,
    pub reason: Option<String>,
    pub steps: Vec<StepMeta>,
    /// The tasks that the task's `runAfter` names, in its order. Empty means
    /// that there is no explicit dependency.
    pub depends_on: Vec<String>,
}

/// The view of a `TaskMeta`.
#[verifier::ext_equal]
pub struct TaskView {
    pub name: Seq<char>,
    pub task_ref: Option<Seq<char>>,
    pub taskrun_name: Seq<char>,
    pub pod_name: Option<Seq<char>>,
    pub status: RunStatus,
    pub reason: Option<Seq<char>>,
    pub steps: Seq<StepView>,
    pub depends_on: Seq<Seq<char>>,
}

impl View for TaskMeta {
    type V = TaskView;

    open spec fn view(&self) -> TaskView {
        TaskView {
            name: self.name@,
            task_ref: opt_text(self.task_ref),
            taskrun_name: self.taskrun_name@,
            pod_name: opt_text(self.pod_name),
            status: self.status,
            reason: opt_text(self.reason),
            steps: step_views(self.steps@),
            depends_on: texts(self.depends_on@),
        }
    }
}

impl TaskMeta {
    /// A copy.
    pub fn copy(&self) -> (r: TaskMeta)
        ensures
            r@ == self@,
    {
        let mut steps: Vec<StepMeta> = Vec::new();
        let mut i: usize = 0;
        while i < self.steps.len()
            invariant
                i <= self.steps@.len(),
                steps@ == self.steps@.take(i as int),
            decreases self.steps@.len() - i,
        {
            steps.push(self.steps[i].copy());
            assert(self.steps@.take(i + 1) =~= self.steps@.take(i as int).push(
                self.steps@[i as int],
            ));
            i = i + 1;
        }
        assert(self.steps@.take(self.steps@.len() as int) =~= self.steps@);
        TaskMeta {
            name: self.name.clone(),
            task_ref: opt_copy(&self.task_ref),
            taskrun_name: self.taskrun_name.clone(),
            pod_name: opt_copy(&self.pod_name),
            status: self.status,
            reason: opt_copy(&self.reason),
            steps,
            depends_on: copy_texts(&self.depends_on),
        }
    }
}

/// The views of a list of tasks.
pub open spec fn task_views(v: Seq<TaskMeta>) -> Seq<TaskView> {
    v.map_values(|t: TaskMeta| t@)
}

/// The first thing that is sent: the skeleton of the run with what is already
/// known of its status.
#[derive(Debug, Clone)]
pub struct RunMeta {
    pub run_name: String,
    pub source: RunSource,
    pub pipeline_name: Option<String>,
    pub status: RunStatus,
    pub reason: Option<String>,
    pub tasks: Vec<TaskMeta>,
}

/// The view of a `RunMeta`.
#[verifier::ext_equal]
pub struct RunView {
    pub run_name: Seq<char>,
    pub source: RunSource,
    pub pipeline_name: Option<Seq<char>>,
    pub status: RunStatus,
    pub reason: Option<Seq<char>>,
    pub tasks: Seq<TaskView>,
}

impl View for RunMeta {
    type V = RunView;

    open spec fn view(&self) -> RunView {
        RunView {
            run_name: self.run_name@,
            source: self.source,
            pipeline_name: opt_text(self.pipeline_name),
            status: self.status,
            reason: opt_text(self.reason),
            tasks: task_views(self.tasks@),
        }
    }
}

/// A log line, labelled with its task and step.
#[derive(Debug, Clone)]
pub struct LogLine {
    pub task: String,
    pub step: String,
    pub line: String,
    /// The timestamp, where there is one.
    pub timestamp: Option<String>,
}

/// The view of a `LogLine`.
pub struct LineView {
    pub task: Seq<char>,
    pub step: Seq<char>,
    pub line: Seq<char>,
    pub timestamp: Option<Seq<char>>,
}

impl View for LogLine {
    type V = LineView;

    open spec fn view(&self) -> LineView {
        LineView {
            task: self.task@,
            step: self.step@,
            line: self.line@,
            timestamp: opt_text(self.timestamp),
        }
    }
}

/// The views of a list of log lines.
pub open spec fn line_views(v: Seq<LogLine>) -> Seq<LineView> {
    v.map_values(|l: LogLine| l@)
}

/// A step's status has changed.
#[derive(Debug, Clone)]
pub struct StepStatusUpdate {
    pub task: String,
    pub step: String,
    pub status: RunStatus,
    pub reason: Option<String>,
}

/// The view of a `StepStatusUpdate`.
pub struct StepUpdateView {
    pub task: Seq<char>,
    pub step: Seq<char>,
    pub status: RunStatus,
    pub reason: Option<Seq<char>>,
}

impl View for StepStatusUpdate {
    type V = StepUpdateView;

    open spec fn view(&self) -> StepUpdateView {
        StepUpdateView {
            task: self.task@,
            step: self.step@,
            status: self.status,
            reason: opt_text(self.reason),
        }
    }
}

/// A task's status has changed.
#[derive(Debug, Clone)]
pub struct TaskStatusUpdate {
    pub task: String,
    pub status: RunStatus,
    pub reason: Option<String>,
}

/// The view of a `TaskStatusUpdate`.
pub struct TaskUpdateView {
    pub task: Seq<char>,
    pub status: RunStatus,
    pub reason: Option<Seq<char>>,
}

impl View for TaskStatusUpdate {
    type V = TaskUpdateView;

    open spec fn view(&self) -> TaskUpdateView {
        TaskUpdateView { task: self.task@, status: self.status, reason: opt_text(self.reason) }
    }
}

/// The run is over, as far as this stream goes.
#[derive(Debug, Clone)]
pub struct RunDone {
    pub run_name: String,
    pub status: RunStatus,
    pub reason: Option<String>,
    pub duration_seconds: Option<i64>,
}

/// The view of a `RunDone`.
pub struct DoneView {
    pub run_name: Seq<char>,
    pub status: RunStatus,
    pub reason: Option<Seq<char>>,
    pub duration_seconds: Option<i64>,
}

impl View for RunDone {
    type V = DoneView;

    open spec fn view(&self) -> DoneView {
        DoneView {
            run_name: self.run_name@,
            status: self.status,
            reason: opt_text(self.reason),
            duration_seconds: self.duration_seconds,
        }
    }
}

/// Something that the client should be told of.
#[derive(Debug, Clone)]
pub struct StreamError {
    pub message: String,
}

} // verus!
