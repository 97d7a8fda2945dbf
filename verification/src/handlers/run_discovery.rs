//! A run, put together from the live PipelineRun and its child TaskRuns.
//!
//! No pipeline is assumed: the TaskRuns of a run are found through
//! `status.childReferences`, and each TaskRun's own `status.steps[]` says how
//! its steps are doing. This works for runs that are under way, finished, or
//! only partly started.
use vstd::prelude::*;
use vstd::string::*;

use crate::db::k8s_client::KubeError;
use crate::db::k8s_tekton::{
    condition_reason, condition_reason_of, condition_status, condition_status_of,
};
use crate::json::{
    at, dig, entries_at, entry, entry_count, field, integer, integer_at, item, item_count, items_at,
    opt_tree, text_at, text_copy, text_items, text_list, Json, JsonView,
};
use crate::lookup::Lookup;
use crate::models::run_stream::{
    status_of, step_views, task_views, RunMeta, RunSource, RunStatus, RunView, StepMeta, StepView,
    TaskMeta, TaskView,
};
use crate::text::{
    cat, copy_texts, holds, opt_copy, opt_text, same, text_or, text_or_default, texts,
};

verus! {

// ---------------------------------------------------------------------------
// What a PipelineRun says of its tasks
// ---------------------------------------------------------------------------

/// A child that Tekton has attached to a PipelineRun.
pub struct ChildRef {
    pub pipeline_task_name: String,
    pub taskrun_name: String,
}

/// The view of a `ChildRef`.
pub struct ChildView {
    pub task: Seq<char>,
    pub taskrun: Seq<char>,
}

impl View for ChildRef {
    type V = ChildView;

    open spec fn view(&self) -> ChildView {
        ChildView { task: self.pipeline_task_name@, taskrun: self.taskrun_name@ }
    }
}

/// The views of a list of children.
pub open spec fn child_views(v: Seq<ChildRef>) -> Seq<ChildView> {
    v.map_values(|c: ChildRef| c@)
}

/// The child that an item of `childReferences` names; nothing for an item
/// without a task name or a name.
pub open spec fn child_of(c: JsonView) -> Option<ChildView> {
    match (text_at(field(c, "pipelineTaskName"@)), text_at(field(c, "name"@))) {
        (Some(task), Some(taskrun)) => Some(ChildView { task, taskrun }),
        _ => None,
    }
}

/// The children that `childReferences` names.
pub open spec fn child_refs_of(status: JsonView) -> Seq<ChildView> {
    items_at(field(status, "childReferences"@)).filter_map(|c: JsonView| child_of(c))
}

/// The child that an entry of the `taskRuns` map names.
pub open spec fn legacy_child_of(e: (Seq<char>, JsonView)) -> Option<ChildView> {
    match text_at(field(e.1, "pipelineTaskName"@)) {
        Some(task) => Some(ChildView { task, taskrun: e.0 }),
        None => None,
    }
}

/// The children that the `taskRuns` map of older clusters names.
pub open spec fn legacy_refs_of(status: JsonView) -> Seq<ChildView> {
    entries_at(field(status, "taskRuns"@)).filter_map(
        |e: (Seq<char>, JsonView)| legacy_child_of(e),
    )
}

/// The children of a PipelineRun: those that `childReferences` names, or, where
/// it names none, those of the `taskRuns` map.
pub open spec fn refs_of(status: JsonView) -> Seq<ChildView> {
    let current = child_refs_of(status);
    if current.len() > 0 {
        current
    } else {
        legacy_refs_of(status)
    }
}

/// A task that the pipeline declares.
pub struct DeclaredTask {
    pub name: String,
    pub task_ref: Option<String>,
    pub depends_on: Vec<String>,
}

/// The view of a `DeclaredTask`.
#[verifier::ext_equal]
pub struct DeclaredView {
    pub name: Seq<char>,
    pub task_ref: Option<Seq<char>>,
    pub depends_on: Seq<Seq<char>>,
}

impl View for DeclaredTask {
    type V = DeclaredView;

    open spec fn view(&self) -> DeclaredView {
        DeclaredView {
            name: self.name@,
            task_ref: opt_text(self.task_ref),
            depends_on: texts(self.depends_on@),
        }
    }
}

/// The views of a list of declared tasks.
pub open spec fn declared_views(v: Seq<DeclaredTask>) -> Seq<DeclaredView> {
    v.map_values(|d: DeclaredTask| d@)
}

/// The task that an item of `pipelineSpec.tasks` declares; nothing for an item
/// without a name.
pub open spec fn declared_of(t: JsonView) -> Option<DeclaredView> {
    match text_at(field(t, "name"@)) {
        Some(name) => Some(
            DeclaredView {
                name,
                task_ref: text_at(at(field(t, "taskRef"@), "name"@)),
                depends_on: text_items(items_at(field(t, "runAfter"@))),
            },
        ),
        None => None,
    }
}

/// The tasks that the pipeline declares, in order. Tekton keeps a snapshot of
/// the pipeline on the PipelineRun, so this holds even where the Pipeline was
/// changed or deleted since.
pub open spec fn declared_order_of(status: JsonView) -> Seq<DeclaredView> {
    items_at(at(field(status, "pipelineSpec"@), "tasks"@)).filter_map(|t: JsonView| declared_of(t))
}

/// The children that `childReferences` names.
pub fn child_refs(pr_status: &Json) -> (r: Vec<ChildRef>)
    ensures
        child_views(r@) == child_refs_of(pr_status@),
{
    let list = pr_status.get("childReferences");
    let ghost all = items_at(opt_tree(list));
    let ghost f = |c: JsonView| child_of(c);
    let mut out: Vec<ChildRef> = Vec::new();
    let n: usize = item_count(list);
    let mut i: usize = 0;
    assert(child_views(out@) =~= all.take(0).filter_map(f));
    while i < n
        invariant
            all == items_at(opt_tree(list)),
            n == all.len(),
            f == (|c: JsonView| child_of(c)),
            i <= n,
            child_views(out@) == all.take(i as int).filter_map(f),
        decreases n - i,
    {
        proof {
            all.lemma_filter_map_take_succ(f, i as int);
        }
        let ghost before = child_views(out@);
        let c = item(list, i);
        let task = text_copy(c.get("pipelineTaskName"));
        let name = text_copy(c.get("name"));
        if let (Some(pipeline_task_name), Some(taskrun_name)) = (task, name) {
            let child = ChildRef { pipeline_task_name, taskrun_name };
            out.push(child);
            assert(child_views(out@) =~= before + seq![child@]);
        } else {
            assert(child_views(out@) =~= before + Seq::<ChildView>::empty());
        }
        i = i + 1;
    }
    assert(all.take(n as int) =~= all);
    out
}

/// The children that the `taskRuns` map of older clusters names.
pub fn legacy_task_runs(pr_status: &Json) -> (r: Vec<ChildRef>)
    ensures
        child_views(r@) == legacy_refs_of(pr_status@),
{
    let map = pr_status.get("taskRuns");
    let ghost all = entries_at(opt_tree(map));
    let ghost f = |e: (Seq<char>, JsonView)| legacy_child_of(e);
    let mut out: Vec<ChildRef> = Vec::new();
    let n: usize = entry_count(map);
    let mut i: usize = 0;
    assert(child_views(out@) =~= all.take(0).filter_map(f));
    while i < n
        invariant
            all == entries_at(opt_tree(map)),
            n == all.len(),
            f == (|e: (Seq<char>, JsonView)| legacy_child_of(e)),
            i <= n,
            child_views(out@) == all.take(i as int).filter_map(f),
        decreases n - i,
    {
        proof {
            all.lemma_filter_map_take_succ(f, i as int);
        }
        let ghost before = child_views(out@);
        let (taskrun_name, v) = entry(map, i);
        if let Some(pipeline_task_name) = text_copy(v.get("pipelineTaskName")) {
            let child = ChildRef { pipeline_task_name, taskrun_name: taskrun_name.to_owned() };
            out.push(child);
            assert(child_views(out@) =~= before + seq![child@]);
        } else {
            assert(child_views(out@) =~= before + Seq::<ChildView>::empty());
        }
        i = i + 1;
    }
    assert(all.take(n as int) =~= all);
    out
}

/// The children of a PipelineRun, by its status.
pub fn run_refs(pr_status: &Json) -> (r: Vec<ChildRef>)
    ensures
        child_views(r@) == refs_of(pr_status@),
{
    let current = child_refs(pr_status);
    assert(child_views(current@).len() == current@.len());
    if current.len() > 0 {
        current
    } else {
        legacy_task_runs(pr_status)
    }
}

/// The tasks that the pipeline declares, in order.
pub fn declared_task_order(pr_status: &Json) -> (r: Vec<DeclaredTask>)
    ensures
        declared_views(r@) == declared_order_of(pr_status@),
{
    let list = dig(pr_status.get("pipelineSpec"), "tasks");
    let ghost all = items_at(opt_tree(list));
    let ghost f = |t: JsonView| declared_of(t);
    let mut out: Vec<DeclaredTask> = Vec::new();
    let n: usize = item_count(list);
    let mut i: usize = 0;
    assert(declared_views(out@) =~= all.take(0).filter_map(f));
    while i < n
        invariant
            all == items_at(opt_tree(list)),
            n == all.len(),
            f == (|t: JsonView| declared_of(t)),
            i <= n,
            declared_views(out@) == all.take(i as int).filter_map(f),
        decreases n - i,
    {
        proof {
            all.lemma_filter_map_take_succ(f, i as int);
        }
        let ghost before = declared_views(out@);
        let t = item(list, i);
        if let Some(name) = text_copy(t.get("name")) {
            let task = DeclaredTask {
                name,
                task_ref: text_copy(dig(t.get("taskRef"), "name")),
                depends_on: text_list(t.get("runAfter")),
            };
            out.push(task);
            assert(declared_views(out@) =~= before + seq![task@]);
        } else {
            assert(declared_views(out@) =~= before + Seq::<DeclaredView>::empty());
        }
        i = i + 1;
    }
    assert(all.take(n as int) =~= all);
    out
}

/// An object's status; an empty object where it has none yet.
pub open spec fn status_doc(obj: JsonView) -> JsonView {
    match field(obj, "status"@) {
        Some(status) => status,
        None => JsonView::Object(Seq::empty()),
    }
}

/// An empty object.
fn empty_object() -> (r: Json)
    ensures
        r@ == JsonView::Object(Seq::empty()),
{
    let r = Json::Object(Vec::new());
    assert(r@->Object_0 =~= Seq::empty());
    r
}

/// The tasks that the pipeline of a PipelineRun declares, in order.
pub fn declared_tasks(pr: &Json) -> (r: Vec<DeclaredTask>)
    ensures
        declared_views(r@) == declared_order_of(status_doc(pr@)),
{
    let empty = empty_object();
    let pr_status = match pr.get("status") {
        Some(s) => s,
        None => &empty,
    };
    declared_task_order(pr_status)
}

// ---------------------------------------------------------------------------
// What a TaskRun says of itself
// ---------------------------------------------------------------------------

/// A step's name; "unknown" where it has none.
pub open spec fn step_name_of(s: JsonView) -> Seq<char> {
    text_or(text_at(field(s, "name"@)), "unknown"@)
}

/// A step's container; by convention `step-` and the step's name.
pub open spec fn step_container_of(s: JsonView) -> Seq<char> {
    text_or(text_at(field(s, "container"@)), "step-"@ + step_name_of(s))
}

/// What a container's termination says: an exit code of 0 is success; anything
/// else, a missing exit code included, is failure.
pub open spec fn terminated_status_of(t: JsonView) -> RunStatus {
    if integer_at(field(t, "exitCode"@)) == Some(0i64) {
        RunStatus::Succeeded
    } else {
        RunStatus::Failed
    }
}

/// A step of a live TaskRun: terminated, running, or waiting.
pub open spec fn step_of(s: JsonView) -> StepView {
    let (status, reason) = match (
        field(s, "terminated"@),
        field(s, "running"@),
        field(s, "waiting"@),
    ) {
        (Some(t), _, _) => (terminated_status_of(t), text_at(field(t, "reason"@))),
        (None, Some(_), _) => (RunStatus::Running, None),
        (None, None, Some(w)) => (RunStatus::Pending, text_at(field(w, "reason"@))),
        (None, None, None) => (RunStatus::Pending, None),
    };
    StepView { name: step_name_of(s), container: step_container_of(s), status, reason }
}

/// The steps of a live TaskRun.
pub open spec fn steps_of(status: JsonView) -> Seq<StepView> {
    items_at(field(status, "steps"@)).map_values(|s: JsonView| step_of(s))
}

/// A step's name and container.
pub fn step_identity(s: &Json) -> (r: (String, String))
    ensures
        r.0@ == step_name_of(s@),
        r.1@ == step_container_of(s@),
{
    let name = text_or_default(text_copy(s.get("name")), "unknown");
    let container = match text_copy(s.get("container")) {
        Some(c) => c,
        None => cat("step-", name.as_str()),
    };
    (name, container)
}

/// What a container's termination says.
pub fn terminated_status(t: &Json) -> (r: RunStatus)
    ensures
        r == terminated_status_of(t@),
{
    match integer(t.get("exitCode")) {
        Some(code) => if code == 0 {
            RunStatus::Succeeded
        } else {
            RunStatus::Failed
        },
        None => RunStatus::Failed,
    }
}

/// A step of a live TaskRun.
fn step_meta(s: &Json) -> (r: StepMeta)
    ensures
        r@ == step_of(s@),
{
    let (name, container) = step_identity(s);
    let (status, reason) = if let Some(t) = s.get("terminated") {
        (terminated_status(t), text_copy(t.get("reason")))
    } else if s.get("running").is_some() {
        (RunStatus::Running, None)
    } else if let Some(w) = s.get("waiting") {
        (RunStatus::Pending, text_copy(w.get("reason")))
    } else {
        (RunStatus::Pending, None)
    };
    StepMeta { name, container, status, reason }
}

/// The steps of a live TaskRun, by its status: one for each entry of `steps`.
pub fn steps_from_taskrun_status(tr_status: &Json) -> (r: Vec<StepMeta>)
    ensures
        step_views(r@) == steps_of(tr_status@),
{
    let list = tr_status.get("steps");
    let ghost all = items_at(opt_tree(list));
    let mut out: Vec<StepMeta> = Vec::new();
    let n: usize = item_count(list);
    let mut i: usize = 0;
    while i < n
        invariant
            all == items_at(opt_tree(list)),
            n == all.len(),
            i <= n,
            out@.len() == i,
            forall|j: int| 0 <= j < i ==> (#[trigger] out@[j])@ == step_of(all[j]),
        decreases n - i,
    {
        out.push(step_meta(item(list, i)));
        i = i + 1;
    }
    assert(step_views(out@) =~= all.map_values(|s: JsonView| step_of(s)));
    out
}

/// The pod of a TaskRun: the recorded one, or by convention the TaskRun's name
/// and `-pod`.
pub open spec fn pod_of(status: JsonView, taskrun: Seq<char>) -> Seq<char> {
    text_or(text_at(field(status, "podName"@)), taskrun + "-pod"@)
}

/// The pod of a TaskRun.
pub fn pod_name_for_taskrun(tr_status: &Json, taskrun_name: &str) -> (r: String)
    ensures
        r@ == pod_of(tr_status@, taskrun_name@),
{
    match text_copy(tr_status.get("podName")) {
        Some(p) => p,
        None => cat(taskrun_name, "-pod"),
    }
}

/// The coarse status of a live object: what its first condition says, given
/// whether its status has a start time.
pub open spec fn live_status_of(obj: JsonView) -> RunStatus {
    status_of(condition_status_of(obj), field(status_doc(obj), "startTime"@) is Some)
}

/// The coarse status of a live object, given its status document.
fn live_status(obj: &Json, status: &Json) -> (r: RunStatus)
    requires
        status@ == status_doc(obj@),
    ensures
        r == live_status_of(obj@),
{
    let started: bool = status.get("startTime").is_some();
    match condition_status(obj) {
        Some(s) => RunStatus::from_condition(Some(s.as_str()), started),
        None => RunStatus::from_condition(None, started),
    }
}

// ---------------------------------------------------------------------------
// The plan of a run
// ---------------------------------------------------------------------------

/// `names`, followed by the tasks of the children that are not among them yet.
pub open spec fn appended(names: Seq<Seq<char>>, refs: Seq<ChildView>) -> Seq<Seq<char>>
    decreases refs.len(),
{
    if refs.len() == 0 {
        names
    } else {
        let so_far = appended(names, refs.drop_last());
        if so_far.contains(refs.last().task) {
            so_far
        } else {
            so_far.push(refs.last().task)
        }
    }
}

/// The names of declared tasks.
pub open spec fn declared_names(declared: Seq<DeclaredView>) -> Seq<Seq<char>> {
    declared.map_values(|d: DeclaredView| d.name)
}

/// The tasks of a run, in order: as the pipeline declares them, and behind
/// them any that only a child names.
pub open spec fn task_names_of(status: JsonView) -> Seq<Seq<char>> {
    appended(declared_names(declared_order_of(status)), refs_of(status))
}

/// The first declaration of a task.
pub open spec fn find_declared(declared: Seq<DeclaredView>, name: Seq<char>) -> Option<DeclaredView>
    decreases declared.len(),
{
    if declared.len() == 0 {
        None
    } else if declared[0].name == name {
        Some(declared[0])
    } else {
        find_declared(declared.drop_first(), name)
    }
}

/// The first child of a task.
pub open spec fn find_ref(refs: Seq<ChildView>, name: Seq<char>) -> Option<ChildView>
    decreases refs.len(),
{
    if refs.len() == 0 {
        None
    } else if refs[0].task == name {
        Some(refs[0])
    } else {
        find_ref(refs.drop_first(), name)
    }
}

/// The index of the first declaration of a task.
fn position_declared(declared: &Vec<DeclaredTask>, name: &str) -> (r: Option<usize>)
    ensures
        match r {
            Some(i) => i < declared@.len() && find_declared(declared_views(declared@), name@)
                == Some(declared@[i as int]@),
            None => find_declared(declared_views(declared@), name@) is None,
        },
{
    let ghost all = declared_views(declared@);
    let mut i: usize = 0;
    assert(all.skip(0) =~= all);
    while i < declared.len()
        invariant
            all == declared_views(declared@),
            i <= declared@.len(),
            find_declared(all, name@) == find_declared(all.skip(i as int), name@),
        decreases declared@.len() - i,
    {
        assert(all.skip(i as int).drop_first() =~= all.skip(i + 1));
        if same(declared[i].name.as_str(), name) {
            return Some(i);
        }
        i = i + 1;
    }
    None
}

/// The index of the first child of a task.
fn position_ref(refs: &Vec<ChildRef>, name: &str) -> (r: Option<usize>)
    ensures
        match r {
            Some(i) => i < refs@.len() && find_ref(child_views(refs@), name@) == Some(
                refs@[i as int]@,
            ),
            None => find_ref(child_views(refs@), name@) is None,
        },
{
    let ghost all = child_views(refs@);
    let mut i: usize = 0;
    assert(all.skip(0) =~= all);
    while i < refs.len()
        invariant
            all == child_views(refs@),
            i <= refs@.len(),
            find_ref(all, name@) == find_ref(all.skip(i as int), name@),
        decreases refs@.len() - i,
    {
        assert(all.skip(i as int).drop_first() =~= all.skip(i + 1));
        if same(refs[i].pipeline_task_name.as_str(), name) {
            return Some(i);
        }
        i = i + 1;
    }
    None
}

/// What is known of a task before its TaskRun is read.
pub struct PlannedTask {
    pub name: String,
    pub task_ref: Option<String>,
    pub depends_on: Vec<String>,
    /// The TaskRun to read, if Tekton has created one.
    pub taskrun_name: Option<String>,
}

/// The view of a `PlannedTask`.
#[verifier::ext_equal]
pub struct PlannedView {
    pub name: Seq<char>,
    pub task_ref: Option<Seq<char>>,
    pub depends_on: Seq<Seq<char>>,
    pub taskrun: Option<Seq<char>>,
}

impl View for PlannedTask {
    type V = PlannedView;

    open spec fn view(&self) -> PlannedView {
        PlannedView {
            name: self.name@,
            task_ref: opt_text(self.task_ref),
            depends_on: texts(self.depends_on@),
            taskrun: opt_text(self.taskrun_name),
        }
    }
}

/// The views of a list of planned tasks.
pub open spec fn planned_views(v: Seq<PlannedTask>) -> Seq<PlannedView> {
    v.map_values(|p: PlannedTask| p@)
}

/// What a PipelineRun's status says of a task: its first declaration and its
/// first child.
pub open spec fn planned_of(status: JsonView, name: Seq<char>) -> PlannedView {
    let declared = find_declared(declared_order_of(status), name);
    PlannedView {
        name,
        task_ref: match declared {
            Some(d) => d.task_ref,
            None => None,
        },
        depends_on: match declared {
            Some(d) => d.depends_on,
            None => Seq::empty(),
        },
        taskrun: match find_ref(refs_of(status), name) {
            Some(c) => Some(c.taskrun),
            None => None,
        },
    }
}

/// What the declarations and the children of a run say of a task.
fn plan_one(declared: &Vec<DeclaredTask>, refs: &Vec<ChildRef>, name: &str) -> (r: PlannedTask)
    ensures
        forall|status: JsonView|
            declared_views(declared@) == #[trigger] declared_order_of(status) && child_views(refs@)
                == refs_of(status) ==> r@ == planned_of(status, name@),
{
    let (task_ref, depends_on) = match position_declared(declared, name) {
        Some(i) => (opt_copy(&declared[i].task_ref), copy_texts(&declared[i].depends_on)),
        None => {
            let none: Vec<String> = Vec::new();
            assert(texts(none@) =~= Seq::<Seq<char>>::empty());
            (None, none)
        },
    };
    let taskrun_name = match position_ref(refs, name) {
        Some(i) => Some(refs[i].taskrun_name.clone()),
        None => None,
    };
    PlannedTask { name: name.to_owned(), task_ref, depends_on, taskrun_name }
}

/// What a PipelineRun says of its run, before any TaskRun is read.
pub struct RunPlan {
    pub pipeline_name: Option<String>,
    pub status: RunStatus,
    pub reason: Option<String>,
    pub tasks: Vec<PlannedTask>,
}

/// The plans of a run's tasks, in order.
pub open spec fn tasks_planned(pr: JsonView) -> Seq<PlannedView> {
    let status = status_doc(pr);
    task_names_of(status).map_values(|n: Seq<char>| planned_of(status, n))
}

/// The pipeline that a PipelineRun refers to.
pub open spec fn pipeline_of(pr: JsonView) -> Option<Seq<char>> {
    text_at(at(at(field(pr, "spec"@), "pipelineRef"@), "name"@))
}

/// What a PipelineRun says of its run.
pub fn plan_run(pr: &Json) -> (r: RunPlan)
    ensures
        opt_text(r.pipeline_name) == pipeline_of(pr@),
        r.status == live_status_of(pr@),
        opt_text(r.reason) == condition_reason_of(pr@),
        planned_views(r.tasks@) == tasks_planned(pr@),
{
    let empty = empty_object();
    let pr_status = match pr.get("status") {
        Some(s) => s,
        None => &empty,
    };
    let ghost status = status_doc(pr@);
    let refs = run_refs(pr_status);
    let declared = declared_task_order(pr_status);
    let ghost base = declared_names(declared_order_of(status));

    // The tasks in declared order, then any that only a child names.
    let mut names: Vec<String> = Vec::new();
    let mut i: usize = 0;
    while i < declared.len()
        invariant
            declared_views(declared@) == declared_order_of(status),
            base == declared_names(declared_order_of(status)),
            i <= declared@.len(),
            texts(names@) == base.take(i as int),
        decreases declared@.len() - i,
    {
        let ghost before = texts(names@);
        assert(declared_views(declared@)[i as int] == declared@[i as int]@);
        names.push(declared[i].name.clone());
        assert(texts(names@) =~= before.push(base[i as int]));
        assert(base.take(i + 1) =~= before.push(base[i as int]));
        i = i + 1;
    }
    assert(declared_views(declared@).len() == declared@.len());
    assert(base.take(base.len() as int) =~= base);
    let ghost all = refs_of(status);
    assert(all.take(0) =~= Seq::<ChildView>::empty());
    let mut k: usize = 0;
    while k < refs.len()
        invariant
            child_views(refs@) == all,
            k <= refs@.len(),
            texts(names@) == appended(base, all.take(k as int)),
        decreases refs@.len() - k,
    {
        let ghost before = texts(names@);
        assert(all.take(k + 1).drop_last() =~= all.take(k as int));
        assert(all[k as int] == refs@[k as int]@);
        if !holds(&names, refs[k].pipeline_task_name.as_str()) {
            names.push(refs[k].pipeline_task_name.clone());
            assert(texts(names@) =~= before.push(all[k as int].task));
        }
        k = k + 1;
    }
    assert(all.take(all.len() as int) =~= all);

    let mut tasks: Vec<PlannedTask> = Vec::new();
    let mut m: usize = 0;
    while m < names.len()
        invariant
            declared_views(declared@) == declared_order_of(status),
            child_views(refs@) == refs_of(status),
            texts(names@) == task_names_of(status),
            m <= names@.len(),
            tasks@.len() == m,
            forall|j: int|
                0 <= j < m ==> (#[trigger] tasks@[j])@ == planned_of(
                    status,
                    task_names_of(status)[j],
                ),
        decreases names@.len() - m,
    {
        assert(texts(names@)[m as int] == names@[m as int]@);
        let task = plan_one(&declared, &refs, names[m].as_str());
        tasks.push(task);
        m = m + 1;
    }
    assert(texts(names@).len() == names@.len());
    assert(planned_views(tasks@) =~= tasks_planned(pr@));
    RunPlan {
        pipeline_name: text_copy(dig(dig(pr.get("spec"), "pipelineRef"), "name")),
        status: live_status(pr, pr_status),
        reason: condition_reason(pr),
        tasks,
    }
}

// ---------------------------------------------------------------------------
// Putting the run together
// ---------------------------------------------------------------------------

/// Why a run could not be put together from the cluster.
#[derive(Debug)]
pub enum DiscoverError {
    /// There is no such PipelineRun: look in the archive instead.
    NotFound,
    /// The cluster could not be asked.
    Kube(KubeError),
}

impl From<KubeError> for DiscoverError {
    fn from(e: KubeError) -> (r: DiscoverError) {
        DiscoverError::Kube(e)
    }
}

impl vstd::std_specs::convert::FromSpecImpl<KubeError> for DiscoverError {
    open spec fn obeys_from_spec() -> bool {
        true
    }

    open spec fn from_spec(e: KubeError) -> DiscoverError {
        DiscoverError::Kube(e)
    }
}

/// The view of the reply to a request for an object.
pub open spec fn reply_view(reply: Result<Option<Json>, KubeError>) -> Result<
    Option<JsonView>,
    KubeError,
> {
    match reply {
        Ok(Some(j)) => Ok(Some(j@)),
        Ok(None) => Ok(None),
        Err(e) => Err(e),
    }
}

/// The views of a list of replies.
pub open spec fn reply_views(replies: Seq<Result<Option<Json>, KubeError>>) -> Seq<
    Result<Option<JsonView>, KubeError>,
> {
    replies.map_values(|reply: Result<Option<Json>, KubeError>| reply_view(reply))
}

/// The PipelineRun itself: without it there is nothing to discover.
pub fn found(reply: Result<Option<Json>, KubeError>) -> (r: Result<Json, DiscoverError>)
    ensures
        r == (match reply {
            Ok(Some(pr)) => Ok::<Json, DiscoverError>(pr),
            Ok(None) => Err(DiscoverError::NotFound),
            Err(e) => Err(DiscoverError::Kube(e)),
        }),
{
    match reply {
        Ok(Some(pr)) => Ok(pr),
        Ok(None) => Err(DiscoverError::NotFound),
        Err(e) => Err(DiscoverError::from(e)),
    }
}

/// A task that nothing is known of beyond its plan: pending, without steps.
pub open spec fn pending_task(p: PlannedView) -> TaskView {
    TaskView {
        name: p.name,
        task_ref: p.task_ref,
        taskrun_name: text_or(p.taskrun, Seq::empty()),
        pod_name: None,
        status: RunStatus::Pending,
        reason: None,
        steps: Seq::empty(),
        depends_on: p.depends_on,
    }
}

/// A task, from its TaskRun.
pub open spec fn running_task(p: PlannedView, tr: JsonView) -> TaskView {
    let taskrun = text_or(p.taskrun, Seq::empty());
    TaskView {
        name: p.name,
        task_ref: p.task_ref,
        taskrun_name: taskrun,
        pod_name: Some(pod_of(status_doc(tr), taskrun)),
        status: live_status_of(tr),
        reason: condition_reason_of(tr),
        steps: steps_of(status_doc(tr)),
        depends_on: p.depends_on,
    }
}

/// A task, from its TaskRun if that is still there. A TaskRun that is named but
/// gone leaves the task pending.
pub open spec fn task_of(p: PlannedView, tr: Option<JsonView>) -> TaskView {
    match tr {
        Some(doc) => running_task(p, doc),
        None => pending_task(p),
    }
}

/// A task, from its TaskRun if that is still there.
fn task_meta(p: &PlannedTask, tr: Option<&Json>) -> (r: TaskMeta)
    ensures
        r@ == task_of(p@, opt_tree(tr)),
{
    let taskrun_name = match &p.taskrun_name {
        Some(n) => n.clone(),
        None => String::new(),
    };
    let name = p.name.clone();
    let task_ref = opt_copy(&p.task_ref);
    let depends_on = copy_texts(&p.depends_on);
    match tr {
        Some(tr) => {
            let empty = empty_object();
            let tr_status = match tr.get("status") {
                Some(s) => s,
                None => &empty,
            };
            let pod_name = pod_name_for_taskrun(tr_status, taskrun_name.as_str());
            TaskMeta {
                name,
                task_ref,
                taskrun_name,
                pod_name: Some(pod_name),
                status: live_status(tr, tr_status),
                reason: condition_reason(tr),
                steps: steps_from_taskrun_status(tr_status),
                depends_on,
            }
        },
        None => {
            let steps: Vec<StepMeta> = Vec::new();
            assert(step_views(steps@) =~= Seq::<StepView>::empty());
            TaskMeta {
                name,
                task_ref,
                taskrun_name,
                pod_name: None,
                status: RunStatus::Pending,
                reason: None,
                steps,
                depends_on,
            }
        },
    }
}

/// How far a discovery has come: the TaskRun to read next, or the tasks.
pub type Discovery = Lookup<Seq<char>, Result<Seq<TaskView>, KubeError>>;

/// The rest of a discovery: the tasks `planned` are still to be put together,
/// behind `tasks`, and `replies` are what the reads of their TaskRuns gave so
/// far. A task without a TaskRun takes no reply; the first reply that is an
/// error ends the discovery; and where the replies run out, the next TaskRun
/// is to be read.
pub open spec fn discovery(
    tasks: Seq<TaskView>,
    planned: Seq<PlannedView>,
    replies: Seq<Result<Option<JsonView>, KubeError>>,
) -> Discovery
    decreases planned.len(),
{
    if planned.len() == 0 {
        Lookup::Done(Ok(tasks))
    } else {
        match planned[0].taskrun {
            None => discovery(
                tasks.push(pending_task(planned[0])),
                planned.drop_first(),
                replies,
            ),
            Some(taskrun) => if replies.len() == 0 {
                Lookup::Ask(taskrun)
            } else {
                match replies[0] {
                    Err(e) => Lookup::Done(Err(e)),
                    Ok(tr) => discovery(
                        tasks.push(task_of(planned[0], tr)),
                        planned.drop_first(),
                        replies.drop_first(),
                    ),
                }
            },
        }
    }
}

/// A live run with the given tasks.
pub open spec fn live_run(run_name: Seq<char>, pr: JsonView, tasks: Seq<TaskView>) -> RunView {
    RunView {
        run_name,
        source: RunSource::Tekton,
        pipeline_name: pipeline_of(pr),
        status: live_status_of(pr),
        reason: condition_reason_of(pr),
        tasks,
    }
}

/// Puts the run together from its PipelineRun and from what the reads of its
/// TaskRuns gave so far, in the order in which they were asked for.
pub fn discover_live_run(
    run_name: &str,
    pr: &Json,
    replies: &Vec<Result<Option<Json>, KubeError>>,
) -> (r: Lookup<String, Result<RunMeta, DiscoverError>>)
    ensures
        match discovery(Seq::empty(), tasks_planned(pr@), reply_views(replies@)) {
            Lookup::Ask(taskrun) => r matches Lookup::Ask(n) && n@ == taskrun,
            Lookup::Done(Err(e)) => r == Lookup::<String, Result<RunMeta, DiscoverError>>::Done(
                Err(DiscoverError::Kube(e)),
            ),
            Lookup::Done(Ok(tasks)) => r matches Lookup::Done(Ok(run)) && run@ == live_run(
                run_name@,
                pr@,
                tasks,
            ),
        },
{
    let plan = plan_run(pr);
    let ghost planned = tasks_planned(pr@);
    let ghost given = reply_views(replies@);
    let mut tasks: Vec<TaskMeta> = Vec::new();
    let mut i: usize = 0;
    let mut k: usize = 0;
    assert(task_views(tasks@) =~= Seq::<TaskView>::empty());
    assert(planned.skip(0) =~= planned);
    assert(given.skip(0) =~= given);
    assert(planned.len() == plan.tasks@.len());
    while i < plan.tasks.len()
        invariant
            planned == planned_views(plan.tasks@),
            given == reply_views(replies@),
            i <= plan.tasks@.len(),
            k <= replies@.len(),
            discovery(Seq::empty(), planned, given) == discovery(
                task_views(tasks@),
                planned.skip(i as int),
                given.skip(k as int),
            ),
            planned == tasks_planned(pr@),
        decreases plan.tasks@.len() - i,
    {
        let ghost before = task_views(tasks@);
        let p = &plan.tasks[i];
        assert(planned.skip(i as int)[0] == p@);
        assert(planned.skip(i as int).drop_first() =~= planned.skip(i + 1));
        let task = match &p.taskrun_name {
            None => task_meta(p, None),
            Some(taskrun) => {
                if k >= replies.len() {
                    assert(given.skip(k as int).len() == 0);
                    return Lookup::Ask(taskrun.clone());
                }
                assert(given.skip(k as int)[0] == reply_view(replies@[k as int]));
                assert(given.skip(k as int).drop_first() =~= given.skip(k + 1));
                let tr: Option<&Json> = match &replies[k] {
                    Err(e) => {
                        return Lookup::Done(Err(DiscoverError::from(e.copy())));
                    },
                    Ok(Some(tr)) => Some(tr),
                    Ok(None) => None,
                };
                k = k + 1;
                task_meta(p, tr)
            },
        };
        tasks.push(task);
        assert(task_views(tasks@) =~= before.push(task@));
        i = i + 1;
    }
    assert(planned.skip(i as int).len() == 0);
    let RunPlan { pipeline_name, status, reason, tasks: _ } = plan;
    Lookup::Done(
        Ok(
            RunMeta {
                run_name: run_name.to_owned(),
                source: RunSource::Tekton,
                pipeline_name,
                status,
                reason,
                tasks,
            },
        ),
    )
}

/// The first step with the name.
pub open spec fn find_step(steps: Seq<StepView>, name: Seq<char>) -> Option<StepView>
    decreases steps.len(),
{
    if steps.len() == 0 {
        None
    } else if steps[0].name == name {
        Some(steps[0])
    } else {
        find_step(steps.drop_first(), name)
    }
}

/// What a step is doing now, from a fresh read of its TaskRun. The step as it
/// was at the start may say that it is pending long after its log has ended.
/// There is nothing to say where the TaskRun could not be read or is gone, or
/// where it has no such step; the caller then keeps what it knew last.
pub fn refresh_step_status(
    taskrun: &Result<Option<Json>, KubeError>,
    step_name: &str,
) -> (r: Option<StepMeta>)
    ensures
        match reply_view(*taskrun) {
            Ok(Some(tr)) => match find_step(steps_of(status_doc(tr)), step_name@) {
                Some(step) => r matches Some(s) && s@ == step,
                None => r is None,
            },
            _ => r is None,
        },
{
    let tr = match taskrun {
        Ok(Some(tr)) => tr,
        _ => {
            return None;
        },
    };
    let empty = empty_object();
    let tr_status = match tr.get("status") {
        Some(s) => s,
        None => &empty,
    };
    let steps = steps_from_taskrun_status(tr_status);
    let ghost all = step_views(steps@);
    let mut i: usize = 0;
    assert(all.skip(0) =~= all);
    while i < steps.len()
        invariant
            all == step_views(steps@),
            all == steps_of(status_doc(tr@)),
            reply_view(*taskrun) == Ok::<Option<JsonView>, KubeError>(Some(tr@)),
            i <= steps@.len(),
            find_step(all, step_name@) == find_step(all.skip(i as int), step_name@),
        ensures
            find_step(all, step_name@) is None,
        decreases steps@.len() - i,
    {
        assert(all.skip(i as int).drop_first() =~= all.skip(i + 1));
        if same(steps[i].name.as_str(), step_name) {
            return Some(steps[i].copy());
        }
        i = i + 1;
    }
    None
}

/// How far the lookup of a task has come: the TaskRun to read, or the task.
pub type TaskLookup = Lookup<String, Result<Option<TaskMeta>, DiscoverError>>;

/// Looks a task up that had no TaskRun when the run was put together, from a
/// fresh read of the PipelineRun and, once it is asked for, of the TaskRun.
/// There is nothing to say while the task has no TaskRun, nor where the
/// PipelineRun is gone.
pub fn refresh_task(
    pr: &Result<Option<Json>, KubeError>,
    pipeline_task_name: &str,
    taskrun: &Option<Result<Option<Json>, KubeError>>,
) -> (r: TaskLookup)
    ensures
        match *pr {
            Err(e) => r == TaskLookup::Done(Err(DiscoverError::Kube(e))),
            Ok(None) => r == TaskLookup::Done(Ok(None)),
            Ok(Some(doc)) => {
                let p = planned_of(status_doc(doc@), pipeline_task_name@);
                match p.taskrun {
                    None => r == TaskLookup::Done(Ok(None)),
                    Some(name) => match *taskrun {
                        None => r matches Lookup::Ask(n) && n@ == name,
                        Some(Err(e)) => r == TaskLookup::Done(Err(DiscoverError::Kube(e))),
                        Some(Ok(None)) => r == TaskLookup::Done(Ok(None)),
                        Some(Ok(Some(tr))) => r matches Lookup::Done(Ok(Some(task))) && task@
                            == running_task(p, tr@),
                    },
                }
            },
        },
{
    let pr = match pr {
        Ok(Some(pr)) => pr,
        Ok(None) => {
            return Lookup::Done(Ok(None));
        },
        Err(e) => {
            return Lookup::Done(Err(DiscoverError::from(e.copy())));
        },
    };
    let empty = empty_object();
    let pr_status = match pr.get("status") {
        Some(s) => s,
        None => &empty,
    };
    let refs = run_refs(pr_status);
    let declared = declared_task_order(pr_status);
    assert(pr_status@ == status_doc(pr@));
    let p = plan_one(&declared, &refs, pipeline_task_name);
    match &p.taskrun_name {
        None => Lookup::Done(Ok(None)),
        Some(name) => match taskrun {
            None => Lookup::Ask(name.clone()),
            Some(Err(e)) => Lookup::Done(Err(DiscoverError::from(e.copy()))),
            Some(Ok(None)) => Lookup::Done(Ok(None)),
            Some(Ok(Some(tr))) => Lookup::Done(Ok(Some(task_meta(&p, Some(tr))))),
        },
    }
}

// ---------------------------------------------------------------------------
// What holds of every run
// ---------------------------------------------------------------------------

proof fn lemma_appended(names: Seq<Seq<char>>, refs: Seq<ChildView>)
    ensures
        names.is_prefix_of(appended(names, refs)),
        forall|k: int|
            0 <= k < refs.len() ==> appended(names, refs).contains((#[trigger] refs[k]).task),
        forall|i: int, j: int|
            names.len() <= i < appended(names, refs).len() && 0 <= j < i ==> (
            #[trigger] appended(names, refs)[i]) != (#[trigger] appended(names, refs)[j]),
        forall|i: int|
            names.len() <= i < appended(names, refs).len() ==> exists|k: int|
                0 <= k < refs.len() && (#[trigger] refs[k]).task == #[trigger] appended(
                    names,
                    refs,
                )[i],
    decreases refs.len(),
{
    let all = appended(names, refs);
    if refs.len() > 0 {
        let front = refs.drop_last();
        let so_far = appended(names, front);
        lemma_appended(names, front);
        assert forall|k: int| 0 <= k < refs.len() implies all.contains(
            (#[trigger] refs[k]).task,
        ) by {
            if k < front.len() {
                assert(front[k] == refs[k]);
                let i = choose|i: int| 0 <= i < so_far.len() && so_far[i] == refs[k].task;
                assert(all[i] == refs[k].task);
            } else if !so_far.contains(refs.last().task) {
                assert(all[so_far.len() as int] == refs[k].task);
            }
        }
        assert forall|i: int| names.len() <= i < all.len() implies exists|k: int|
            0 <= k < refs.len() && (#[trigger] refs[k]).task == #[trigger] all[i] by {
            if i < so_far.len() {
                assert(all[i] == so_far[i]);
                let k = choose|k: int|
                    0 <= k < front.len() && (#[trigger] front[k]).task == so_far[i];
                assert(refs[k].task == all[i]);
            } else {
                assert(refs[refs.len() - 1].task == all[i]);
            }
        }
        assert forall|i: int, j: int| names.len() <= i < all.len() && 0 <= j < i implies (
        #[trigger] all[i]) != (#[trigger] all[j]) by {
            assert(all[j] == so_far[j]);
            if i < so_far.len() {
                assert(all[i] == so_far[i]);
            } else {
                assert(so_far.contains(so_far[j]));
            }
        }
    }
}

/// The tasks of a run stand in the order in which the pipeline declares them.
/// A child of a task that the pipeline does not declare is not dropped: its
/// task stands behind the declared ones, once.
pub proof fn law_task_order(status: JsonView)
    ensures
        declared_names(declared_order_of(status)).is_prefix_of(task_names_of(status)),
        forall|k: int|
            0 <= k < refs_of(status).len() ==> task_names_of(status).contains(
                (#[trigger] refs_of(status)[k]).task,
            ),
        forall|i: int, j: int|
            declared_order_of(status).len() <= i < task_names_of(status).len() && 0 <= j < i ==> (
            #[trigger] task_names_of(status)[i]) != (#[trigger] task_names_of(status)[j]),
        forall|i: int|
            declared_order_of(status).len() <= i < task_names_of(status).len() ==> exists|k: int|
                0 <= k < refs_of(status).len() && (#[trigger] refs_of(status)[k]).task
                    == #[trigger] task_names_of(status)[i],
{
    lemma_appended(declared_names(declared_order_of(status)), refs_of(status));
}

/// How many TaskRuns have to be read for the tasks.
pub open spec fn reads(planned: Seq<PlannedView>) -> nat
    decreases planned.len(),
{
    if planned.len() == 0 {
        0
    } else {
        reads(planned.drop_last()) + if planned.last().taskrun is Some {
            1nat
        } else {
            0nat
        }
    }
}

/// The TaskRun that the reply for a task holds.
pub open spec fn taskrun_for(
    planned: Seq<PlannedView>,
    replies: Seq<Result<Option<JsonView>, KubeError>>,
    i: int,
) -> Option<JsonView> {
    if planned[i].taskrun is Some {
        replies[reads(planned.take(i)) as int]->Ok_0
    } else {
        None
    }
}

/// The tasks, each from the reply for it.
pub open spec fn live_tasks(
    planned: Seq<PlannedView>,
    replies: Seq<Result<Option<JsonView>, KubeError>>,
) -> Seq<TaskView> {
    Seq::new(planned.len(), |i: int| task_of(planned[i], taskrun_for(planned, replies, i)))
}

/// A task at the front takes its read with it.
pub proof fn lemma_reads(planned: Seq<PlannedView>)
    requires
        planned.len() > 0,
    ensures
        reads(planned) == reads(planned.drop_first()) + if planned[0].taskrun is Some {
            1nat
        } else {
            0nat
        },
    decreases planned.len(),
{
    if planned.len() > 1 {
        lemma_reads(planned.drop_last());
        assert(planned.drop_last().drop_first() =~= planned.drop_first().drop_last());
    } else {
        reveal_with_fuel(reads, 2);
    }
}

proof fn lemma_discovery(
    tasks: Seq<TaskView>,
    planned: Seq<PlannedView>,
    replies: Seq<Result<Option<JsonView>, KubeError>>,
)
    ensures
        ({
            let all_ok = forall|j: int|
                0 <= j < reads(planned) ==> (#[trigger] replies[j]) is Ok;
            replies.len() >= reads(planned) && all_ok ==> discovery(tasks, planned, replies)
                == Discovery::Done(Ok(tasks + live_tasks(planned, replies)))
        }),
        forall|j: int|
            0 <= j < reads(planned) && j < replies.len() && (#[trigger] replies[j]) is Err && (
            forall|m: int| 0 <= m < j ==> (#[trigger] replies[m]) is Ok) ==> discovery(
                tasks,
                planned,
                replies,
            ) == Discovery::Done(Err(replies[j]->Err_0)),
    decreases planned.len(),
{
    if planned.len() == 0 {
        assert(tasks + live_tasks(planned, replies) =~= tasks);
    } else {
        let rest = planned.drop_first();
        let reading = planned[0].taskrun is Some;
        lemma_reads(planned);
        assert(planned.take(0) =~= Seq::<PlannedView>::empty());
        if !reading || (replies.len() > 0 && replies[0] is Ok) {
            let left = if reading {
                replies.drop_first()
            } else {
                replies
            };
            let task = if reading {
                task_of(planned[0], replies[0]->Ok_0)
            } else {
                pending_task(planned[0])
            };
            lemma_discovery(tasks.push(task), rest, left);
            let shift: int = if reading {
                1
            } else {
                0
            };
            if replies.len() >= reads(planned) && (forall|j: int|
                0 <= j < reads(planned) ==> (#[trigger] replies[j]) is Ok) {
                assert forall|j: int| 0 <= j < reads(rest) implies (#[trigger] left[j]) is Ok by {
                    assert(left[j] == replies[j + shift]);
                }
                assert forall|i: int| 0 <= i < rest.len() implies #[trigger] live_tasks(
                    planned,
                    replies,
                )[i + 1] == live_tasks(rest, left)[i] by {
                    lemma_reads(planned.take(i + 1));
                    assert(planned.take(i + 1).drop_first() =~= rest.take(i));
                    assert(planned[i + 1] == rest[i]);
                    lemma_reads_bound(rest, i);
                }
                assert(tasks.push(task) + live_tasks(rest, left) =~= tasks + live_tasks(
                    planned,
                    replies,
                ));
            }
            assert forall|j: int|
                0 <= j < reads(planned) && j < replies.len() && (#[trigger] replies[j]) is Err && (
                forall|m: int| 0 <= m < j ==> (#[trigger] replies[m]) is Ok) implies discovery(
                tasks,
                planned,
                replies,
            ) == Discovery::Done(Err(replies[j]->Err_0)) by {
                assert(left[j - shift] == replies[j]);
                assert forall|m: int| 0 <= m < j - shift implies (#[trigger] left[m]) is Ok by {
                    assert(left[m] == replies[m + shift]);
                }
            }
        } else if replies.len() > 0 {
            assert(replies[0] is Err);
        }
    }
}

/// A TaskRun that has to be read is counted.
pub proof fn lemma_reads_bound(planned: Seq<PlannedView>, i: int)
    requires
        0 <= i < planned.len(),
    ensures
        planned[i].taskrun is Some ==> reads(planned.take(i)) < reads(planned),
    decreases planned.len(),
{
    let front = planned.drop_last();
    if i < front.len() {
        lemma_reads_bound(front, i);
        assert(front.take(i) =~= planned.take(i));
    } else {
        assert(planned.take(i) =~= front);
    }
}

/// A discovery whose reads have all succeeded gives every task of the run,
/// each one from its own TaskRun; a TaskRun that is not there yet, or not there
/// any more, leaves its task pending and is no error. A read that failed fails
/// the discovery, with its own error.
pub proof fn law_discovery_is_whole(
    planned: Seq<PlannedView>,
    replies: Seq<Result<Option<JsonView>, KubeError>>,
)
    ensures
        replies.len() == reads(planned) && (forall|j: int|
            0 <= j < replies.len() ==> (#[trigger] replies[j]) is Ok) ==> discovery(
            Seq::empty(),
            planned,
            replies,
        ) == Discovery::Done(Ok(live_tasks(planned, replies))),
        forall|j: int|
            0 <= j < reads(planned) && j < replies.len() && (#[trigger] replies[j]) is Err && (
            forall|m: int| 0 <= m < j ==> (#[trigger] replies[m]) is Ok) ==> discovery(
                Seq::empty(),
                planned,
                replies,
            ) == Discovery::Done(Err(replies[j]->Err_0)),
{
    lemma_discovery(Seq::empty(), planned, replies);
    assert(Seq::<TaskView>::empty() + live_tasks(planned, replies) =~= live_tasks(
        planned,
        replies,
    ));
}

/// A discovery ends: it asks for no more TaskRuns than there are to read.
pub proof fn law_discovery_ends(
    tasks: Seq<TaskView>,
    planned: Seq<PlannedView>,
    replies: Seq<Result<Option<JsonView>, KubeError>>,
)
    ensures
        discovery(tasks, planned, replies) is Ask ==> replies.len() < reads(planned) <= planned.len(),
    decreases planned.len(),
{
    if planned.len() > 0 {
        let rest = planned.drop_first();
        lemma_reads(planned);
        lemma_reads_at_most(planned);
        match planned[0].taskrun {
            None => law_discovery_ends(tasks.push(pending_task(planned[0])), rest, replies),
            Some(_) => if replies.len() > 0 && replies[0] is Ok {
                law_discovery_ends(
                    tasks.push(task_of(planned[0], replies[0]->Ok_0)),
                    rest,
                    replies.drop_first(),
                );
            },
        }
    }
}

proof fn lemma_reads_at_most(planned: Seq<PlannedView>)
    ensures
        reads(planned) <= planned.len(),
    decreases planned.len(),
{
    if planned.len() > 0 {
        lemma_reads_at_most(planned.drop_last());
    }
}

/// A task that is looked up again is put together as the discovery puts it
/// together: the plan of the run's task `i` is the plan of its name.
pub proof fn law_refresh_agrees(pr: JsonView, i: int)
    requires
        0 <= i < task_names_of(status_doc(pr)).len(),
    ensures
        tasks_planned(pr).len() == task_names_of(status_doc(pr)).len(),
        tasks_planned(pr)[i] == planned_of(status_doc(pr), tasks_planned(pr)[i].name),
        tasks_planned(pr)[i].name == task_names_of(status_doc(pr))[i],
        forall|replies: Seq<Result<Option<JsonView>, KubeError>>|
            (#[trigger] live_tasks(tasks_planned(pr), replies))[i] == task_of(
                planned_of(status_doc(pr), task_names_of(status_doc(pr))[i]),
                taskrun_for(tasks_planned(pr), replies, i),
            ),
{
}

} // verus!
