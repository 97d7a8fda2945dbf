//! A run, as it is put together from the cluster.
use vstd::prelude::*;
use vstd::string::*;

use crate::db::k8s_client::KubeError;
use crate::db::k8s_tekton::{condition_reason_of, condition_status_of};
use crate::handlers::run_discovery::{
    appended, child_of, child_refs, child_refs_of, child_views, declared_names, declared_of,
    declared_order_of, declared_task_order, declared_tasks, declared_views, discover_live_run,
    discovery, find_declared, find_ref, find_step, found, legacy_child_of, legacy_refs_of,
    legacy_task_runs, lemma_reads, lemma_reads_bound, pending_task, plan_run, planned_of,
    planned_views, pod_name_for_taskrun, reads, refresh_step_status, refresh_task, refs_of,
    reply_view, reply_views, run_refs, status_doc, step_identity, steps_from_taskrun_status,
    steps_of, task_names_of, task_of, tasks_planned, terminated_status, ChildRef, ChildView,
    DeclaredTask, DeclaredView, DiscoverError, Discovery, PlannedTask, PlannedView, RunPlan,
    TaskLookup,
};
use crate::json::{at, entries_at, field, integer_at, items_at, text_at, text_items, Json, JsonView};
use crate::laws::json::law_field;
use crate::laws::lists::lemma_pick;
use crate::laws::status::{lemma_true_is_not_false, tells};
use crate::lookup::Lookup;
use crate::models::run_stream::{
    step_views, task_views, RunMeta, RunStatus, StepMeta, StepView, TaskMeta, TaskView,
};
use crate::text::{opt_text, texts};

verus! {

// ---------------------------------------------------------------------------
// What stands in a PipelineRun
// ---------------------------------------------------------------------------

/// What an object's status holds under a key.
pub open spec fn in_status(obj: JsonView, key: Seq<char>) -> Option<JsonView> {
    at(field(obj, "status"@), key)
}

/// A missing status holds nothing.
pub proof fn lemma_status(obj: JsonView, key: Seq<char>)
    ensures
        field(status_doc(obj), key) == in_status(obj, key),
{
    law_field(JsonView::Object(Seq::empty()), key);
}

/// The items of `pipelineSpec.tasks`, given the document that holds that.
pub open spec fn declarations(spec_doc: Option<JsonView>) -> Seq<JsonView> {
    items_at(at(spec_doc, "tasks"@))
}

/// The item at `i` is the first one with the name.
pub open spec fn is_first_item(items: Seq<JsonView>, name: Seq<char>, i: int) -> bool {
    &&& 0 <= i < items.len()
    &&& text_at(field(items[i], "name"@)) == Some(name)
    &&& forall|k: int| 0 <= k < i ==> text_at(field(#[trigger] items[k], "name"@)) != Some(name)
}

/// No item has the name.
pub open spec fn no_item(items: Seq<JsonView>, name: Seq<char>) -> bool {
    forall|k: int|
        0 <= k < items.len() ==> text_at(field(#[trigger] items[k], "name"@)) != Some(name)
}

/// An item of `childReferences` that names a task and its TaskRun.
pub open spec fn is_child(c: JsonView) -> bool {
    text_at(field(c, "pipelineTaskName"@)) is Some && text_at(field(c, "name"@)) is Some
}

/// The tasks and TaskRuns of the children, in order: those of `childReferences`,
/// or, where none of its items names one, those of the `taskRuns` map.
pub open spec fn children(list: Option<JsonView>, map: Option<JsonView>) -> Seq<
    (Seq<char>, Seq<char>),
> {
    let current = items_at(list).filter(|c: JsonView| is_child(c));
    if current.len() > 0 {
        current.map_values(
            |c: JsonView|
                (text_at(field(c, "pipelineTaskName"@))->0, text_at(field(c, "name"@))->0),
        )
    } else {
        entries_at(map).filter(
            |e: (Seq<char>, JsonView)| text_at(field(e.1, "pipelineTaskName"@)) is Some,
        ).map_values(
            |e: (Seq<char>, JsonView)| (text_at(field(e.1, "pipelineTaskName"@))->0, e.0),
        )
    }
}

/// The pair at `i` is the first one of the task.
pub open spec fn is_first_child(pairs: Seq<(Seq<char>, Seq<char>)>, task: Seq<char>, i: int) -> bool {
    &&& 0 <= i < pairs.len()
    &&& pairs[i].0 == task
    &&& forall|k: int| 0 <= k < i ==> (#[trigger] pairs[k]).0 != task
}

/// No pair is of the task.
pub open spec fn no_child(pairs: Seq<(Seq<char>, Seq<char>)>, task: Seq<char>) -> bool {
    forall|k: int| 0 <= k < pairs.len() ==> (#[trigger] pairs[k]).0 != task
}

/// The task and the TaskRun of a child.
pub open spec fn pair_of_child(c: ChildView) -> (Seq<char>, Seq<char>) {
    (c.task, c.taskrun)
}

proof fn lemma_children(status: JsonView)
    ensures
        refs_of(status).map_values(|c: ChildView| pair_of_child(c)) == children(
            field(status, "childReferences"@),
            field(status, "taskRuns"@),
        ),
{
    let list = items_at(field(status, "childReferences"@));
    let p = |c: JsonView| is_child(c);
    let g = |c: JsonView|
        ChildView {
            task: text_at(field(c, "pipelineTaskName"@))->0,
            taskrun: text_at(field(c, "name"@))->0,
        };
    let f = |c: JsonView| child_of(c);
    lemma_pick(list, f, p, g);
    assert(child_refs_of(status) == list.filter(p).map_values(g));
    let map = entries_at(field(status, "taskRuns"@));
    let q = |e: (Seq<char>, JsonView)| text_at(field(e.1, "pipelineTaskName"@)) is Some;
    let h = |e: (Seq<char>, JsonView)|
        ChildView { task: text_at(field(e.1, "pipelineTaskName"@))->0, taskrun: e.0 };
    let l = |e: (Seq<char>, JsonView)| legacy_child_of(e);
    lemma_pick(map, l, q, h);
    assert(legacy_refs_of(status) == map.filter(q).map_values(h));
    assert(refs_of(status).map_values(|c: ChildView| pair_of_child(c)) =~= children(
        field(status, "childReferences"@),
        field(status, "taskRuns"@),
    ));
}

/// The children of a PipelineRun are those that `childReferences` names, in
/// order; or, where that names none, those of the `taskRuns` map.
pub proof fn law_children(
    status: &Json,
    current: Vec<ChildRef>,
    legacy: Vec<ChildRef>,
    r: Vec<ChildRef>,
)
    requires
        call_ensures(child_refs, (status,), current),
        call_ensures(legacy_task_runs, (status,), legacy),
        call_ensures(run_refs, (status,), r),
    ensures
        r@.map_values(|c: ChildRef| (c.pipeline_task_name@, c.taskrun_name@)) == children(
            field(status@, "childReferences"@),
            field(status@, "taskRuns"@),
        ),
        current@.len() > 0 ==> child_views(r@) == child_views(current@),
        current@.len() == 0 ==> child_views(r@) == child_views(legacy@),
        current@.map_values(|c: ChildRef| (c.pipeline_task_name@, c.taskrun_name@)) == items_at(
            field(status@, "childReferences"@),
        ).filter(|c: JsonView| is_child(c)).map_values(
            |c: JsonView|
                (text_at(field(c, "pipelineTaskName"@))->0, text_at(field(c, "name"@))->0),
        ),
{
    lemma_children(status@);
    assert(r@.map_values(|c: ChildRef| (c.pipeline_task_name@, c.taskrun_name@)) =~= child_views(
        r@,
    ).map_values(|c: ChildView| pair_of_child(c)));
    assert(child_views(current@).len() == current@.len());
    let list = items_at(field(status@, "childReferences"@));
    let p = |c: JsonView| is_child(c);
    let g = |c: JsonView|
        ChildView {
            task: text_at(field(c, "pipelineTaskName"@))->0,
            taskrun: text_at(field(c, "name"@))->0,
        };
    lemma_pick(list, |c: JsonView| child_of(c), p, g);
    assert(child_views(current@) == list.filter(p).map_values(g));
    assert forall|i: int| 0 <= i < current@.len() implies child_views(current@)[i] == (
    #[trigger] current@[i])@ by {}
    assert(current@.map_values(|c: ChildRef| (c.pipeline_task_name@, c.taskrun_name@))
        =~= list.filter(p).map_values(
        |c: JsonView| (text_at(field(c, "pipelineTaskName"@))->0, text_at(field(c, "name"@))->0),
    ));
}

proof fn lemma_find_ref(refs: Seq<ChildView>, task: Seq<char>, from: int)
    requires
        0 <= from <= refs.len(),
        forall|k: int| 0 <= k < from ==> (#[trigger] refs[k]).task != task,
    ensures
        match find_ref(refs.skip(from), task) {
            Some(c) => exists|i: int|
                is_first_child(refs.map_values(|c: ChildView| pair_of_child(c)), task, i) && c
                    == #[trigger] refs[i],
            None => no_child(refs.map_values(|c: ChildView| pair_of_child(c)), task),
        },
    decreases refs.len() - from,
{
    let rest = refs.skip(from);
    let pairs = refs.map_values(|c: ChildView| pair_of_child(c));
    if from < refs.len() {
        assert(rest[0] == refs[from]);
        assert(rest.drop_first() =~= refs.skip(from + 1));
        if refs[from].task == task {
            assert forall|k: int| 0 <= k < from implies (#[trigger] pairs[k]).0 != task by {
                assert(refs[k].task != task);
            }
            assert(is_first_child(pairs, task, from));
        } else {
            lemma_find_ref(refs, task, from + 1);
        }
    } else {
        assert forall|k: int| 0 <= k < pairs.len() implies (#[trigger] pairs[k]).0 != task by {
            assert(refs[k].task != task);
        }
    }
}

proof fn lemma_find_push(declared: Seq<DeclaredView>, d: DeclaredView, name: Seq<char>)
    ensures
        find_declared(declared.push(d), name) == (match find_declared(declared, name) {
            Some(e) => Some(e),
            None => if d.name == name {
                Some(d)
            } else {
                None
            },
        }),
    decreases declared.len(),
{
    reveal_with_fuel(find_declared, 2);
    if declared.len() > 0 {
        lemma_find_push(declared.drop_first(), d, name);
        assert(declared.push(d).drop_first() =~= declared.drop_first().push(d));
    } else {
        assert(declared.push(d).drop_first() =~= Seq::<DeclaredView>::empty());
    }
}

proof fn lemma_declared(items: Seq<JsonView>, name: Seq<char>)
    ensures
        match find_declared(items.filter_map(|t: JsonView| declared_of(t)), name) {
            Some(d) => exists|i: int| #[trigger]
                is_first_item(items, name, i) && declared_of(items[i]) == Some(d),
            None => no_item(items, name),
        },
    decreases items.len(),
{
    let f = |t: JsonView| declared_of(t);
    if items.len() > 0 {
        let front = items.drop_last();
        let t = items.last();
        lemma_declared(front, name);
        assert(f(t) == declared_of(t));
        let before = front.filter_map(f);
        let n = items.len() - 1;
        if let Some(d) = declared_of(t) {
            assert(items.filter_map(f) =~= before.push(d));
            lemma_find_push(before, d, name);
        } else {
            assert(items.filter_map(f) =~= before);
        }
        if let Some(e) = find_declared(before, name) {
            let i = choose|i: int| #[trigger]
                is_first_item(front, name, i) && declared_of(front[i]) == Some(e);
            assert forall|k: int| 0 <= k < i implies text_at(field(#[trigger] items[k], "name"@))
                != Some(name) by {
                assert(front[k] == items[k]);
            }
            assert(front[i] == items[i]);
            assert(is_first_item(items, name, i));
        } else {
            assert forall|k: int| 0 <= k < n implies text_at(field(#[trigger] items[k], "name"@))
                != Some(name) by {
                assert(front[k] == items[k]);
            }
            if text_at(field(t, "name"@)) == Some(name) {
                assert(is_first_item(items, name, n));
            }
        }
    } else {
        assert(items.filter_map(f) =~= Seq::<DeclaredView>::empty());
    }
}

/// The tasks that a pipeline declares are the items of `pipelineSpec.tasks` that
/// have a name, in order, each with the Task that it refers to and the texts of
/// its `runAfter`.
pub proof fn law_declared(status: &Json, pr: &Json, r: Vec<DeclaredTask>, same: Vec<DeclaredTask>)
    requires
        call_ensures(declared_task_order, (status,), r),
        call_ensures(declared_tasks, (pr,), same),
    ensures
        declared_views(r@) == declarations(field(status@, "pipelineSpec"@)).filter(
            |t: JsonView| text_at(field(t, "name"@)) is Some,
        ).map_values(
            |t: JsonView|
                DeclaredView {
                    name: text_at(field(t, "name"@))->0,
                    task_ref: text_at(at(field(t, "taskRef"@), "name"@)),
                    depends_on: text_items(items_at(field(t, "runAfter"@))),
                },
        ),
        field(pr@, "status"@) == Some(status@) ==> declared_views(same@) == declared_views(r@),
        field(pr@, "status"@) is None ==> same@.len() == 0,
{
    let p = |t: JsonView| text_at(field(t, "name"@)) is Some;
    let g = |t: JsonView|
        DeclaredView {
            name: text_at(field(t, "name"@))->0,
            task_ref: text_at(at(field(t, "taskRef"@), "name"@)),
            depends_on: text_items(items_at(field(t, "runAfter"@))),
        };
    let items = declarations(field(status@, "pipelineSpec"@));
    lemma_pick(items, |t: JsonView| declared_of(t), p, g);
    if field(pr@, "status"@) is None {
        lemma_status(pr@, "pipelineSpec"@);
        assert(declared_order_of(status_doc(pr@)) =~= Seq::<DeclaredView>::empty());
        assert(declared_views(same@).len() == same@.len());
    }
}

/// The view of a declared task holds all that the task does.
pub proof fn law_declared_views(v: Vec<DeclaredTask>, i: int)
    requires
        0 <= i < v@.len(),
    ensures
        declared_views(v@).len() == v@.len(),
        declared_views(v@)[i].name == v@[i].name@,
        declared_views(v@)[i].task_ref == opt_text(v@[i].task_ref),
        declared_views(v@)[i].depends_on == texts(v@[i].depends_on@),
{
}

// ---------------------------------------------------------------------------
// What stands in a TaskRun
// ---------------------------------------------------------------------------

/// The step is what an entry of `steps` says: named by it, or "unknown"; in the
/// container that it names, or else in the one that is named after the step.
/// What has terminated has succeeded exactly with the exit code 0, and has
/// failed with any other and with none; what runs is running; and what waits, or
/// says nothing, is pending. The reason is that of the end, or of the wait.
pub open spec fn is_step(s: JsonView, step: StepView) -> bool {
    let ended = field(s, "terminated"@);
    let runs = field(s, "running"@);
    let waits = field(s, "waiting"@);
    &&& match text_at(field(s, "name"@)) {
        Some(name) => step.name == name,
        None => step.name == "unknown"@,
    }
    &&& match text_at(field(s, "container"@)) {
        Some(container) => step.container == container,
        None => step.container == "step-"@ + step.name,
    }
    &&& step.status is Succeeded <==> ended is Some && integer_at(field(ended->0, "exitCode"@))
        == Some(0i64)
    &&& step.status is Failed <==> ended is Some && integer_at(field(ended->0, "exitCode"@))
        != Some(0i64)
    &&& step.status is Running <==> ended is None && runs is Some
    &&& step.status is Pending <==> ended is None && runs is None
    &&& ended is Some ==> step.reason == text_at(field(ended->0, "reason"@))
    &&& ended is None && runs is Some ==> step.reason is None
    &&& ended is None && runs is None ==> step.reason == text_at(at(waits, "reason"@))
}

/// A TaskRun has one step for each entry of `steps`, in order.
pub proof fn law_steps(status: &Json, r: Vec<StepMeta>, i: int)
    requires
        call_ensures(steps_from_taskrun_status, (status,), r),
    ensures
        r@.len() == items_at(field(status@, "steps"@)).len(),
        0 <= i < r@.len() ==> is_step(items_at(field(status@, "steps"@))[i], r@[i]@),
{
    assert(step_views(r@).len() == r@.len());
    if 0 <= i < r@.len() {
        assert(step_views(r@)[i] == r@[i]@);
    }
}

/// A step is named by its entry, or "unknown"; and so is its container, or else
/// it is named after the step.
pub proof fn law_step_identity(s: &Json, r: (String, String))
    requires
        call_ensures(step_identity, (s,), r),
    ensures
        match text_at(field(s@, "name"@)) {
            Some(name) => r.0@ == name,
            None => r.0@ == "unknown"@,
        },
        match text_at(field(s@, "container"@)) {
            Some(container) => r.1@ == container,
            None => r.1@ == "step-"@ + r.0@,
        },
{
}

/// A container that has terminated has succeeded exactly with the exit code 0.
pub proof fn law_exit_code(t: &Json, r: RunStatus)
    requires
        call_ensures(terminated_status, (t,), r),
    ensures
        r is Succeeded <==> integer_at(field(t@, "exitCode"@)) == Some(0i64),
        r is Failed <==> integer_at(field(t@, "exitCode"@)) != Some(0i64),
{
}

/// A TaskRun's pod is the one that its status names, or else the one that is
/// named after it.
pub proof fn law_pod(status: &Json, taskrun: &str, r: String)
    requires
        call_ensures(pod_name_for_taskrun, (status, taskrun), r),
    ensures
        match text_at(field(status@, "podName"@)) {
            Some(pod) => r@ == pod,
            None => r@ == taskrun@ + "-pod"@,
        },
{
}

proof fn lemma_find_step(steps: Seq<StepView>, name: Seq<char>, from: int)
    requires
        0 <= from <= steps.len(),
        forall|k: int| 0 <= k < from ==> (#[trigger] steps[k]).name != name,
    ensures
        match find_step(steps.skip(from), name) {
            Some(s) => exists|i: int|
                0 <= i < steps.len() && s == #[trigger] steps[i] && s.name == name && (forall|k: int|
                    0 <= k < i ==> (#[trigger] steps[k]).name != name),
            None => forall|k: int| 0 <= k < steps.len() ==> (#[trigger] steps[k]).name != name,
        },
    decreases steps.len() - from,
{
    let rest = steps.skip(from);
    if from < steps.len() {
        assert(rest[0] == steps[from]);
        assert(rest.drop_first() =~= steps.skip(from + 1));
        if steps[from].name != name {
            lemma_find_step(steps, name, from + 1);
        }
    }
}

/// A step that is asked for again is the first one of its name in the TaskRun,
/// as that is now. There is none where the TaskRun cannot be had, or has no step
/// of the name.
pub proof fn law_step_is_refreshed(
    reply: &Result<Option<Json>, KubeError>,
    name: &str,
    status: &Json,
    steps: Vec<StepMeta>,
    r: Option<StepMeta>,
    i: int,
)
    requires
        call_ensures(refresh_step_status, (reply, name), r),
        call_ensures(steps_from_taskrun_status, (status,), steps),
    ensures
        !(reply matches Ok(Some(_))) ==> r is None,
        (reply matches Ok(Some(tr)) && field(tr@, "status"@) is None) ==> r is None,
        (reply matches Ok(Some(tr)) && field(tr@, "status"@) == Some(status@)) ==> {
            &&& r is Some <==> exists|k: int| 0 <= k < steps@.len() && (#[trigger] steps@[k]).name@ == name@
            &&& 0 <= i < steps@.len() && steps@[i].name@ == name@ && (forall|k: int|
                0 <= k < i ==> (#[trigger] steps@[k]).name@ != name@) ==> (r matches Some(s) && s@
                == steps@[i]@)
        },
{
    let views = step_views(steps@);
    if let Ok(Some(tr)) = reply {
        if field(tr@, "status"@) == Some(status@) {
            assert(status_doc(tr@) == status@);
            assert(views.skip(0) =~= views);
            lemma_find_step(views, name@, 0);
            assert forall|k: int| 0 <= k < steps@.len() implies (#[trigger] steps@[k]).name@
                == views[k].name by {}
            assert forall|k: int| 0 <= k < views.len() implies (#[trigger] views[k]).name
                == steps@[k].name@ by {}
            if exists|k: int| 0 <= k < steps@.len() && (#[trigger] steps@[k]).name@ == name@ {
                let k = choose|k: int|
                    0 <= k < steps@.len() && (#[trigger] steps@[k]).name@ == name@;
                assert(views[k].name == name@);
            }
        } else if field(tr@, "status"@) is None {
            lemma_status(tr@, "steps"@);
            let none = steps_of(status_doc(tr@));
            assert(none.len() == 0);
        }
    }
}

// ---------------------------------------------------------------------------
// The plan of a run
// ---------------------------------------------------------------------------

/// The task is planned as the PipelineRun says: with the Task and the `runAfter`
/// of the first item of its name that the pipeline declares, and with the
/// TaskRun of its first child.
pub open spec fn is_planned(pr: JsonView, p: PlannedView) -> bool {
    let items = declarations(in_status(pr, "pipelineSpec"@));
    let pairs = children(in_status(pr, "childReferences"@), in_status(pr, "taskRuns"@));
    &&& forall|i: int| #[trigger]
        is_first_item(items, p.name, i) ==> p.task_ref == text_at(
            at(field(items[i], "taskRef"@), "name"@),
        ) && p.depends_on == text_items(items_at(field(items[i], "runAfter"@)))
    &&& no_item(items, p.name) ==> p.task_ref is None && p.depends_on.len() == 0
    &&& forall|i: int| #[trigger]
        is_first_child(pairs, p.name, i) ==> p.taskrun == Some(pairs[i].1)
    &&& no_child(pairs, p.name) ==> p.taskrun is None
}

proof fn lemma_planned(pr: JsonView, name: Seq<char>)
    ensures
        is_planned(pr, planned_of(status_doc(pr), name)),
        planned_of(status_doc(pr), name).name == name,
{
    let status = status_doc(pr);
    let p = planned_of(status, name);
    lemma_status(pr, "pipelineSpec"@);
    lemma_status(pr, "childReferences"@);
    lemma_status(pr, "taskRuns"@);
    let items = declarations(in_status(pr, "pipelineSpec"@));
    let pairs = children(in_status(pr, "childReferences"@), in_status(pr, "taskRuns"@));
    lemma_declared(items, name);
    lemma_children(status);
    let refs = refs_of(status);
    assert(refs.skip(0) =~= refs);
    lemma_find_ref(refs, name, 0);
    assert forall|i: int| #[trigger] is_first_item(items, name, i) implies p.task_ref == text_at(
        at(field(items[i], "taskRef"@), "name"@),
    ) && p.depends_on == text_items(items_at(field(items[i], "runAfter"@))) by {
        let d = find_declared(declared_order_of(status), name);
        assert(text_at(field(items[i], "name"@)) == Some(name));
        assert(d is Some);
        let j = choose|j: int| #[trigger]
            is_first_item(items, name, j) && declared_of(items[j]) == d;
        assert(i == j) by {
            if i < j {
                assert(text_at(field(items[i], "name"@)) != Some(name));
            } else if j < i {
                assert(text_at(field(items[j], "name"@)) != Some(name));
            }
        }
    }
    assert(no_item(items, name) ==> find_declared(declared_order_of(status), name) is None) by {
        if let Some(d) = find_declared(declared_order_of(status), name) {
            let j = choose|j: int| #[trigger]
                is_first_item(items, name, j) && declared_of(items[j]) == Some(d);
            assert(text_at(field(items[j], "name"@)) == Some(name));
        }
    }
    assert forall|i: int| #[trigger] is_first_child(pairs, name, i) implies p.taskrun == Some(
        pairs[i].1,
    ) by {
        assert(pairs[i].0 == name);
        let c = find_ref(refs, name);
        assert(c is Some);
        let j = choose|j: int| is_first_child(pairs, name, j) && c->0 == #[trigger] refs[j];
        assert(i == j) by {
            if i < j {
                assert(pairs[i].0 != name);
            } else if j < i {
                assert(pairs[j].0 != name);
            }
        }
        assert(pairs[j] == pair_of_child(refs[j]));
    }
    assert(no_child(pairs, name) ==> find_ref(refs, name) is None) by {
        if let Some(c) = find_ref(refs, name) {
            let j = choose|j: int| is_first_child(pairs, name, j) && c == #[trigger] refs[j];
            assert(pairs[j].0 == name);
        }
    }
}

/// A PipelineRun says of its run what the pipeline is, how it is doing, and why;
/// and of each task what the pipeline declares and which TaskRun it has.
pub proof fn law_plan(pr: &Json, r: RunPlan, k: int)
    requires
        call_ensures(plan_run, (pr,), r),
    ensures
        opt_text(r.pipeline_name) == text_at(
            at(at(field(pr@, "spec"@), "pipelineRef"@), "name"@),
        ),
        tells(condition_status_of(pr@), in_status(pr@, "startTime"@) is Some, r.status),
        opt_text(r.reason) == condition_reason_of(pr@),
        0 <= k < r.tasks@.len() ==> is_planned(pr@, r.tasks@[k]@),
{
    lemma_true_is_not_false();
    lemma_status(pr@, "startTime"@);
    if 0 <= k < r.tasks@.len() {
        assert(planned_views(r.tasks@).len() == r.tasks@.len());
        assert(planned_views(r.tasks@)[k] == r.tasks@[k]@);
        let status = status_doc(pr@);
        assert(tasks_planned(pr@)[k] == planned_of(status, task_names_of(status)[k]));
        lemma_planned(pr@, task_names_of(status)[k]);
    }
}

/// The view of a planned task holds all that the task does.
pub proof fn law_planned_view(p: PlannedTask)
    ensures
        p@.name == p.name@,
        p@.task_ref == opt_text(p.task_ref),
        p@.depends_on == texts(p.depends_on@),
        p@.taskrun == opt_text(p.taskrun_name),
{
}

// ---------------------------------------------------------------------------
// The order of a run's tasks
// ---------------------------------------------------------------------------

/// The names are those of the pairs that are not among the first ones yet, each
/// once, in the order in which the pairs name them first.
pub open spec fn follows_children(
    names: Seq<Seq<char>>,
    declared: int,
    pairs: Seq<(Seq<char>, Seq<char>)>,
) -> bool {
    &&& forall|k: int| 0 <= k < pairs.len() ==> names.contains((#[trigger] pairs[k]).0)
    &&& forall|i: int, j: int|
        0 <= i < j < names.len() && j >= declared ==> (#[trigger] names[i]) != (#[trigger] names[j])
    &&& forall|j: int|
        declared <= j < names.len() ==> exists|k: int|
            0 <= k < pairs.len() && (#[trigger] pairs[k]).0 == #[trigger] names[j]
    &&& forall|i: int, j: int, k: int|
        declared <= i < j < names.len() && 0 <= k < pairs.len() && (#[trigger] pairs[k]).0 == (
        #[trigger] names[j]) ==> is_named(pairs.take(k), #[trigger] names[i])
}

/// One of the pairs is of the task.
pub open spec fn is_named(pairs: Seq<(Seq<char>, Seq<char>)>, task: Seq<char>) -> bool {
    exists|m: int| 0 <= m < pairs.len() && (#[trigger] pairs[m]).0 == task
}

proof fn lemma_order(names: Seq<Seq<char>>, refs: Seq<ChildView>)
    ensures
        names.is_prefix_of(appended(names, refs)),
        follows_children(
            appended(names, refs),
            names.len() as int,
            refs.map_values(|c: ChildView| pair_of_child(c)),
        ),
    decreases refs.len(),
{
    let all = appended(names, refs);
    let pairs = refs.map_values(|c: ChildView| pair_of_child(c));
    let n = names.len() as int;
    if refs.len() > 0 {
        let front = refs.drop_last();
        let early = front.map_values(|c: ChildView| pair_of_child(c));
        let so_far = appended(names, front);
        let last = refs.last().task;
        lemma_order(names, front);
        assert forall|k: int| 0 <= k < early.len() implies (#[trigger] early[k]) == pairs[k] by {}
        assert(pairs[refs.len() - 1].0 == last);
        assert forall|i: int| 0 <= i < so_far.len() implies (#[trigger] all[i]) == so_far[i] by {}
        assert forall|k: int| 0 <= k < pairs.len() implies all.contains((#[trigger] pairs[k]).0) by {
            if k < early.len() {
                assert(so_far.contains(early[k].0));
                let i = choose|i: int| 0 <= i < so_far.len() && so_far[i] == early[k].0;
                assert(all[i] == pairs[k].0);
            } else if !so_far.contains(last) {
                assert(all[so_far.len() as int] == pairs[k].0);
            } else {
                let i = choose|i: int| 0 <= i < so_far.len() && so_far[i] == last;
                assert(all[i] == last);
            }
        }
        assert forall|i: int, j: int| 0 <= i < j < all.len() && j >= n implies (#[trigger] all[i])
            != (#[trigger] all[j]) by {
            assert(all[i] == so_far[i]);
            if j < so_far.len() {
                assert(all[j] == so_far[j]);
            } else {
                assert(so_far.contains(so_far[i]));
            }
        }
        assert forall|j: int| n <= j < all.len() implies exists|k: int|
            0 <= k < pairs.len() && (#[trigger] pairs[k]).0 == #[trigger] all[j] by {
            if j < so_far.len() {
                let k = choose|k: int|
                    0 <= k < early.len() && (#[trigger] early[k]).0 == so_far[j];
                assert(pairs[k].0 == all[j]);
            } else {
                assert(pairs[refs.len() - 1].0 == all[j]);
            }
        }
        assert forall|i: int, j: int, k: int|
            n <= i < j < all.len() && 0 <= k < pairs.len() && (#[trigger] pairs[k]).0 == (
            #[trigger] all[j]) implies is_named(pairs.take(k), #[trigger] all[i]) by {
            assert(all[i] == so_far[i]);
            if k < early.len() {
                assert(early[k].0 == all[j]);
                if j < so_far.len() {
                    assert(early[k].0 == so_far[j]);
                    assert(is_named(early.take(k), so_far[i]));
                    assert(early.take(k) =~= pairs.take(k));
                } else {
                    assert(so_far.contains(early[k].0));
                }
            } else {
                let m = choose|m: int|
                    0 <= m < early.len() && (#[trigger] early[m]).0 == so_far[i];
                assert(pairs.take(k)[m].0 == all[i]);
            }
        }
    }
}

/// The tasks of a run stand in the order in which the pipeline declares them.
/// Behind these stand those that only a child names, each once, in the order of
/// the children. None is left out.
pub proof fn law_order_of_tasks(pr: &Json, r: RunPlan)
    requires
        call_ensures(plan_run, (pr,), r),
    ensures
        ({
            let names = r.tasks@.map_values(|p: PlannedTask| p.name@);
            let declared = declarations(in_status(pr@, "pipelineSpec"@)).filter(
                |t: JsonView| text_at(field(t, "name"@)) is Some,
            ).map_values(|t: JsonView| text_at(field(t, "name"@))->0);
            &&& declared.is_prefix_of(names)
            &&& follows_children(
                names,
                declared.len() as int,
                children(in_status(pr@, "childReferences"@), in_status(pr@, "taskRuns"@)),
            )
        }),
{
    let status = status_doc(pr@);
    lemma_status(pr@, "pipelineSpec"@);
    lemma_status(pr@, "childReferences"@);
    lemma_status(pr@, "taskRuns"@);
    let items = declarations(in_status(pr@, "pipelineSpec"@));
    let p = |t: JsonView| text_at(field(t, "name"@)) is Some;
    let g = |t: JsonView|
        DeclaredView {
            name: text_at(field(t, "name"@))->0,
            task_ref: text_at(at(field(t, "taskRef"@), "name"@)),
            depends_on: text_items(items_at(field(t, "runAfter"@))),
        };
    lemma_pick(items, |t: JsonView| declared_of(t), p, g);
    let declared = items.filter(p).map_values(|t: JsonView| text_at(field(t, "name"@))->0);
    assert(declared_names(declared_order_of(status)) =~= declared);
    lemma_children(status);
    lemma_order(declared, refs_of(status));
    let names = r.tasks@.map_values(|p: PlannedTask| p.name@);
    assert(names =~= task_names_of(status)) by {
        assert(planned_views(r.tasks@).len() == r.tasks@.len());
        assert forall|k: int| 0 <= k < r.tasks@.len() implies #[trigger] names[k]
            == task_names_of(status)[k] by {
            assert(planned_views(r.tasks@)[k] == r.tasks@[k]@);
            assert(tasks_planned(pr@)[k].name == task_names_of(status)[k]);
        }
    }
}

// ---------------------------------------------------------------------------
// Putting the run together
// ---------------------------------------------------------------------------

/// How many of the first `k` tasks have a TaskRun to read.
pub open spec fn taken(tasks: Seq<PlannedTask>, k: int) -> nat
    decreases k,
{
    if k <= 0 {
        0
    } else {
        taken(tasks, k - 1) + if tasks[k - 1].taskrun_name is Some {
            1nat
        } else {
            0nat
        }
    }
}

proof fn lemma_taken(tasks: Seq<PlannedTask>, k: int)
    requires
        0 <= k <= tasks.len(),
    ensures
        taken(tasks, k) == reads(planned_views(tasks).take(k)),
    decreases k,
{
    let planned = planned_views(tasks);
    if k > 0 {
        lemma_taken(tasks, k - 1);
        assert(planned.take(k).drop_last() =~= planned.take(k - 1));
        assert(planned.take(k).last() == tasks[k - 1]@);
    }
}

/// The task is what its TaskRun says: its pod, its status by its condition and
/// its start, the condition's reason, and its steps.
pub open spec fn is_live_task(tr: JsonView, t: TaskView) -> bool {
    let steps = items_at(in_status(tr, "steps"@));
    &&& match text_at(in_status(tr, "podName"@)) {
        Some(pod) => t.pod_name == Some(pod),
        None => t.pod_name == Some(t.taskrun_name + "-pod"@),
    }
    &&& tells(condition_status_of(tr), in_status(tr, "startTime"@) is Some, t.status)
    &&& t.reason == condition_reason_of(tr)
    &&& t.steps.len() == steps.len()
    &&& forall|i: int| 0 <= i < steps.len() ==> is_step(steps[i], #[trigger] t.steps[i])
}

/// Nothing is known of the task but what is planned.
pub open spec fn is_bare_task(t: TaskView) -> bool {
    t.pod_name is None && t.status is Pending && t.reason is None && t.steps.len() == 0
}

proof fn lemma_task(p: PlannedView, tr: Option<JsonView>)
    ensures
        ({
            let t = task_of(p, tr);
            &&& t.name == p.name
            &&& t.task_ref == p.task_ref
            &&& t.depends_on == p.depends_on
            &&& p.taskrun matches Some(name) ==> t.taskrun_name == name
            &&& p.taskrun is None ==> t.taskrun_name.len() == 0
            &&& tr matches Some(doc) ==> is_live_task(doc, t)
            &&& tr is None ==> is_bare_task(t)
        }),
{
    lemma_true_is_not_false();
    if let Some(doc) = tr {
        lemma_status(doc, "podName"@);
        lemma_status(doc, "steps"@);
        lemma_status(doc, "startTime"@);
        let t = task_of(p, tr);
        let steps = items_at(in_status(doc, "steps"@));
        assert(t.steps.len() == steps.len());
        assert forall|i: int| 0 <= i < steps.len() implies is_step(
            steps[i],
            #[trigger] t.steps[i],
        ) by {}
    }
}

/// The task at `i` is put together from the reply for it.
spec fn put_together(
    planned: Seq<PlannedView>,
    replies: Seq<Result<Option<JsonView>, KubeError>>,
    i: int,
    t: TaskView,
) -> bool {
    let j = reads(planned.take(i)) as int;
    match planned[i].taskrun {
        None => t == task_of(planned[i], None),
        Some(_) => j < replies.len() && replies[j] is Ok && t == task_of(
            planned[i],
            replies[j]->Ok_0,
        ),
    }
}

spec fn failed_at(
    planned: Seq<PlannedView>,
    replies: Seq<Result<Option<JsonView>, KubeError>>,
    j: int,
    e: KubeError,
) -> bool {
    &&& 0 <= j < replies.len()
    &&& j < reads(planned)
    &&& replies[j] == Err::<Option<JsonView>, KubeError>(e)
    &&& forall|m: int| 0 <= m < j ==> (#[trigger] replies[m]) is Ok
}

spec fn asked_at(
    planned: Seq<PlannedView>,
    replies: Seq<Result<Option<JsonView>, KubeError>>,
    i: int,
    name: Seq<char>,
) -> bool {
    &&& 0 <= i < planned.len()
    &&& planned[i].taskrun == Some(name)
    &&& reads(planned.take(i)) == replies.len()
    &&& forall|m: int| 0 <= m < replies.len() ==> (#[trigger] replies[m]) is Ok
}

proof fn lemma_discovered(
    tasks: Seq<TaskView>,
    planned: Seq<PlannedView>,
    replies: Seq<Result<Option<JsonView>, KubeError>>,
)
    ensures
        discovery(tasks, planned, replies) matches Lookup::Done(Ok(all)) ==> {
            &&& all.len() == tasks.len() + planned.len()
            &&& forall|i: int| 0 <= i < tasks.len() ==> #[trigger] all[i] == tasks[i]
            &&& forall|i: int|
                tasks.len() <= i < all.len() ==> put_together(
                    planned,
                    replies,
                    i - tasks.len(),
                    #[trigger] all[i],
                )
        },
        discovery(tasks, planned, replies) matches Lookup::Done(Err(e)) ==> exists|j: int|
            failed_at(planned, replies, j, e),
        discovery(tasks, planned, replies) is Ask ==> exists|i: int|
            asked_at(planned, replies, i, discovery(tasks, planned, replies)->Ask_0),
    decreases planned.len(),
{
    if planned.len() > 0 {
        let rest = planned.drop_first();
        let reading = planned[0].taskrun is Some;
        lemma_reads(planned);
        assert(planned.take(0) =~= Seq::<PlannedView>::empty());
        if !reading || (replies.len() > 0 && replies[0] is Ok) {
            let shift: int = if reading {
                1
            } else {
                0
            };
            let left = if reading {
                replies.drop_first()
            } else {
                replies
            };
            let task = if reading {
                task_of(planned[0], replies[0]->Ok_0)
            } else {
                pending_task(planned[0])
            };
            lemma_discovered(tasks.push(task), rest, left);
            assert(discovery(tasks, planned, replies) == discovery(tasks.push(task), rest, left));
            assert forall|i: int| 0 <= i < rest.len() implies reads(#[trigger] planned.take(i + 1))
                == reads(rest.take(i)) + shift by {
                lemma_reads(planned.take(i + 1));
                assert(planned.take(i + 1).drop_first() =~= rest.take(i));
            }
            assert forall|m: int| 0 <= m < left.len() implies (#[trigger] left[m]) == replies[m
                + shift] by {}
            match discovery(tasks, planned, replies) {
                Lookup::Done(Ok(all)) => {
                    assert(all[tasks.len() as int] == task) by {
                        assert(tasks.push(task)[tasks.len() as int] == task);
                    }
                    assert forall|i: int| 0 <= i < tasks.len() implies #[trigger] all[i]
                        == tasks[i] by {
                        assert(tasks.push(task)[i] == tasks[i]);
                    }
                    assert forall|i: int| tasks.len() <= i < all.len() implies put_together(
                        planned,
                        replies,
                        i - tasks.len(),
                        #[trigger] all[i],
                    ) by {
                        let k = i - tasks.len();
                        if k > 0 {
                            assert(put_together(rest, left, k - 1, all[i]));
                            assert(planned.take((k - 1) + 1) =~= planned.take(k));
                            assert(rest[k - 1] == planned[k]);
                        }
                    }
                },
                Lookup::Done(Err(e)) => {
                    let j = choose|j: int| failed_at(rest, left, j, e);
                    assert forall|m: int| 0 <= m < j + shift implies (#[trigger] replies[m]) is Ok by {
                        if m >= shift {
                            assert(left[m - shift] == replies[m]);
                        }
                    }
                    assert(failed_at(planned, replies, j + shift, e));
                },
                Lookup::Ask(name) => {
                    let i = choose|i: int| asked_at(rest, left, i, name);
                    assert(planned[i + 1] == rest[i]);
                    assert(reads(planned.take(i + 1)) == reads(rest.take(i)) + shift);
                    assert forall|m: int| 0 <= m < replies.len() implies (
                    #[trigger] replies[m]) is Ok by {
                        if m >= shift {
                            assert(left[m - shift] == replies[m]);
                        }
                    }
                    assert(asked_at(planned, replies, i + 1, name));
                    assert(name == discovery(tasks, planned, replies)->Ask_0);
                },
            }
        } else if replies.len() == 0 {
            let name = planned[0].taskrun->0;
            assert(planned[0].taskrun == Some(name));
            assert(discovery(tasks, planned, replies) == Discovery::Ask(name));
            assert(asked_at(planned, replies, 0, name));
            assert(name == discovery(tasks, planned, replies)->Ask_0);
        } else {
            let e = replies[0]->Err_0;
            assert(discovery(tasks, planned, replies) == Discovery::Done(Err(e)));
            assert(failed_at(planned, replies, 0, e));
        }
    }
}

/// The task is put together from its plan and the reply for its TaskRun.
pub open spec fn is_discovered(
    p: PlannedTask,
    reply: Option<Result<Option<Json>, KubeError>>,
    t: TaskMeta,
) -> bool {
    &&& t.name@ == p.name@
    &&& opt_text(t.task_ref) == opt_text(p.task_ref)
    &&& texts(t.depends_on@) == texts(p.depends_on@)
    &&& match p.taskrun_name {
        None => t.taskrun_name@.len() == 0 && is_bare_task(t@),
        Some(name) => t.taskrun_name@ == name@ && match reply {
            Some(Ok(Some(tr))) => is_live_task(tr@, t@),
            Some(Ok(None)) => is_bare_task(t@),
            _ => false,
        },
    }
}

proof fn lemma_run(
    run_name: &str,
    pr: &Json,
    replies: &Vec<Result<Option<Json>, KubeError>>,
    plan: RunPlan,
    run: RunMeta,
    k: int,
)
    requires
        call_ensures(plan_run, (pr,), plan),
        call_ensures(discover_live_run, (run_name, pr, replies), Lookup::Done(Ok(run))),
    ensures
        run.tasks@.len() == plan.tasks@.len(),
        0 <= k < run.tasks@.len() ==> is_discovered(
            plan.tasks@[k],
            if taken(plan.tasks@, k) < replies@.len() {
                Some(replies@[taken(plan.tasks@, k) as int])
            } else {
                None
            },
            run.tasks@[k],
        ),
{
    let planned = tasks_planned(pr@);
    let given = reply_views(replies@);
    lemma_discovered(Seq::empty(), planned, given);
    assert(planned_views(plan.tasks@).len() == plan.tasks@.len());
    assert(task_views(run.tasks@).len() == run.tasks@.len());
    if 0 <= k < run.tasks@.len() {
        let all = discovery(Seq::empty(), planned, given)->Done_0->Ok_0;
        assert(all == task_views(run.tasks@));
        assert(all[k] == run.tasks@[k]@);
        assert(planned[k] == plan.tasks@[k]@);
        lemma_taken(plan.tasks@, k);
        let j = taken(plan.tasks@, k) as int;
        assert(put_together(planned, given, k, all[k]));
        if plan.tasks@[k].taskrun_name is Some {
            assert(planned[k].taskrun is Some);
            assert(given[j] == reply_view(replies@[j]));
            lemma_task(planned[k], given[j]->Ok_0);
        } else {
            lemma_task(planned[k], None);
        }
    }
}

/// A run that is put together from the cluster has its name, pipeline, status
/// and reason from the PipelineRun, and the tasks of the plan, in order: each
/// from the reply for its TaskRun, pending where there is none or it is gone.
pub proof fn law_discovered_run(
    run_name: &str,
    pr: &Json,
    replies: &Vec<Result<Option<Json>, KubeError>>,
    plan: RunPlan,
    run: RunMeta,
    k: int,
)
    requires
        call_ensures(plan_run, (pr,), plan),
        call_ensures(discover_live_run, (run_name, pr, replies), Lookup::Done(Ok(run))),
    ensures
        run.run_name@ == run_name@,
        run.source is Tekton,
        opt_text(run.pipeline_name) == text_at(
            at(at(field(pr@, "spec"@), "pipelineRef"@), "name"@),
        ),
        tells(condition_status_of(pr@), in_status(pr@, "startTime"@) is Some, run.status),
        opt_text(run.reason) == condition_reason_of(pr@),
        run.tasks@.len() == plan.tasks@.len(),
        0 <= k < run.tasks@.len() ==> is_discovered(
            plan.tasks@[k],
            if taken(plan.tasks@, k) < replies@.len() {
                Some(replies@[taken(plan.tasks@, k) as int])
            } else {
                None
            },
            run.tasks@[k],
        ),
{
    lemma_true_is_not_false();
    lemma_status(pr@, "startTime"@);
    lemma_run(run_name, pr, replies, plan, run, k);
}

/// What the pipeline declares of a task is what the run says of it, whether or
/// not the task has a TaskRun: its Task, and the tasks that it runs after, in
/// order, are those of the first item with its name; and a task that no item
/// names has neither.
pub proof fn law_dependencies(
    run_name: &str,
    pr: &Json,
    replies: &Vec<Result<Option<Json>, KubeError>>,
    run: RunMeta,
    k: int,
    i: int,
)
    requires
        call_ensures(discover_live_run, (run_name, pr, replies), Lookup::Done(Ok(run))),
        0 <= k < run.tasks@.len(),
    ensures
        ({
            let items = items_at(at(in_status(pr@, "pipelineSpec"@), "tasks"@));
            let task = run.tasks@[k];
            &&& is_first_item(items, task.name@, i) ==> texts(task.depends_on@) == text_items(
                items_at(field(items[i], "runAfter"@)),
            ) && opt_text(task.task_ref) == text_at(at(field(items[i], "taskRef"@), "name"@))
            &&& no_item(items, task.name@) ==> task.depends_on@.len() == 0 && task.task_ref is None
        }),
{
    let planned = tasks_planned(pr@);
    let given = reply_views(replies@);
    let names = task_names_of(status_doc(pr@));
    lemma_discovered(Seq::empty(), planned, given);
    let all = discovery(Seq::empty(), planned, given)->Done_0->Ok_0;
    assert(all == task_views(run.tasks@));
    assert(all.len() == run.tasks@.len());
    assert(all[k] == run.tasks@[k]@);
    assert(put_together(planned, given, k, all[k]));
    assert(planned[k] == planned_of(status_doc(pr@), names[k]));
    lemma_planned(pr@, names[k]);
    lemma_task(planned[k], None);
    lemma_task(planned[k], given[reads(planned.take(k)) as int]->Ok_0);
    assert(texts(run.tasks@[k].depends_on@).len() == run.tasks@[k].depends_on@.len());
}

/// A task that is looked up again says the same of what the pipeline declares:
/// its Task, and the tasks that it runs after, in order, are those of the first
/// item with its name; and a task that no item names has neither.
pub proof fn law_refreshed_dependencies(
    pr: Json,
    name: &str,
    taskrun: &Option<Result<Option<Json>, KubeError>>,
    task: TaskMeta,
    i: int,
)
    requires
        call_ensures(
            refresh_task,
            (&Ok::<Option<Json>, KubeError>(Some(pr)), name, taskrun),
            Lookup::Done(Ok(Some(task))),
        ),
    ensures
        ({
            let items = items_at(at(in_status(pr@, "pipelineSpec"@), "tasks"@));
            &&& task.name@ == name@
            &&& is_first_item(items, name@, i) ==> texts(task.depends_on@) == text_items(
                items_at(field(items[i], "runAfter"@)),
            ) && opt_text(task.task_ref) == text_at(at(field(items[i], "taskRef"@), "name"@))
            &&& no_item(items, name@) ==> task.depends_on@.len() == 0 && task.task_ref is None
        }),
{
    lemma_planned(pr@, name@);
    assert(texts(task.depends_on@).len() == task.depends_on@.len());
}

/// A task is looked up again through its first child: there is nothing to say
/// of it while it has none, nor where the PipelineRun or the TaskRun is gone.
/// The TaskRun is asked for by its name, and the task is what it says. A read
/// that failed is passed on.
pub proof fn law_task_is_refreshed(
    pr: &Result<Option<Json>, KubeError>,
    name: &str,
    taskrun: &Option<Result<Option<Json>, KubeError>>,
    r: TaskLookup,
    i: int,
)
    requires
        call_ensures(refresh_task, (pr, name, taskrun), r),
    ensures
        pr matches Err(e) ==> r == TaskLookup::Done(Err(DiscoverError::Kube(*e))),
        pr matches Ok(None) ==> r == TaskLookup::Done(Ok(None)),
        pr matches Ok(Some(doc)) ==> {
            let pairs = children(
                in_status(doc@, "childReferences"@),
                in_status(doc@, "taskRuns"@),
            );
            &&& no_child(pairs, name@) ==> r == TaskLookup::Done(Ok(None))
            &&& is_first_child(pairs, name@, i) ==> match *taskrun {
                None => r matches Lookup::Ask(n) && n@ == pairs[i].1,
                Some(Err(e)) => r == TaskLookup::Done(Err(DiscoverError::Kube(e))),
                Some(Ok(None)) => r == TaskLookup::Done(Ok(None)),
                Some(Ok(Some(tr))) => r matches Lookup::Done(Ok(Some(task))) && task.name@ == name@
                    && task.taskrun_name@ == pairs[i].1 && is_live_task(tr@, task@),
            }
        },
{
    if let Ok(Some(doc)) = pr {
        lemma_planned(doc@, name@);
        let p = planned_of(status_doc(doc@), name@);
        if let Some(Ok(Some(tr))) = taskrun {
            lemma_task(p, Some(tr@));
        }
    }
}

/// A discovery asks for the TaskRuns of its tasks one after the other. A read
/// that failed fails it, and nothing else does; and once each TaskRun has been
/// read, there is the run.
pub proof fn law_discovery_goes_on(
    run_name: &str,
    pr: &Json,
    replies: &Vec<Result<Option<Json>, KubeError>>,
    plan: RunPlan,
    r: Lookup<String, Result<RunMeta, DiscoverError>>,
)
    requires
        call_ensures(plan_run, (pr,), plan),
        call_ensures(discover_live_run, (run_name, pr, replies), r),
    ensures
        r matches Lookup::Ask(name) ==> exists|i: int|
            0 <= i < plan.tasks@.len() && opt_text((#[trigger] plan.tasks@[i]).taskrun_name)
                == Some(name@) && taken(plan.tasks@, i) == replies@.len(),
        r matches Lookup::Done(Err(e)) ==> exists|j: int|
            0 <= j < replies@.len() && j < taken(plan.tasks@, plan.tasks@.len() as int) && (
            #[trigger] replies@[j] matches Err(cause) && e == DiscoverError::Kube(cause)) && (
            forall|m: int| 0 <= m < j ==> (#[trigger] replies@[m]) is Ok),
        replies@.len() >= taken(plan.tasks@, plan.tasks@.len() as int) && (forall|j: int|
            0 <= j < replies@.len() ==> (#[trigger] replies@[j]) is Ok) ==> (r matches Lookup::Done(
            Ok(_),
        )),
        (exists|j: int| 0 <= j < replies@.len() && (#[trigger] replies@[j]) is Err) ==> !(r is Ask),
{
    let planned = tasks_planned(pr@);
    let given = reply_views(replies@);
    let n = plan.tasks@.len() as int;
    lemma_discovered(Seq::empty(), planned, given);
    assert(planned_views(plan.tasks@) == planned);
    assert(planned.len() == n);
    assert(planned.take(n) =~= planned);
    lemma_taken(plan.tasks@, n);
    assert forall|j: int| 0 <= j < replies@.len() implies #[trigger] given[j] == reply_view(
        replies@[j],
    ) by {}
    assert forall|j: int| 0 <= j < replies@.len() implies (#[trigger] replies@[j]) is Ok
        == given[j] is Ok by {
        assert(given[j] == reply_view(replies@[j]));
    }
    match discovery(Seq::empty(), planned, given) {
        Lookup::Ask(name) => {
            let i = choose|i: int| asked_at(planned, given, i, name);
            assert(planned[i] == plan.tasks@[i]@);
            lemma_taken(plan.tasks@, i);
            lemma_reads_bound(planned, i);
            assert(opt_text(plan.tasks@[i].taskrun_name) == Some(name));
            if exists|j: int| 0 <= j < replies@.len() && (#[trigger] replies@[j]) is Err {
                let j = choose|j: int| 0 <= j < replies@.len() && (#[trigger] replies@[j]) is Err;
                assert(given[j] is Ok);
            }
        },
        Lookup::Done(Err(e)) => {
            let j = choose|j: int| failed_at(planned, given, j, e);
            assert(given[j] is Err);
            assert(replies@[j] is Err);
            assert forall|m: int| 0 <= m < j implies (#[trigger] replies@[m]) is Ok by {
                assert(given[m] is Ok);
            }
        },
        Lookup::Done(Ok(_)) => {},
    }
}

/// The PipelineRun has to be there: a read that failed is passed on, and one
/// that found nothing says so.
pub proof fn law_found(reply: Result<Option<Json>, KubeError>, r: Result<Json, DiscoverError>)
    requires
        call_ensures(found, (reply,), r),
    ensures
        reply matches Ok(Some(pr)) ==> r == Ok::<Json, DiscoverError>(pr),
        reply matches Ok(None) ==> (r matches Err(e) && e is NotFound),
        reply matches Err(e) ==> r == Err::<Json, DiscoverError>(DiscoverError::Kube(e)),
{
}

} // verus!
