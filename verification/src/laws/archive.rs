//! A run, as it is put together from the archive.
use vstd::prelude::*;
use vstd::string::*;

use crate::db::k8s_client::KubeError;
use crate::db::k8s_tekton::{condition_reason_of, condition_status_of};
use crate::handlers::label_selector::Pair;
use crate::handlers::run_archive::{
    archived_steps_of, archived_task_of, cond_status_reason, customrun_task_of, depends_on_of,
    fetch_archived_logs_raw, fetch_archived_meta, last_value, lines_of, steps_from_archived_taskrun,
    stream_line_of, stream_lines_of, stream_step_of, stream_task_of, stream_views, LokiStream,
    StreamView,
};
use crate::handlers::run_discovery::{
    declared_of, declared_order_of, refresh_task, status_doc, DeclaredView,
};
use crate::json::{at, field, integer_at, items_at, text_at, text_items, trees, Json, JsonView};
use crate::laws::discovery::{in_status, lemma_status, no_item};
use crate::laws::lists::lemma_pick;
use crate::laws::status::{lemma_true_is_not_false, tells};
use crate::lookup::Lookup;
use crate::models::run_stream::{
    line_views, step_views, task_views, LineView, LogLine, RunMeta, StepMeta, StepView, TaskMeta,
};
use crate::order::{lemma_sorted_items, lemma_sorted_map, place, sort, sorted, Direction, Keyed};
use crate::text::{char_index, lemma_char_index, opt_text, split_of, stripped, texts, trim_of};

verus! {

// ---------------------------------------------------------------------------
// The logs
// ---------------------------------------------------------------------------

/// What stands behind the last carriage return.
pub open spec fn behind_return(raw: Seq<char>) -> Seq<char>
    decreases raw.len(),
{
    if raw.len() == 0 || raw.last() == '\r' {
        Seq::empty()
    } else {
        behind_return(raw.drop_last()).push(raw.last())
    }
}

/// The text that a terminal shows: what stands behind the last carriage return,
/// without the white space around it.
pub open spec fn on_screen(raw: Seq<char>) -> Seq<char> {
    trim_of(behind_return(raw))
}

proof fn lemma_behind(front: Seq<char>, rest: Seq<char>)
    ensures
        behind_return(front.push('\r') + rest) == behind_return(rest),
    decreases rest.len(),
{
    let all = front.push('\r') + rest;
    if rest.len() == 0 {
        assert(all =~= front.push('\r'));
    } else {
        assert(all.last() == rest.last());
        assert(all.drop_last() =~= front.push('\r') + rest.drop_last());
        lemma_behind(front, rest.drop_last());
    }
}

proof fn lemma_no_return(raw: Seq<char>)
    requires
        forall|i: int| 0 <= i < raw.len() ==> raw[i] != '\r',
    ensures
        behind_return(raw) == raw,
    decreases raw.len(),
{
    if raw.len() > 0 {
        lemma_no_return(raw.drop_last());
        assert(raw.drop_last().push(raw.last()) =~= raw);
    }
}

proof fn lemma_last_piece(raw: Seq<char>)
    ensures
        split_of(raw, '\r').len() > 0,
        split_of(raw, '\r').last() == behind_return(raw),
    decreases raw.len(),
{
    lemma_char_index(raw, '\r');
    let i = char_index(raw, '\r');
    if i >= raw.len() {
        lemma_no_return(raw);
    } else {
        let rest = raw.skip(i + 1);
        lemma_last_piece(rest);
        lemma_behind(raw.take(i), rest);
        assert(raw.take(i).push('\r') + rest =~= raw);
        assert((seq![raw.take(i)] + split_of(rest, '\r')).last() == split_of(rest, '\r').last());
    }
}

/// The line of a stream's value: labelled with the stream's task, and with its
/// container's name without the `step-` in front; each is "unknown" where the
/// label is missing.
pub open spec fn line_seen(s: StreamView, value: Pair) -> LineView {
    LineView {
        task: match last_value(s.labels, "task"@) {
            Some(task) => task,
            None => "unknown"@,
        },
        step: match last_value(s.labels, "container"@) {
            Some(container) => stripped(container, "step-"@),
            None => "unknown"@,
        },
        line: on_screen(value.1),
        timestamp: Some(value.0),
    }
}

/// The values of a stream that a terminal shows something of.
pub open spec fn visible(s: StreamView) -> Seq<Pair> {
    s.values.filter(|value: Pair| on_screen(value.1).len() > 0)
}

/// How many values of the streams a terminal shows something of.
pub open spec fn visible_count(streams: Seq<StreamView>) -> nat
    decreases streams.len(),
{
    if streams.len() == 0 {
        0
    } else {
        visible_count(streams.drop_last()) + visible(streams.last()).len()
    }
}

/// The lines of the streams, one stream behind the other.
pub open spec fn all_seen(streams: Seq<StreamView>) -> Seq<LineView>
    decreases streams.len(),
{
    if streams.len() == 0 {
        Seq::empty()
    } else {
        all_seen(streams.drop_last()) + visible(streams.last()).map_values(
            |value: Pair| line_seen(streams.last(), value),
        )
    }
}

proof fn lemma_stream(s: StreamView)
    ensures
        stream_lines_of(s) == visible(s).map_values(|value: Pair| line_seen(s, value)),
{
    let f = |value: Pair| stream_line_of(stream_task_of(s), stream_step_of(s), value);
    let p = |value: Pair| on_screen(value.1).len() > 0;
    let g = |value: Pair| line_seen(s, value);
    assert forall|value: Pair| #[trigger] f(value) == (if p(value) {
        Some(g(value))
    } else {
        None
    }) by {
        lemma_last_piece(value.1);
    }
    lemma_pick(s.values, f, p, g);
}

proof fn lemma_streams(streams: Seq<StreamView>)
    ensures
        lines_of(streams) == all_seen(streams),
        all_seen(streams).len() == visible_count(streams),
    decreases streams.len(),
{
    if streams.len() > 0 {
        lemma_streams(streams.drop_last());
        lemma_stream(streams.last());
    }
}

proof fn lemma_count_place(streams: Seq<StreamView>, s: StreamView)
    ensures
        visible_count(place(streams, s, Direction::Ascending)) == visible_count(streams) + visible(
            s,
        ).len(),
    decreases streams.len(),
{
    let out = place(streams, s, Direction::Ascending);
    if out == streams.push(s) {
        assert(streams.push(s).drop_last() =~= streams);
    } else {
        lemma_count_place(streams.drop_last(), s);
        assert(out.drop_last() =~= place(streams.drop_last(), s, Direction::Ascending));
    }
}

proof fn lemma_count_sorted(streams: Seq<StreamView>)
    ensures
        visible_count(sorted(streams, Direction::Ascending)) == visible_count(streams),
    decreases streams.len(),
{
    if streams.len() > 0 {
        lemma_count_sorted(streams.drop_last());
        lemma_count_place(sorted(streams.drop_last(), Direction::Ascending), streams.last());
    }
}

proof fn lemma_seen(streams: Seq<StreamView>, i: int, value: Pair)
    requires
        0 <= i < streams.len(),
        streams[i].values.contains(value),
        on_screen(value.1).len() > 0,
    ensures
        all_seen(streams).contains(line_seen(streams[i], value)),
    decreases streams.len(),
{
    let front = all_seen(streams.drop_last());
    let s = streams.last();
    let last = visible(s).map_values(|value: Pair| line_seen(s, value));
    if i < streams.len() - 1 {
        lemma_seen(streams.drop_last(), i, value);
        let k = choose|k: int| 0 <= k < front.len() && front[k] == line_seen(streams[i], value);
        assert(all_seen(streams)[k] == line_seen(streams[i], value));
    } else {
        let p = |value: Pair| on_screen(value.1).len() > 0;
        let j = choose|j: int| 0 <= j < s.values.len() && s.values[j] == value;
        s.values.lemma_filter_contains(p, j);
        let k = choose|k: int| 0 <= k < visible(s).len() && visible(s)[k] == value;
        assert(last[k] == line_seen(s, value));
        assert(all_seen(streams)[front.len() + k] == line_seen(s, value));
    }
}

/// No line is lost: each value of a stream that a terminal shows something of
/// gives a line with its timestamp, what is shown of it, and the stream's task
/// and step; and there are as many lines as there are such values.
pub proof fn law_no_line_is_lost(streams: Vec<LokiStream>, r: Vec<LogLine>, i: int, j: int)
    requires
        call_ensures(fetch_archived_logs_raw, (streams,), r),
    ensures
        r@.len() == visible_count(stream_views(streams@)),
        0 <= i < streams@.len() && 0 <= j < streams@[i].values@.len() && on_screen(
            streams@[i].values@[j].1@,
        ).len() > 0 ==> exists|k: int|
            0 <= k < r@.len() && (#[trigger] r@[k])@ == line_seen(
                streams@[i]@,
                (streams@[i].values@[j].0@, streams@[i].values@[j].1@),
            ),
{
    let all = stream_views(streams@);
    let ordered = sorted(all, Direction::Ascending);
    lemma_streams(ordered);
    lemma_count_sorted(all);
    assert(line_views(r@).len() == r@.len());
    if 0 <= i < streams@.len() && 0 <= j < streams@[i].values@.len() && on_screen(
        streams@[i].values@[j].1@,
    ).len() > 0 {
        let value: Pair = (streams@[i].values@[j].0@, streams@[i].values@[j].1@);
        let s = streams@[i]@;
        assert(s.values[j] == value);
        lemma_sorted_items(all, Direction::Ascending);
        assert(all[i] == s);
        assert(all.contains(s));
        assert(ordered.contains(s));
        let m = choose|m: int| 0 <= m < ordered.len() && ordered[m] == s;
        lemma_seen(ordered, m, value);
        let k = choose|k: int|
            0 <= k < line_views(r@).len() && line_views(r@)[k] == line_seen(s, value);
        assert(line_views(r@)[k] == r@[k]@);
        assert(r@[k]@ == line_seen(s, value));
    }
}

/// The lines stand stream by stream, each stream's in its own order; and the
/// streams in the order of their first timestamps. There is no other line.
pub proof fn law_lines_stand_by_stream(
    streams: Vec<LokiStream>,
    ordered: Vec<LokiStream>,
    r: Vec<LogLine>,
)
    requires
        call_ensures(sort::<LokiStream>, (streams, Direction::Ascending), ordered),
        call_ensures(fetch_archived_logs_raw, (streams,), r),
    ensures
        line_views(r@) == all_seen(stream_views(ordered@)),
{
    lemma_sorted_map(streams@, |s: LokiStream| s@, Direction::Ascending);
    lemma_streams(stream_views(ordered@));
}

/// A stream is sorted by the timestamp of its first value, or by "0"; and its
/// view holds all of its labels and values.
pub proof fn law_streams(s: LokiStream, i: int)
    ensures
        s.key() == (if s.values@.len() > 0 {
            s.values@[0].0@
        } else {
            "0"@
        }),
        s@.key() == s.key(),
        s@.labels.len() == s.labels@.len(),
        s@.values.len() == s.values@.len(),
        0 <= i < s.labels@.len() ==> s@.labels[i] == (s.labels@[i].0@, s.labels@[i].1@),
        0 <= i < s.values@.len() ==> s@.values[i] == (s.values@[i].0@, s.values@[i].1@),
{
    if s.values@.len() > 0 {
        assert(s@.values[0] == (s.values@[0].0@, s.values@[0].1@));
    }
}

// ---------------------------------------------------------------------------
// The run's skeleton
// ---------------------------------------------------------------------------

/// The step is what an entry of `steps` of an archived TaskRun says: what has
/// terminated has succeeded exactly with the exit code 0, and failed with any
/// other and with none; of anything else the status is not known.
pub open spec fn is_archived_step(s: JsonView, step: StepView) -> bool {
    let ended = field(s, "terminated"@);
    &&& match text_at(field(s, "name"@)) {
        Some(name) => step.name == name,
        None => step.name == "unknown"@,
    }
    &&& match text_at(field(s, "container"@)) {
        Some(container) => step.container == container,
        None => step.container == "step-"@ + step.name,
    }
    &&& step.status is Succeeded <==> ended is Some && integer_at(field(ended->0, "exitCode"@))
        == Some(0i64)
    &&& step.status is Failed <==> ended is Some && integer_at(field(ended->0, "exitCode"@))
        != Some(0i64)
    &&& step.status is Unknown <==> ended is None
    &&& step.reason == text_at(at(ended, "reason"@))
}

/// An archived TaskRun has one step for each entry of `steps`, in order.
pub proof fn law_archived_steps(tr: &Json, r: Vec<StepMeta>, i: int)
    requires
        call_ensures(steps_from_archived_taskrun, (tr,), r),
    ensures
        r@.len() == items_at(in_status(tr@, "steps"@)).len(),
        0 <= i < r@.len() ==> is_archived_step(items_at(in_status(tr@, "steps"@))[i], r@[i]@),
{
    assert(step_views(r@).len() == r@.len());
    if 0 <= i < r@.len() {
        assert(step_views(r@)[i] == r@[i]@);
    }
}

/// A record's condition is read with its reason.
pub proof fn law_archived_condition(obj: &Json, r: (Option<String>, Option<String>))
    requires
        call_ensures(cond_status_reason, (obj,), r),
    ensures
        opt_text(r.0) == condition_status_of(obj@),
        opt_text(r.1) == condition_reason_of(obj@),
{
}

/// What a record's metadata holds under a key.
pub open spec fn in_metadata(doc: JsonView, key: Seq<char>) -> Option<JsonView> {
    at(field(doc, "metadata"@), key)
}

/// A label of a record, where it is a text.
pub open spec fn labelled(doc: JsonView, key: Seq<char>) -> Option<Seq<char>> {
    text_at(at(in_metadata(doc, "labels"@), key))
}

/// The item at `i` is the last one with the name.
pub open spec fn is_last_item(items: Seq<JsonView>, name: Seq<char>, i: int) -> bool {
    &&& 0 <= i < items.len()
    &&& text_at(field(items[i], "name"@)) == Some(name)
    &&& forall|k: int|
        i < k < items.len() ==> text_at(field(#[trigger] items[k], "name"@)) != Some(name)
}

/// The item at `i` of `childReferences` is the last one that says which task a
/// CustomRun is.
pub open spec fn is_last_customrun(items: Seq<JsonView>, customrun: Seq<char>, i: int) -> bool {
    &&& 0 <= i < items.len()
    &&& says_task_of(items[i], customrun)
    &&& forall|k: int| i < k < items.len() ==> !says_task_of(#[trigger] items[k], customrun)
}

/// The item of `childReferences` says which task a CustomRun is.
pub open spec fn says_task_of(c: JsonView, customrun: Seq<char>) -> bool {
    &&& text_at(field(c, "kind"@)) == Some("CustomRun"@)
    &&& text_at(field(c, "name"@)) == Some(customrun)
    &&& text_at(field(c, "pipelineTaskName"@)) is Some
}

proof fn lemma_depends_on(items: Seq<JsonView>, name: Seq<char>)
    ensures
        ({
            let after = depends_on_of(items.filter_map(|t: JsonView| declared_of(t)), name);
            &&& forall|i: int| #[trigger]
                is_last_item(items, name, i) ==> after == text_items(
                    items_at(field(items[i], "runAfter"@)),
                )
            &&& no_item(items, name) ==> after.len() == 0
        }),
    decreases items.len(),
{
    let f = |t: JsonView| declared_of(t);
    if items.len() > 0 {
        let front = items.drop_last();
        let t = items.last();
        let n = items.len() - 1;
        lemma_depends_on(front, name);
        assert(f(t) == declared_of(t));
        let early = front.filter_map(f);
        let all = items.filter_map(f);
        if let Some(d) = declared_of(t) {
            assert(all =~= early.push(d));
            assert(all.drop_last() =~= early);
        } else {
            assert(all =~= early);
        }
        assert forall|i: int| #[trigger] is_last_item(items, name, i) implies depends_on_of(
            all,
            name,
        ) == text_items(items_at(field(items[i], "runAfter"@))) by {
            if i < n {
                assert(text_at(field(items[n], "name"@)) != Some(name));
                assert forall|k: int| i < k < front.len() implies text_at(
                    field(#[trigger] front[k], "name"@),
                ) != Some(name) by {
                    assert(front[k] == items[k]);
                }
                assert(front[i] == items[i]);
                assert(is_last_item(front, name, i));
            }
        }
        if no_item(items, name) {
            assert(text_at(field(items[n], "name"@)) != Some(name));
            assert forall|k: int| 0 <= k < front.len() implies text_at(
                field(#[trigger] front[k], "name"@),
            ) != Some(name) by {
                assert(front[k] == items[k]);
            }
        }
    } else {
        assert(items.filter_map(f) =~= Seq::<DeclaredView>::empty());
    }
}

proof fn lemma_customrun_task(items: Seq<JsonView>, customrun: Seq<char>)
    ensures
        ({
            let task = last_value(items.filter_map(|c: JsonView| customrun_task_of(c)), customrun);
            &&& forall|i: int| #[trigger]
                is_last_customrun(items, customrun, i) ==> task == text_at(
                    field(items[i], "pipelineTaskName"@),
                )
            &&& (forall|k: int|
                0 <= k < items.len() ==> !says_task_of(#[trigger] items[k], customrun)) ==> task is None
        }),
    decreases items.len(),
{
    let f = |c: JsonView| customrun_task_of(c);
    if items.len() > 0 {
        let front = items.drop_last();
        let c = items.last();
        let n = items.len() - 1;
        lemma_customrun_task(front, customrun);
        assert(f(c) == customrun_task_of(c));
        let early = front.filter_map(f);
        let all = items.filter_map(f);
        if let Some(p) = customrun_task_of(c) {
            assert(all =~= early.push(p));
            assert(all.drop_last() =~= early);
        } else {
            assert(all =~= early);
        }
        assert forall|i: int| #[trigger] is_last_customrun(items, customrun, i) implies last_value(
            all,
            customrun,
        ) == text_at(field(items[i], "pipelineTaskName"@)) by {
            if i < n {
                assert(!says_task_of(items[n], customrun));
                assert forall|k: int| i < k < front.len() implies !says_task_of(
                    #[trigger] front[k],
                    customrun,
                ) by {
                    assert(front[k] == items[k]);
                }
                assert(front[i] == items[i]);
                assert(is_last_customrun(front, customrun, i));
            }
        }
        if forall|k: int| 0 <= k < items.len() ==> !says_task_of(#[trigger] items[k], customrun) {
            assert(!says_task_of(items[n], customrun));
            assert forall|k: int| 0 <= k < front.len() implies !says_task_of(
                #[trigger] front[k],
                customrun,
            ) by {
                assert(front[k] == items[k]);
            }
        }
    } else {
        assert(items.filter_map(f) =~= Seq::<Pair>::empty());
    }
}

proof fn lemma_archived(run_name: &str, pr: &Json, taskruns: &Vec<Json>, r: RunMeta, k: int)
    requires
        call_ensures(fetch_archived_meta, (run_name, pr, taskruns), r),
    ensures
        r.tasks@.len() == taskruns@.len(),
        0 <= k < r.tasks@.len() ==> r.tasks@[k]@ == archived_task_of(pr@, taskruns@[k]@),
{
    assert(task_views(r.tasks@).len() == r.tasks@.len());
    assert(trees(taskruns@).len() == taskruns@.len());
    if 0 <= k < r.tasks@.len() {
        assert(task_views(r.tasks@)[k] == r.tasks@[k]@);
        assert(trees(taskruns@)[k] == taskruns@[k]@);
    }
}

/// An archived run has the name that was asked for, and its pipeline, status
/// and reason from the PipelineRun's record. What is archived has started.
pub proof fn law_archived_run(run_name: &str, pr: &Json, taskruns: &Vec<Json>, r: RunMeta)
    requires
        call_ensures(fetch_archived_meta, (run_name, pr, taskruns), r),
    ensures
        r.run_name@ == run_name@,
        r.source is Archive,
        opt_text(r.pipeline_name) == text_at(
            at(at(field(pr@, "spec"@), "pipelineRef"@), "name"@),
        ),
        tells(condition_status_of(pr@), true, r.status),
        opt_text(r.reason) == condition_reason_of(pr@),
        r.tasks@.len() == taskruns@.len(),
{
    lemma_true_is_not_false();
    lemma_archived(run_name, pr, taskruns, r, 0);
}

/// A task of an archived run is what the record of its TaskRun says: it has
/// succeeded if and only if the first condition's status is "True", and failed
/// if and only if that is "False"; with any other it is running, and without
/// one unknown. Its reason, pod, Task and steps come from the record too.
pub proof fn law_archived_task(
    run_name: &str,
    pr: &Json,
    taskruns: &Vec<Json>,
    r: RunMeta,
    k: int,
    i: int,
)
    requires
        call_ensures(fetch_archived_meta, (run_name, pr, taskruns), r),
        0 <= k < taskruns@.len(),
    ensures
        ({
            let tr = taskruns@[k]@;
            let task = r.tasks@[k];
            let steps = items_at(in_status(tr, "steps"@));
            &&& task.status is Succeeded <==> condition_status_of(tr) == Some("True"@)
            &&& task.status is Failed <==> condition_status_of(tr) == Some("False"@)
            &&& task.status is Unknown <==> condition_status_of(tr) is None
            &&& !(task.status is Pending)
            &&& opt_text(task.reason) == condition_reason_of(tr)
            &&& opt_text(task.task_ref) == text_at(
                at(at(field(tr, "spec"@), "taskRef"@), "name"@),
            )
            &&& match text_at(in_metadata(tr, "name"@)) {
                Some(name) => task.taskrun_name@ == name,
                None => task.taskrun_name@ == "unknown-taskrun"@,
            }
            &&& match text_at(in_status(tr, "podName"@)) {
                Some(pod) => opt_text(task.pod_name) == Some(pod),
                None => opt_text(task.pod_name) == Some(task.taskrun_name@ + "-pod"@),
            }
            &&& task.steps@.len() == steps.len()
            &&& 0 <= i < steps.len() ==> is_archived_step(steps[i], task.steps@[i]@)
        }),
{
    lemma_true_is_not_false();
    lemma_archived(run_name, pr, taskruns, r, k);
    let tr = taskruns@[k]@;
    let task = r.tasks@[k];
    assert(task@ == archived_task_of(pr@, tr));
    assert(step_views(task.steps@) == archived_steps_of(tr));
    assert(step_views(task.steps@).len() == task.steps@.len());
    let steps = items_at(in_status(tr, "steps"@));
    if 0 <= i < steps.len() {
        assert(step_views(task.steps@)[i] == task.steps@[i]@);
    }
}

/// A task of an archived run is called by its TaskRun's label; or, where that
/// is missing, by what the PipelineRun's record says last of the CustomRun that
/// the TaskRun is labelled with; or else by the TaskRun's own name.
pub proof fn law_archived_task_name(
    run_name: &str,
    pr: &Json,
    taskruns: &Vec<Json>,
    r: RunMeta,
    k: int,
    i: int,
)
    requires
        call_ensures(fetch_archived_meta, (run_name, pr, taskruns), r),
        0 <= k < taskruns@.len(),
    ensures
        ({
            let tr = taskruns@[k]@;
            let task = r.tasks@[k];
            let items = items_at(in_status(pr@, "childReferences"@));
            match labelled(tr, "tekton.dev/pipelineTask"@) {
                Some(name) => task.name@ == name,
                None => match labelled(tr, "remotetask-customrun"@) {
                    None => task.name@ == task.taskrun_name@,
                    Some(customrun) => {
                        &&& is_last_customrun(items, customrun, i) ==> Some(task.name@) == text_at(
                            field(items[i], "pipelineTaskName"@),
                        )
                        &&& (forall|m: int|
                            0 <= m < items.len() ==> !says_task_of(#[trigger] items[m], customrun))
                            ==> task.name@ == task.taskrun_name@
                    },
                },
            }
        }),
{
    lemma_archived(run_name, pr, taskruns, r, k);
    let tr = taskruns@[k]@;
    assert(r.tasks@[k]@ == archived_task_of(pr@, tr));
    if let Some(customrun) = labelled(tr, "remotetask-customrun"@) {
        lemma_customrun_task(items_at(in_status(pr@, "childReferences"@)), customrun);
    }
}

/// A task of an archived run runs after the tasks that the last item with its
/// name names, in order; and after none where the pipeline declares no task of
/// its name.
pub proof fn law_archived_dependencies(
    run_name: &str,
    pr: &Json,
    taskruns: &Vec<Json>,
    r: RunMeta,
    k: int,
    i: int,
)
    requires
        call_ensures(fetch_archived_meta, (run_name, pr, taskruns), r),
        0 <= k < taskruns@.len(),
    ensures
        ({
            let items = items_at(at(in_status(pr@, "pipelineSpec"@), "tasks"@));
            let task = r.tasks@[k];
            &&& is_last_item(items, task.name@, i) ==> texts(task.depends_on@) == text_items(
                items_at(field(items[i], "runAfter"@)),
            )
            &&& no_item(items, task.name@) ==> task.depends_on@.len() == 0
        }),
{
    lemma_archived(run_name, pr, taskruns, r, k);
    let task = r.tasks@[k];
    let tr = taskruns@[k]@;
    assert(task@ == archived_task_of(pr@, tr));
    lemma_status(pr@, "pipelineSpec"@);
    let items = items_at(at(in_status(pr@, "pipelineSpec"@), "tasks"@));
    lemma_depends_on(items, task.name@);
    assert(declared_order_of(status_doc(pr@)) == items.filter_map(|t: JsonView| declared_of(t)));
    assert(texts(task.depends_on@).len() == task.depends_on@.len());
}

/// A task that had ended has the same status in the archive as it had in the
/// cluster, and the same reason; and one that has not ended in the archive had
/// not ended in the cluster.
pub proof fn law_archive_keeps_status(
    live_pr: &Result<Option<Json>, KubeError>,
    name: &str,
    tr: Json,
    live: TaskMeta,
    run_name: &str,
    pr: &Json,
    taskruns: &Vec<Json>,
    r: RunMeta,
    k: int,
)
    requires
        call_ensures(
            refresh_task,
            (live_pr, name, &Some(Ok::<Option<Json>, KubeError>(Some(tr)))),
            Lookup::Done(Ok(Some(live))),
        ),
        call_ensures(fetch_archived_meta, (run_name, pr, taskruns), r),
        0 <= k < taskruns@.len(),
        taskruns@[k]@ == tr@,
    ensures
        live.status is Succeeded <==> r.tasks@[k].status is Succeeded,
        live.status is Failed <==> r.tasks@[k].status is Failed,
        opt_text(live.reason) == opt_text(r.tasks@[k].reason),
{
    lemma_true_is_not_false();
    lemma_archived(run_name, pr, taskruns, r, k);
    assert(r.tasks@[k]@ == archived_task_of(pr@, tr@));
}

} // verus!
