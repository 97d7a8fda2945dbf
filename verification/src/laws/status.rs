//! The status of a run, a task or a step; and the views of what is sent of
//! them, which leave nothing out.
use vstd::prelude::*;
use vstd::string::*;

use crate::models::run_stream::{
    line_views, step_views, task_views, LogLine, RunDone, RunMeta, RunStatus, StepMeta,
    StepStatusUpdate, TaskMeta, TaskStatusUpdate,
};
use crate::models::run_summary::{summary_views, RunSummary};
use crate::text::{copy_texts, opt_copy, opt_str, opt_text, text_or_default, texts};

verus! {

/// The status is what a condition's status, and whether there was a start, tell:
/// "True" is success and "False" is failure; else what has not started is
/// pending, and what has is running, or unknown without a condition.
pub open spec fn tells(condition: Option<Seq<char>>, started: bool, status: RunStatus) -> bool {
    let open = condition != Some("True"@) && condition != Some("False"@);
    &&& status is Succeeded <==> condition == Some("True"@)
    &&& status is Failed <==> condition == Some("False"@)
    &&& status is Pending <==> open && !started
    &&& status is Running <==> open && started && condition is Some
    &&& status is Unknown <==> started && condition is None
}

/// "True" and "False" are two texts.
pub proof fn lemma_true_is_not_false()
    ensures
        "True"@ != "False"@,
{
    reveal_strlit("True");
    reveal_strlit("False");
    assert("True"@.len() == 4);
    assert("False"@.len() == 5);
}

/// A condition tells a status.
pub proof fn law_from_condition(condition: Option<&str>, started: bool, r: RunStatus)
    requires
        call_ensures(RunStatus::from_condition, (condition, started), r),
    ensures
        tells(
            match condition {
                Some(text) => Some(text@),
                None => None,
            },
            started,
            r,
        ),
{
    lemma_true_is_not_false();
}

/// What has succeeded or failed is over, and nothing else is.
pub proof fn law_terminal(status: &RunStatus, r: bool)
    requires
        call_ensures(RunStatus::is_terminal, (status,), r),
    ensures
        r <==> status is Succeeded || status is Failed,
{
}

/// A status is called by its name.
pub proof fn law_variant_name(status: &RunStatus, r: &'static str)
    requires
        call_ensures(RunStatus::variant_name, (status,), r),
    ensures
        status is Pending ==> r@ == "Pending"@,
        status is Running ==> r@ == "Running"@,
        status is Succeeded ==> r@ == "Succeeded"@,
        status is Failed ==> r@ == "Failed"@,
        status is Unknown ==> r@ == "Unknown"@,
{
}

/// The view of a text that may be missing is the text, or that it is missing.
pub proof fn law_texts(text: Option<String>, part: Option<&str>, list: Seq<String>, more: String)
    ensures
        opt_text(None) is None,
        text matches Some(t) ==> opt_text(text) == Some(t@),
        opt_str(None) is None,
        part matches Some(t) ==> opt_str(part) == Some(t@),
        texts(list).len() == list.len(),
        texts(list.push(more)) == texts(list).push(more@),
{
    assert(texts(list.push(more)) =~= texts(list).push(more@));
}

/// A copy is equal to what was copied; and a default stands in for a missing
/// text only.
pub proof fn law_text_copies(
    text: &Option<String>,
    list: &Vec<String>,
    may: Option<String>,
    default: &str,
    one: Option<String>,
    all: Vec<String>,
    some: String,
)
    requires
        call_ensures(opt_copy, (text,), one),
        call_ensures(copy_texts, (list,), all),
        call_ensures(text_or_default, (may, default), some),
    ensures
        one is Some <==> text is Some,
        one matches Some(t) ==> t@ == text->0@,
        all@.len() == list@.len(),
        forall|i: int| 0 <= i < all@.len() ==> (#[trigger] all@[i])@ == list@[i]@,
        may matches Some(t) ==> some@ == t@,
        may is None ==> some@ == default@,
{
    assert(texts(all@).len() == all@.len());
    assert(texts(list@).len() == list@.len());
    assert forall|i: int| 0 <= i < all@.len() implies (#[trigger] all@[i])@ == list@[i]@ by {
        assert(texts(all@)[i] == all@[i]@);
        assert(texts(list@)[i] == list@[i]@);
    }
}

/// The view of a run holds all that the run does: tasks, steps, and every field.
pub proof fn law_views(run: RunMeta, i: int, k: int)
    requires
        0 <= i < run.tasks@.len(),
        0 <= k < run.tasks@[i].steps@.len(),
    ensures
        run@.run_name == run.run_name@,
        run@.source == run.source,
        run@.pipeline_name == opt_text(run.pipeline_name),
        run@.status == run.status,
        run@.reason == opt_text(run.reason),
        run@.tasks.len() == run.tasks@.len(),
        run@.tasks[i] == run.tasks@[i]@,
        run.tasks@[i]@.name == run.tasks@[i].name@,
        run.tasks@[i]@.task_ref == opt_text(run.tasks@[i].task_ref),
        run.tasks@[i]@.taskrun_name == run.tasks@[i].taskrun_name@,
        run.tasks@[i]@.pod_name == opt_text(run.tasks@[i].pod_name),
        run.tasks@[i]@.status == run.tasks@[i].status,
        run.tasks@[i]@.reason == opt_text(run.tasks@[i].reason),
        run.tasks@[i]@.depends_on == texts(run.tasks@[i].depends_on@),
        run.tasks@[i]@.steps.len() == run.tasks@[i].steps@.len(),
        run.tasks@[i]@.steps[k] == run.tasks@[i].steps@[k]@,
        run.tasks@[i].steps@[k]@.name == run.tasks@[i].steps@[k].name@,
        run.tasks@[i].steps@[k]@.container == run.tasks@[i].steps@[k].container@,
        run.tasks@[i].steps@[k]@.status == run.tasks@[i].steps@[k].status,
        run.tasks@[i].steps@[k]@.reason == opt_text(run.tasks@[i].steps@[k].reason),
{
}

/// The views of a line, of what is told of a step, a task and a run, and of a
/// listed run hold all that these do.
pub proof fn law_other_views(
    line: LogLine,
    step: StepStatusUpdate,
    task: TaskStatusUpdate,
    done: RunDone,
    summary: RunSummary,
)
    ensures
        line@.task == line.task@,
        line@.step == line.step@,
        line@.line == line.line@,
        line@.timestamp == opt_text(line.timestamp),
        step@.task == step.task@,
        step@.step == step.step@,
        step@.status == step.status,
        step@.reason == opt_text(step.reason),
        task@.task == task.task@,
        task@.status == task.status,
        task@.reason == opt_text(task.reason),
        done@.run_name == done.run_name@,
        done@.status == done.status,
        done@.reason == opt_text(done.reason),
        done@.duration_seconds == done.duration_seconds,
        summary@.name == summary.name@,
        summary@.created_time == summary.created_time@,
        summary@.source == summary.source,
{
}

/// The views of a list are those of its items, in order.
pub proof fn law_list_views(
    lines: Seq<LogLine>,
    steps: Seq<StepMeta>,
    tasks: Seq<TaskMeta>,
    summaries: Seq<RunSummary>,
    line: LogLine,
    step: StepMeta,
    task: TaskMeta,
    summary: RunSummary,
)
    ensures
        line_views(Seq::empty()).len() == 0,
        line_views(lines.push(line)) == line_views(lines).push(line@),
        step_views(Seq::empty()).len() == 0,
        step_views(steps.push(step)) == step_views(steps).push(step@),
        task_views(Seq::empty()).len() == 0,
        task_views(tasks.push(task)) == task_views(tasks).push(task@),
        summary_views(Seq::empty()).len() == 0,
        summary_views(summaries.push(summary)) == summary_views(summaries).push(summary@),
{
    assert(line_views(lines.push(line)) =~= line_views(lines).push(line@));
    assert(step_views(steps.push(step)) =~= step_views(steps).push(step@));
    assert(task_views(tasks.push(task)) =~= task_views(tasks).push(task@));
    assert(summary_views(summaries.push(summary)) =~= summary_views(summaries).push(summary@));
}

} // verus!
