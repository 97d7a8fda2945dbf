//! What a client that follows a run is told.
use vstd::prelude::*;
use vstd::string::*;

use crate::db::k8s_client::KubeError;
use crate::db::k8s_tekton::{condition_reason_of, condition_status_of};
use crate::handlers::run_archive::ArchiveError;
use crate::handlers::run_discovery::DiscoverError;
use crate::handlers::run_event_stream::{
    choose_run, event_views, item_views, meta_event, must_arrive, poll_for_task_start,
    poll_fresh_step_status, refusal_event, replay, replay_event, replay_lines,
    wait_for_pipelinerun_terminal_status, wait_for_taskrun_terminal_status, Awaited, LiveStream,
    Payload, Replay, SseEvent, SseItem, Stage, StartPoll, StepPoll, StreamAction, Worker,
    WorkerEvent, WorkerView,
};
use crate::handlers::step_log_stream::WaitResult;
use crate::json::Json;
use crate::laws::status::lemma_true_is_not_false;
use crate::lookup::Lookup;
use crate::models::run_stream::{
    line_views, LineView, LogLine, RunMeta, RunStatus, StepMeta, StreamError, TaskMeta,
};
use crate::order::{having, lemma_sorted, lemma_sorted_items, Direction, Keyed};
use crate::text::{before, decimal_of, opt_text};

verus! {

// ---------------------------------------------------------------------------
// The worker of a task
// ---------------------------------------------------------------------------

/// The worker has come to step `k`: a pending step is waited for, and any other
/// is read at once, followed unless it is over. Behind the last step the task
/// has to end.
pub open spec fn comes_to(w: WorkerView, k: nat) -> bool {
    &&& w.step == k
    &&& w.stage is Finishing <==> k >= w.task.steps.len()
    &&& w.stage is Waiting <==> k < w.task.steps.len() && w.task.steps[k as int].status is Pending
    &&& w.stage == Stage::Streaming(true) <==> k < w.task.steps.len() && (
    w.task.steps[k as int].status is Succeeded || w.task.steps[k as int].status is Failed)
    &&& w.stage == Stage::Streaming(false) <==> k < w.task.steps.len() && (
    w.task.steps[k as int].status is Running || w.task.steps[k as int].status is Unknown)
}

/// A worker of a task that has a TaskRun begins with the first step, in the
/// task's pod: the one that is known, or else the one that is named after the
/// TaskRun. A task without a TaskRun has to start first.
pub proof fn law_worker_begins(task: TaskMeta, r: Worker)
    requires
        call_ensures(Worker::new, (task,), r),
    ensures
        r@.wf(),
        r@.task == task@,
        r@.stage is Starting <==> task.taskrun_name@.len() == 0,
        task.taskrun_name@.len() > 0 ==> comes_to(r@, 0),
        task.taskrun_name@.len() > 0 ==> r@.pod == (match task.pod_name {
            Some(pod) => pod@,
            None => task.taskrun_name@ + "-pod"@,
        }),
{
}

/// A worker waits for its task to start, then for each step's container, the
/// lines of its log and its status, and for the TaskRun to end.
pub proof fn law_worker_awaits(w: &Worker, r: Awaited)
    requires
        w@.wf(),
        call_ensures(Worker::awaits, (w,), r),
    ensures
        match w@.stage {
            Stage::Starting => r matches Awaited::Start { task } && task@ == w@.task.name,
            Stage::Waiting => r matches Awaited::Container { pod, container } && pod@ == w@.pod
                && container@ == w@.task.steps[w@.step as int].container,
            Stage::Streaming(over) => r matches Awaited::Line { pod, container, already_terminated }
                && pod@ == w@.pod && container@ == w@.task.steps[w@.step as int].container
                && already_terminated == over,
            Stage::Refreshing => r matches Awaited::Step { taskrun, step } && taskrun@
                == w@.task.taskrun_name && step@ == w@.task.steps[w@.step as int].name,
            Stage::Finishing => r matches Awaited::End { taskrun } && taskrun@
                == w@.task.taskrun_name,
            Stage::Over => r is Nothing,
        },
{
}

/// The item is the end of a task, with the status and the reason.
pub open spec fn tells_end(
    item: SseItem,
    task: Seq<char>,
    status: RunStatus,
    reason: Option<Seq<char>>,
) -> bool {
    item matches SseItem::TaskStatus(u) && u.task@ == task && u.status == status && (match u.reason {
        Some(text) => reason == Some(text@),
        None => reason is None,
    })
}

proof fn lemma_items(items: Seq<SseItem>)
    ensures
        item_views(items).len() == items.len(),
        forall|i: int|
            0 <= i < items.len() ==> item_views(items)[i] == (#[trigger] items[i])@,
{
}

/// A worker that waits for its TaskRun to end hands over how that ended, as it
/// was seen, and that it is done itself.
pub proof fn law_end_is_told(
    w: &mut Worker,
    status: RunStatus,
    reason: Option<String>,
    r: Vec<SseItem>,
)
    requires
        old(w)@.wf(),
        old(w)@.stage is Finishing,
        call_ensures(Worker::take, (w, WorkerEvent::Ended(status, reason)), r),
    ensures
        r@.len() == 2,
        tells_end(
            r@[0],
            old(w)@.task.name,
            status,
            match reason {
                Some(text) => Some(text@),
                None => None,
            },
        ),
        r@[1] is TaskDone,
        final(w)@.stage is Over,
{
    lemma_items(r@);
    assert(item_views(r@)[0] == r@[0]@);
    assert(item_views(r@)[1] == r@[1]@);
}

/// A worker says that a task failed exactly where it was told that the TaskRun
/// had failed, once its steps were through.
pub proof fn law_failure_is_told(w: &mut Worker, e: WorkerEvent, r: Vec<SseItem>)
    requires
        old(w)@.wf(),
        call_ensures(Worker::take, (w, e), r),
    ensures
        (exists|i: int|
            0 <= i < r@.len() && (#[trigger] r@[i] matches SseItem::TaskStatus(u)
                && u.status is Failed)) <==> (old(w)@.stage is Finishing
            && (e matches WorkerEvent::Ended(status, _) && status is Failed)),
        forall|i: int|
            0 <= i < r@.len() && (#[trigger] r@[i] matches SseItem::TaskStatus(u)
                && u.status is Succeeded) ==> (old(w)@.stage is Finishing
                && (e matches WorkerEvent::Ended(status, _) && status is Succeeded)),
{
    lemma_items(r@);
    assert forall|i: int| 0 <= i < r@.len() implies item_views(r@)[i] == (#[trigger] r@[i])@ by {}
    if old(w)@.stage is Finishing && e is Ended {
        assert(r@.len() == 2);
        assert(item_views(r@)[0] == r@[0]@);
        assert(item_views(r@)[1] == r@[1]@);
        assert(r@[0] is TaskStatus);
    }
}

/// What a TaskRun's condition says of its end is what the client is told of the
/// task: that it failed, or succeeded, if and only if the condition says so.
pub proof fn law_condition_is_told(
    w: &mut Worker,
    reply: &Result<Option<Json>, KubeError>,
    elapsed_secs: u64,
    ended: (RunStatus, Option<String>),
    r: Vec<SseItem>,
)
    requires
        old(w)@.wf(),
        old(w)@.stage is Finishing,
        call_ensures(wait_for_taskrun_terminal_status, (reply, elapsed_secs), Some(ended)),
        call_ensures(Worker::take, (w, WorkerEvent::Ended(ended.0, ended.1)), r),
    ensures
        r@.len() == 2,
        r@[0] is TaskStatus,
        r@[0]->TaskStatus_0.task@ == old(w)@.task.name,
        r@[0]->TaskStatus_0.status is Failed <==> (reply matches Ok(Some(tr))
            && condition_status_of(tr@) == Some("False"@)),
        r@[0]->TaskStatus_0.status is Succeeded <==> (reply matches Ok(Some(tr))
            && condition_status_of(tr@) == Some("True"@)),
        r@[1] is TaskDone,
{
    lemma_true_is_not_false();
    lemma_items(r@);
    assert(item_views(r@)[0] == r@[0]@);
    assert(item_views(r@)[1] == r@[1]@);
}

/// A worker hands over each line of a log, with its task, step and timestamp,
/// and stays where it is.
pub proof fn law_line_is_told(
    w: &mut Worker,
    timestamp: Option<String>,
    line: String,
    r: Vec<SseItem>,
)
    requires
        old(w)@.wf(),
        call_ensures(Worker::take, (w, WorkerEvent::Line(timestamp, line)), r),
    ensures
        final(w)@ == old(w)@,
        r@.len() == (if old(w)@.stage is Streaming {
            1nat
        } else {
            0
        }),
        old(w)@.stage is Streaming ==> (r@[0] matches SseItem::Log(l) && l.task@
            == old(w)@.task.name && l.step@ == old(w)@.task.steps[old(w)@.step as int].name
            && l.line@ == line@ && (match (l.timestamp, timestamp) {
            (Some(a), Some(b)) => a@ == b@,
            (None, None) => true,
            _ => false,
        })),
{
    lemma_items(r@);
    if old(w)@.stage is Streaming {
        assert(item_views(r@)[0] == r@[0]@);
    }
}

/// A worker that has asked for a step's status hands it over, and what it knew
/// last where there is no answer; and goes on to the next step.
pub proof fn law_step_is_told(w: &mut Worker, fresh: Option<StepMeta>, r: Vec<SseItem>)
    requires
        old(w)@.wf(),
        old(w)@.stage is Refreshing,
        call_ensures(Worker::take, (w, WorkerEvent::Fresh(fresh)), r),
    ensures
        r@.len() == 1,
        (r@[0] matches SseItem::StepStatus(u) && u.task@ == old(w)@.task.name && u.step@
            == old(w)@.task.steps[old(w)@.step as int].name && (match fresh {
            Some(now) => u.status == now.status && opt_text(u.reason) == opt_text(now.reason),
            None => u.status == old(w)@.task.steps[old(w)@.step as int].status && opt_text(u.reason)
                == old(w)@.task.steps[old(w)@.step as int].reason,
        })),
        final(w)@.task == old(w)@.task,
        final(w)@.pod == old(w)@.pod,
        comes_to(final(w)@, old(w)@.step + 1),
{
    lemma_items(r@);
    assert(item_views(r@)[0] == r@[0]@);
}

/// A worker that has waited for a container reads its log, to the end only
/// where the container is over; one that never shows up is told of, and its
/// step passed over.
pub proof fn law_container_is_waited_for(w: &mut Worker, waited: WaitResult, r: Vec<SseItem>)
    requires
        old(w)@.wf(),
        old(w)@.stage is Waiting,
        call_ensures(Worker::take, (w, WorkerEvent::Waited(waited)), r),
    ensures
        final(w)@.task == old(w)@.task,
        final(w)@.pod == old(w)@.pod,
        waited is Ready ==> r@.len() == 0 && final(w)@.step == old(w)@.step && final(w)@.stage
            == Stage::Streaming(false),
        waited is AlreadyTerminated ==> r@.len() == 0 && final(w)@.step == old(w)@.step && final(w)@.stage == Stage::Streaming(true),
        waited is TimedOut ==> comes_to(final(w)@, old(w)@.step + 1) && r@.len() == 1 && (
        r@[0] matches SseItem::Error(e) && e.message@ == "timed out waiting for "@
            + old(w)@.task.name + "/"@ + old(w)@.task.steps[old(w)@.step as int].name
            + " to start"@),
{
    lemma_items(r@);
    if waited is TimedOut {
        assert(item_views(r@)[0] == r@[0]@);
    }
}

/// A worker whose task has started begins with its first step; one whose task
/// never will says so, and is done.
pub proof fn law_start_is_waited_for(w: &mut Worker, started: Option<TaskMeta>, r: Vec<SseItem>)
    requires
        old(w)@.wf(),
        old(w)@.stage is Starting,
        call_ensures(Worker::take, (w, WorkerEvent::Started(started)), r),
    ensures
        started matches Some(task) ==> r@.len() == 0 && final(w)@.task == task@ && comes_to(
            final(w)@,
            0,
        ) && final(w)@.pod == (match task.pod_name {
            Some(pod) => pod@,
            None => task.taskrun_name@ + "-pod"@,
        }),
        started is None ==> r@.len() == 2 && tells_end(
            r@[0],
            old(w)@.task.name,
            RunStatus::Pending,
            Some("task never started"@),
        ) && r@[1] is TaskDone && final(w)@.stage is Over,
{
    lemma_items(r@);
    if started is None {
        assert(item_views(r@)[0] == r@[0]@);
        assert(item_views(r@)[1] == r@[1]@);
    }
}

/// A log that ends, or that the server's end cuts short, is followed by the
/// step's status. Any other wait is ended by the server's end, and the worker
/// then says that it is done. Once nobody listens, a worker says nothing more;
/// and one that is over is over. What is not waited for changes nothing.
pub proof fn law_worker_ends(w: &mut Worker, e: WorkerEvent, r: Vec<SseItem>)
    requires
        old(w)@.wf(),
        call_ensures(Worker::take, (w, e), r),
    ensures
        final(w)@.wf(),
        old(w)@.stage is Over ==> final(w)@ == old(w)@ && r@.len() == 0,
        e is Gone ==> final(w)@.stage is Over && r@.len() == 0,
        old(w)@.stage is Streaming && (e is LogEnd || e is Shutdown) ==> r@.len() == 0 && final(w)@ == (WorkerView { stage: Stage::Refreshing, ..old(w)@ }),
        (old(w)@.stage is Starting || old(w)@.stage is Waiting || old(w)@.stage is Finishing)
            && e is Shutdown ==> r@.len() == 1 && r@[0] is TaskDone && final(w)@.stage is Over,
        old(w)@.stage is Refreshing && e is Shutdown ==> final(w)@ == old(w)@ && r@.len() == 0,
        e is Started && !(old(w)@.stage is Starting) ==> final(w)@ == old(w)@ && r@.len() == 0,
        e is Waited && !(old(w)@.stage is Waiting) ==> final(w)@ == old(w)@ && r@.len() == 0,
        e is Line && !(old(w)@.stage is Streaming) ==> final(w)@ == old(w)@ && r@.len() == 0,
        e is LogEnd && !(old(w)@.stage is Streaming) ==> final(w)@ == old(w)@ && r@.len() == 0,
        e is Fresh && !(old(w)@.stage is Refreshing) ==> final(w)@ == old(w)@ && r@.len() == 0,
        e is Ended && !(old(w)@.stage is Finishing) ==> final(w)@ == old(w)@ && r@.len() == 0,
{
    lemma_items(r@);
    if r@.len() == 1 {
        assert(item_views(r@)[0] == r@[0]@);
    }
}

/// Only a line, or a step's status, that nobody takes ends a worker.
pub proof fn law_must_arrive(item: &SseItem, r: bool)
    requires
        call_ensures(must_arrive, (item,), r),
    ensures
        r <==> item is Log || item is StepStatus,
{
}

// ---------------------------------------------------------------------------
// A live run
// ---------------------------------------------------------------------------

/// A stream begins with one worker for each task and no failed task, and its
/// last event so far is the second one.
pub proof fn law_stream_begins(meta: &RunMeta, r: LiveStream)
    requires
        call_ensures(LiveStream::new, (meta,), r),
    ensures
        r.run_name@ == meta.run_name@,
        r.event_id == 1,
        !r.any_task_failed,
        r.tasks_remaining == meta.tasks@.len(),
{
}

/// A stream waits while workers are left, and has to be told how the run ended
/// unless a task failed.
pub proof fn law_stream_waits(s: &LiveStream, waiting: bool, asks: bool)
    requires
        call_ensures(LiveStream::is_waiting, (s,), waiting),
        call_ensures(LiveStream::needs_outcome, (s,), asks),
    ensures
        waiting <==> s.tasks_remaining > 0,
        asks <==> !s.any_task_failed,
{
}

/// A stream sends on what an item carries, under the next id; counts a worker
/// that is done, without a word; keeps in mind that a task failed, and nothing
/// else makes it think so; and stops where there is no item.
pub proof fn law_stream_takes(s: &mut LiveStream, item: Option<SseItem>, r: StreamAction)
    requires
        old(s).tasks_remaining > 0,
        old(s).event_id < u64::MAX,
        call_ensures(LiveStream::take, (s, item), r),
    ensures
        final(s).run_name@ == old(s).run_name@,
        r is Stop <==> item is None,
        item is None ==> *final(s) == *old(s),
        r is Quiet <==> item == Some(SseItem::TaskDone),
        item is Some ==> final(s).event_id == old(s).event_id + 1,
        item matches Some(SseItem::TaskDone) ==> final(s).tasks_remaining == old(s).tasks_remaining
            - 1,
        item != Some(SseItem::TaskDone) ==> final(s).tasks_remaining == old(s).tasks_remaining,
        final(s).any_task_failed <==> (old(s).any_task_failed || (item matches Some(
            SseItem::TaskStatus(u),
        ) && u.status is Failed)),
        r matches StreamAction::Emit(e) ==> (e.id matches Some(id) && id@ == decimal_of(
            (old(s).event_id + 1) as nat,
        )),
        item matches Some(SseItem::Log(l)) ==> (r matches StreamAction::Emit(e)
            && e.payload matches Payload::Log(sent) && sent@ == l@),
        item matches Some(SseItem::StepStatus(u)) ==> (r matches StreamAction::Emit(e)
            && e.payload matches Payload::StepStatus(sent) && sent@ == u@),
        item matches Some(SseItem::TaskStatus(u)) ==> (r matches StreamAction::Emit(e)
            && e.payload matches Payload::TaskStatus(sent) && sent@ == u@),
        item matches Some(SseItem::Error(err)) ==> (r matches StreamAction::Emit(e)
            && e.payload matches Payload::Error(sent) && sent.message@ == err.message@),
{
}

/// A run ends as failed where a task failed, and otherwise as its PipelineRun
/// says; where that has said nothing, nothing is said. The time that the stream
/// took is told with it.
pub proof fn law_run_ends(
    s: &LiveStream,
    outcome: Option<(RunStatus, Option<String>)>,
    elapsed_secs: u64,
    r: Option<SseEvent>,
)
    requires
        s.tasks_remaining == 0,
        call_ensures(LiveStream::done, (s, outcome, elapsed_secs), r),
    ensures
        r is Some <==> s.any_task_failed || outcome is Some,
        r matches Some(e) ==> e.id is None && (e.payload matches Payload::Done(d) && d.run_name@
            == s.run_name@ && d.duration_seconds == Some(elapsed_secs as i64) && (s.any_task_failed
            ==> d.status is Failed && d.reason is None) && (!s.any_task_failed ==> d.status
            == (outcome->0).0 && opt_text(d.reason) == opt_text((outcome->0).1))),
{
}

// ---------------------------------------------------------------------------
// Which run, and its first event
// ---------------------------------------------------------------------------

/// Each event is sent under the name of what it carries.
pub proof fn law_event_names(p: &Payload, r: &'static str)
    requires
        call_ensures(Payload::event_name, (p,), r),
    ensures
        p is Meta ==> r@ == "meta"@,
        p is Log ==> r@ == "log"@,
        p is StepStatus ==> r@ == "step-status"@,
        p is TaskStatus ==> r@ == "task-status"@,
        p is Error ==> r@ == "error"@,
        p is Done ==> r@ == "done"@,
{
}

/// The run that the cluster has is followed. The archive is asked only where
/// the cluster has none, and its run is followed only where it is over. Any
/// other answer is a refusal that says why.
pub proof fn law_run_is_chosen(
    run_name: &str,
    live: Result<RunMeta, DiscoverError>,
    archived: Option<Result<RunMeta, ArchiveError>>,
    r: Lookup<(), Result<RunMeta, StreamError>>,
)
    requires
        call_ensures(choose_run, (run_name, live, archived), r),
    ensures
        live matches Ok(meta) ==> r == Lookup::<(), Result<RunMeta, StreamError>>::Done(Ok(meta)),
        live matches Err(DiscoverError::Kube(e)) ==> (r matches Lookup::Done(Err(refused))
            && refused.message@ == "error reading PipelineRun from cluster: "@ + e.message@),
        r is Ask <==> live == Err::<RunMeta, DiscoverError>(DiscoverError::NotFound)
            && archived is None,
        live == Err::<RunMeta, DiscoverError>(DiscoverError::NotFound) ==> {
            &&& archived matches Some(Ok(meta)) ==> {
                &&& meta.status is Succeeded || meta.status is Failed ==> r == Lookup::<
                    (),
                    Result<RunMeta, StreamError>,
                >::Done(Ok(meta))
                &&& !(meta.status is Succeeded || meta.status is Failed) ==> (r matches Lookup::Done(
                    Err(refused),
                ) && refused.message@ == "PipelineRun '"@ + run_name@
                    + "' not found live in cluster and is not yet terminal in archive (status: "@
                    + (match meta.status {
                    RunStatus::Pending => "Pending"@,
                    RunStatus::Running => "Running"@,
                    _ => "Unknown"@,
                }) + "). The run may be in a different namespace."@)
            }
            &&& archived matches Some(Err(ArchiveError::NotFound)) ==> (r matches Lookup::Done(
                Err(refused),
            ) && refused.message@ == "PipelineRun '"@ + run_name@
                + "' was not found live or in the archive"@)
        },
{
}

/// An archive that fails is quoted to the client.
pub proof fn law_archive_failure_is_quoted(
    run_name: &str,
    e: ArchiveError,
    message: String,
    r: Lookup<(), Result<RunMeta, StreamError>>,
)
    requires
        !(e is NotFound),
        call_ensures(ArchiveError::message, (&e,), message),
        call_ensures(choose_run, (run_name, Err(DiscoverError::NotFound), Some(Err(e))), r),
    ensures
        r matches Lookup::Done(Err(refused)) && refused.message@ == message@,
{
}

/// A run that is followed is described first, with the id 0; a refusal is all
/// that is sent of a run that is not.
pub proof fn law_first_event(meta: RunMeta, error: StreamError, first: SseEvent, only: SseEvent)
    requires
        call_ensures(meta_event, (meta,), first),
        call_ensures(refusal_event, (error,), only),
    ensures
        first.payload matches Payload::Meta(m) && m@ == meta@,
        first.id matches Some(id) && id@ == "0"@,
        only.payload matches Payload::Error(e) && e.message@ == error.message@,
        only.id is None,
{
}

// ---------------------------------------------------------------------------
// An archived run
// ---------------------------------------------------------------------------

/// A line's timestamp; "0" where it has none.
pub open spec fn stamp(line: LineView) -> Seq<char> {
    match line.timestamp {
        Some(t) => t,
        None => "0"@,
    }
}

/// The lines that are replayed.
pub open spec fn replayed(r: Replay) -> Seq<LineView> {
    r.logs@.map_values(|e: SseEvent| e.payload->Log_0@)
}

/// A replay sends every line once, numbered from nought. No line comes behind
/// one with a later timestamp, and lines with the same one keep their order.
pub proof fn law_replay(meta: &RunMeta, lines: Vec<LogLine>, key: Seq<char>, r: Replay)
    requires
        call_ensures(replay, (meta, Ok(lines)), r),
    ensures
        forall|i: int|
            0 <= i < r.logs@.len() ==> (#[trigger] r.logs@[i]).payload is Log && (
            r.logs@[i].id matches Some(id) && id@ == "log-"@ + decimal_of(i as nat)),
        replayed(r).len() == lines@.len(),
        replayed(r).to_multiset() == line_views(lines@).to_multiset(),
        forall|i: int, j: int|
            0 <= i < j < replayed(r).len() ==> !before(
                stamp(#[trigger] replayed(r)[j]),
                stamp(#[trigger] replayed(r)[i]),
            ),
        having(replayed(r), key) == having(line_views(lines@), key),
{
    let all = replay_lines(Ok(lines));
    lemma_sorted(line_views(lines@), Direction::Ascending);
    lemma_sorted_items(line_views(lines@), Direction::Ascending);
    assert(event_views(r.logs@).len() == all.len());
    assert forall|i: int| 0 <= i < r.logs@.len() implies (#[trigger] r.logs@[i])@ == replay_event(
        i,
        all[i],
    ) by {
        assert(event_views(r.logs@)[i] == r.logs@[i]@);
    }
    assert(replayed(r) =~= all);
    assert forall|l: LineView| #[trigger] l.key() == stamp(l) by {}
    assert(having(all, key) == having(line_views(lines@), key));
}

/// Lines are sorted by their timestamps, and by "0" without one.
pub proof fn law_lines_are_sorted_by_timestamp(line: LineView, log: LogLine)
    ensures
        line.key() == stamp(line),
        log.key() == stamp(log@),
{
}

/// A replay ends with how the run ended, and does so too where its lines cannot
/// be had. How long the run took is not told.
pub proof fn law_replay_ends(
    meta: &RunMeta,
    lines: Result<Vec<LogLine>, ArchiveError>,
    r: Replay,
)
    requires
        call_ensures(replay, (meta, lines), r),
    ensures
        r.done.id is None,
        r.done.payload matches Payload::Done(d) && d.run_name@ == meta.run_name@ && d.status
            == meta.status && opt_text(d.reason) == opt_text(meta.reason)
            && d.duration_seconds is None,
        lines is Err ==> r.logs@.len() == 0,
{
    if lines is Err {
        assert(event_views(r.logs@).len() == 0);
    }
}

// ---------------------------------------------------------------------------
// Polling
// ---------------------------------------------------------------------------

/// A task has started once it has a step, or is over. It is given up after four
/// hours; or once its PipelineRun is seen to have ended, which is looked at
/// with every fifteenth look. Till then it is looked for again.
pub proof fn law_start_is_polled(
    i: u32,
    refreshed: &Result<Option<TaskMeta>, DiscoverError>,
    run: &Option<Result<Option<Json>, KubeError>>,
    elapsed_secs: u64,
    r: Lookup<(), StartPoll>,
)
    requires
        i < u32::MAX,
        call_ensures(poll_for_task_start, (i, refreshed, run, elapsed_secs), r),
    ensures
        ({
            let started = refreshed matches Ok(Some(task)) && (task.steps@.len() > 0
                || task.status is Succeeded || task.status is Failed);
            let stopped = i % 15 == 0 && (run matches Some(Ok(Some(pr))) && (condition_status_of(
                pr@,
            ) == Some("True"@) || condition_status_of(pr@) == Some("False"@)));
            &&& started <==> (r matches Lookup::Done(StartPoll::Started(_)))
            &&& r matches Lookup::Done(StartPoll::Started(task)) ==> task@ == refreshed->Ok_0->0@
            &&& r is Ask <==> !started && i % 15 == 0 && run is None
            &&& r == Lookup::<(), StartPoll>::Done(StartPoll::Never) <==> !started && !(i % 15 == 0
                && run is None) && (stopped || elapsed_secs >= 14400)
            &&& r matches Lookup::Done(StartPoll::Again(n)) ==> n == i + 1
        }),
{
}

/// A step's status is taken once it is terminal, and as it is at the fifth
/// question; before that it is asked for again.
pub proof fn law_step_is_polled(attempt: u8, answer: Option<StepMeta>, r: StepPoll)
    requires
        call_ensures(poll_fresh_step_status, (attempt, answer), r),
    ensures
        r matches StepPoll::Known(step) ==> answer == Some(step),
        r is Known <==> (answer matches Some(step) && (step.status is Succeeded
            || step.status is Failed || attempt >= 4)),
        r is Unknown <==> answer is None && attempt >= 4,
        r matches StepPoll::Again(n) ==> n == attempt + 1,
{
}

/// A TaskRun has ended as its condition says: succeeded for "True" and failed
/// for "False", with the condition's reason. One that is gone, or has taken ten
/// minutes, is unknown. Any other is looked at again.
pub proof fn law_taskrun_end(
    reply: &Result<Option<Json>, KubeError>,
    elapsed_secs: u64,
    r: Option<(RunStatus, Option<String>)>,
)
    requires
        call_ensures(wait_for_taskrun_terminal_status, (reply, elapsed_secs), r),
    ensures
        (r matches Some((status, _)) && status is Succeeded) <==> (reply matches Ok(Some(tr))
            && condition_status_of(tr@) == Some("True"@)),
        (r matches Some((status, _)) && status is Failed) <==> (reply matches Ok(Some(tr))
            && condition_status_of(tr@) == Some("False"@)),
        r matches Some((status, reason)) ==> (match reply {
            Ok(Some(tr)) => if condition_status_of(tr@) == Some("True"@) || condition_status_of(tr@)
                == Some("False"@) {
                opt_text(reason) == condition_reason_of(tr@)
            } else {
                status is Unknown && elapsed_secs >= 600 && opt_text(reason) == Some(
                    "timed out waiting for TaskRun"@,
                )
            },
            Ok(None) => status is Unknown && opt_text(reason) == Some("TaskRun disappeared"@),
            Err(_) => status is Unknown && elapsed_secs >= 600 && opt_text(reason) == Some(
                "timed out waiting for TaskRun"@,
            ),
        }),
        r is None ==> elapsed_secs < 600 && !(reply matches Ok(None)),
{
    lemma_true_is_not_false();
}

/// A PipelineRun has ended as its condition says: succeeded for "True" and
/// failed for "False", with the condition's reason. One that is gone, or has
/// taken half a minute, is unknown. Any other is looked at again.
pub proof fn law_pipelinerun_end(
    reply: &Result<Option<Json>, KubeError>,
    elapsed_secs: u64,
    r: Option<(RunStatus, Option<String>)>,
)
    requires
        call_ensures(wait_for_pipelinerun_terminal_status, (reply, elapsed_secs), r),
    ensures
        (r matches Some((status, _)) && status is Succeeded) <==> (reply matches Ok(Some(pr))
            && condition_status_of(pr@) == Some("True"@)),
        (r matches Some((status, _)) && status is Failed) <==> (reply matches Ok(Some(pr))
            && condition_status_of(pr@) == Some("False"@)),
        r matches Some((status, reason)) ==> (match reply {
            Ok(Some(pr)) => if condition_status_of(pr@) == Some("True"@) || condition_status_of(pr@)
                == Some("False"@) {
                opt_text(reason) == condition_reason_of(pr@)
            } else {
                status is Unknown && elapsed_secs >= 30 && opt_text(reason) == Some(
                    "PipelineRun condition not finalized yet"@,
                )
            },
            Ok(None) => status is Unknown && reason is None,
            Err(_) => status is Unknown && elapsed_secs >= 30 && opt_text(reason) == Some(
                "PipelineRun condition not finalized yet"@,
            ),
        }),
        r is None ==> elapsed_secs < 30 && !(reply matches Ok(None)),
{
    lemma_true_is_not_false();
}

} // verus!
