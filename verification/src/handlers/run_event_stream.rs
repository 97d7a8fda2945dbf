//! What is sent to a client that follows a run: the skeleton first, then log
//! lines and changes of status, and how the run ended last.
//!
//! A live run is followed by one worker for each task. The workers hand their
//! items to the stream, which numbers them and keeps count of the tasks that
//! are not done yet. An archived run is replayed from its logs.
use vstd::prelude::*;
use vstd::string::*;

use crate::db::k8s_client::KubeError;
use crate::db::k8s_tekton::{
    condition_reason, condition_reason_of, condition_status, condition_status_of,
};
use crate::handlers::run_archive::ArchiveError;
use crate::handlers::run_discovery::DiscoverError;
use crate::handlers::step_log_stream::WaitResult;
use crate::json::{Json, JsonView};
use crate::lookup::Lookup;
use crate::models::run_stream::{
    line_views, status_of, step_views, DoneView, LineView, LogLine, RunDone, RunMeta, RunStatus, RunView,
    StepMeta, StepStatusUpdate, StepUpdateView, StepView, StreamError, TaskMeta, TaskStatusUpdate,
    TaskUpdateView, TaskView,
};
use crate::order::{
    lemma_sorted, lemma_sorted_items, lemma_sorted_map, ordered, sort, sorted, Direction, Keyed,
    Sortable,
};
use crate::text::{cat, cat3, decimal, decimal_of, opt_copy, opt_text, same, text_or};

verus! {

// ---------------------------------------------------------------------------
// Events
// ---------------------------------------------------------------------------

/// What an event carries.
#[derive(Debug)]
pub enum Payload {
    Meta(RunMeta),
    Log(LogLine),
    StepStatus(StepStatusUpdate),
    TaskStatus(TaskStatusUpdate),
    Error(StreamError),
    Done(RunDone),
}

/// The view of a `Payload`.
pub enum PayloadView {
    Meta(RunView),
    Log(LineView),
    StepStatus(StepUpdateView),
    TaskStatus(TaskUpdateView),
    Error(Seq<char>),
    Done(DoneView),
}

impl View for Payload {
    type V = PayloadView;

    open spec fn view(&self) -> PayloadView {
        match self {
            Payload::Meta(m) => PayloadView::Meta(m@),
            Payload::Log(l) => PayloadView::Log(l@),
            Payload::StepStatus(u) => PayloadView::StepStatus(u@),
            Payload::TaskStatus(u) => PayloadView::TaskStatus(u@),
            Payload::Error(e) => PayloadView::Error(e.message@),
            Payload::Done(d) => PayloadView::Done(d@),
        }
    }
}

impl Payload {
    /// The name that the event is sent under.
    pub fn event_name(&self) -> (r: &'static str)
        ensures
            r@ == (match *self {
                Payload::Meta(_) => "meta"@,
                Payload::Log(_) => "log"@,
                Payload::StepStatus(_) => "step-status"@,
                Payload::TaskStatus(_) => "task-status"@,
                Payload::Error(_) => "error"@,
                Payload::Done(_) => "done"@,
            }),
    {
        match self {
            Payload::Meta(_) => "meta",
            Payload::Log(_) => "log",
            Payload::StepStatus(_) => "step-status",
            Payload::TaskStatus(_) => "task-status",
            Payload::Error(_) => "error",
            Payload::Done(_) => "done",
        }
    }
}

/// An event, with its id where it has one.
#[derive(Debug)]
pub struct SseEvent {
    pub payload: Payload,
    pub id: Option<String>,
}

/// The view of an `SseEvent`.
pub struct EventView {
    pub payload: PayloadView,
    pub id: Option<Seq<char>>,
}

impl View for SseEvent {
    type V = EventView;

    open spec fn view(&self) -> EventView {
        EventView { payload: self.payload@, id: opt_text(self.id) }
    }
}

/// The views of a list of events.
pub open spec fn event_views(v: Seq<SseEvent>) -> Seq<EventView> {
    v.map_values(|e: SseEvent| e@)
}

// ---------------------------------------------------------------------------
// Which run
// ---------------------------------------------------------------------------

/// What a client is told of a run that cannot be followed.
pub open spec fn refusal_of(
    run_name: Seq<char>,
    live: Result<RunMeta, DiscoverError>,
    archived: Option<Result<RunMeta, ArchiveError>>,
) -> Option<Seq<char>> {
    match live {
        Ok(_) => None,
        Err(DiscoverError::Kube(e)) => Some(
            "error reading PipelineRun from cluster: "@ + e.message@,
        ),
        Err(DiscoverError::NotFound) => match archived {
            None => None,
            Some(Ok(meta)) => if meta.status.terminal() {
                None
            } else {
                Some(
                    "PipelineRun '"@ + run_name
                        + "' not found live in cluster and is not yet terminal in archive (status: "@
                        + meta.status.variant()
                        + "). The run may be in a different namespace."@,
                )
            },
            Some(Err(ArchiveError::NotFound)) => Some(
                "PipelineRun '"@ + run_name + "' was not found live or in the archive"@,
            ),
            Some(Err(e)) => Some(e.text()),
        },
    }
}

/// The run to follow: the live one; or, where there is none, the archived one.
/// An archived run that is not over was archived too early, and is refused.
/// The archive is asked for only where the cluster has no such run.
pub fn choose_run(
    run_name: &str,
    live: Result<RunMeta, DiscoverError>,
    archived: Option<Result<RunMeta, ArchiveError>>,
) -> (r: Lookup<(), Result<RunMeta, StreamError>>)
    ensures
        match refusal_of(run_name@, live, archived) {
            Some(message) => r matches Lookup::Done(Err(e)) && e.message@ == message,
            None => match (live, archived) {
                (Ok(meta), _) => r == Lookup::<(), Result<RunMeta, StreamError>>::Done(Ok(meta)),
                (_, Some(Ok(meta))) => r == Lookup::<(), Result<RunMeta, StreamError>>::Done(
                    Ok(meta),
                ),
                _ => r == Lookup::<(), Result<RunMeta, StreamError>>::Ask(()),
            },
        },
{
    let message = match live {
        Ok(meta) => {
            return Lookup::Done(Ok(meta));
        },
        Err(DiscoverError::Kube(e)) => cat(
            "error reading PipelineRun from cluster: ",
            e.message.as_str(),
        ),
        Err(DiscoverError::NotFound) => match archived {
            None => {
                return Lookup::Ask(());
            },
            Some(Ok(meta)) => {
                if meta.status.is_terminal() {
                    return Lookup::Done(Ok(meta));
                }
                cat3(
                    cat3(
                        "PipelineRun '",
                        run_name,
                        "' not found live in cluster and is not yet terminal in archive (status: ",
                    ).as_str(),
                    meta.status.variant_name(),
                    "). The run may be in a different namespace.",
                )
            },
            Some(Err(ArchiveError::NotFound)) => cat3(
                "PipelineRun '",
                run_name,
                "' was not found live or in the archive",
            ),
            Some(Err(e)) => e.message(),
        },
    };
    Lookup::Done(Err(StreamError { message }))
}

/// The event of a run that cannot be followed. It is the only one.
pub fn refusal_event(error: StreamError) -> (r: SseEvent)
    ensures
        r@ == (EventView { payload: PayloadView::Error(error.message@), id: None }),
{
    SseEvent { payload: Payload::Error(error), id: None }
}

/// The first event of a run that is followed.
pub fn meta_event(meta: RunMeta) -> (r: SseEvent)
    ensures
        r@ == (EventView { payload: PayloadView::Meta(meta@), id: Some("0"@) }),
{
    SseEvent { payload: Payload::Meta(meta), id: Some("0".to_owned()) }
}

// ---------------------------------------------------------------------------
// An archived run
// ---------------------------------------------------------------------------

/// The timestamp of a line; "0" where it has none.
pub open spec fn stamp_of(line: LineView) -> Seq<char> {
    text_or(line.timestamp, "0"@)
}

impl Keyed for LineView {
    open spec fn key(&self) -> Seq<char> {
        stamp_of(*self)
    }
}

impl Keyed for LogLine {
    open spec fn key(&self) -> Seq<char> {
        stamp_of(self@)
    }
}

impl Sortable for LogLine {
    fn key_text(&self) -> (r: &str) {
        match &self.timestamp {
            Some(t) => t.as_str(),
            None => "0",
        }
    }
}

/// The events of an archived run, behind the first one: its lines, and how it
/// ended. A replay that is cut short still says how the run ended.
#[derive(Debug)]
pub struct Replay {
    pub logs: Vec<SseEvent>,
    pub done: SseEvent,
}

/// The event of the line with the index.
pub open spec fn replay_event(i: int, line: LineView) -> EventView {
    EventView { payload: PayloadView::Log(line), id: Some("log-"@ + decimal_of(i as nat)) }
}

/// The lines that are replayed: none where they could not be had.
pub open spec fn replay_lines(lines: Result<Vec<LogLine>, ArchiveError>) -> Seq<LineView> {
    match lines {
        Ok(v) => sorted(line_views(v@), Direction::Ascending),
        Err(_) => Seq::empty(),
    }
}

/// Replays an archived run: its lines in the order of their timestamps, each
/// numbered, and then how the run ended. Logs that could not be had are no
/// reason not to say that.
pub fn replay(meta: &RunMeta, lines: Result<Vec<LogLine>, ArchiveError>) -> (r: Replay)
    ensures
        event_views(r.logs@) == replay_lines(lines).map(
            |i: int, line: LineView| replay_event(i, line),
        ),
        r.done@ == (EventView {
            payload: PayloadView::Done(
                DoneView {
                    run_name: meta.run_name@,
                    status: meta.status,
                    reason: opt_text(meta.reason),
                    duration_seconds: None,
                },
            ),
            id: None,
        }),
{
    let ghost wanted = replay_lines(lines);
    let lines: Vec<LogLine> = match lines {
        Ok(v) => {
            proof {
                lemma_sorted_map(v@, |l: LogLine| l@, Direction::Ascending);
            }
            sort(v, Direction::Ascending)
        },
        Err(_) => Vec::new(),
    };
    let ghost all = lines@;
    assert(line_views(all) =~= wanted);
    let mut logs: Vec<SseEvent> = Vec::new();
    let mut i: u128 = 0;
    let n: usize = lines.len();
    for line in it: lines
        invariant
            it.seq() == all,
            all.len() == n,
            i == it.index(),
            logs@.len() == i,
            forall|j: int|
                0 <= j < i ==> (#[trigger] logs@[j])@ == replay_event(j, all[j]@),
    {
        assert(line == all[it.index() as int]);
        let id = cat("log-", decimal(i).as_str());
        logs.push(SseEvent { payload: Payload::Log(line), id: Some(id) });
        i = i + 1;
    }
    assert(event_views(logs@) =~= wanted.map(|i: int, line: LineView| replay_event(i, line)));
    let done = RunDone {
        run_name: meta.run_name.clone(),
        status: meta.status,
        reason: opt_copy(&meta.reason),
        duration_seconds: None,
    };
    Replay { logs, done: SseEvent { payload: Payload::Done(done), id: None } }
}

/// A replay holds the lines that were had, each one once, and no line stands
/// behind one with a later timestamp.
pub proof fn law_replay_is_in_order(lines: Vec<LogLine>)
    ensures
        replay_lines(Ok(lines)).to_multiset() == line_views(lines@).to_multiset(),
        ordered(replay_lines(Ok(lines)), Direction::Ascending),
{
    lemma_sorted(line_views(lines@), Direction::Ascending);
    lemma_sorted_items(line_views(lines@), Direction::Ascending);
}

// ---------------------------------------------------------------------------
// A live run
// ---------------------------------------------------------------------------

/// What a worker hands to the stream.
#[derive(Debug)]
pub enum SseItem {
    Log(LogLine),
    StepStatus(StepStatusUpdate),
    TaskStatus(TaskStatusUpdate),
    Error(StreamError),
    /// The worker has nothing more to say.
    TaskDone,
}

/// The view of an `SseItem`.
pub enum ItemView {
    Log(LineView),
    StepStatus(StepUpdateView),
    TaskStatus(TaskUpdateView),
    Error(Seq<char>),
    TaskDone,
}

impl View for SseItem {
    type V = ItemView;

    open spec fn view(&self) -> ItemView {
        match self {
            SseItem::Log(l) => ItemView::Log(l@),
            SseItem::StepStatus(u) => ItemView::StepStatus(u@),
            SseItem::TaskStatus(u) => ItemView::TaskStatus(u@),
            SseItem::Error(e) => ItemView::Error(e.message@),
            SseItem::TaskDone => ItemView::TaskDone,
        }
    }
}

/// The views of a list of items.
pub open spec fn item_views(v: Seq<SseItem>) -> Seq<ItemView> {
    v.map_values(|i: SseItem| i@)
}

/// The view of an item that may be missing.
pub open spec fn opt_item(item: Option<SseItem>) -> Option<ItemView> {
    match item {
        Some(i) => Some(i@),
        None => None,
    }
}

/// A stream of a live run.
#[derive(Debug)]
pub struct LiveStream {
    pub run_name: String,
    /// The id of the last event.
    pub event_id: u64,
    pub any_task_failed: bool,
    /// How many workers have not said that they are done.
    pub tasks_remaining: usize,
}

/// The view of a `LiveStream`.
#[verifier::ext_equal]
pub struct LiveView {
    pub run_name: Seq<char>,
    pub event_id: nat,
    pub failed: bool,
    pub remaining: nat,
}

impl View for LiveStream {
    type V = LiveView;

    open spec fn view(&self) -> LiveView {
        LiveView {
            run_name: self.run_name@,
            event_id: self.event_id as nat,
            failed: self.any_task_failed,
            remaining: self.tasks_remaining as nat,
        }
    }
}

/// What to do with an item.
#[derive(Debug)]
pub enum StreamAction {
    /// Send the event.
    Emit(SseEvent),
    /// There is nothing to send.
    Quiet,
    /// End the stream, without saying how the run ended.
    Stop,
}

/// The view of a `StreamAction`.
pub enum ActionView {
    Emit(EventView),
    Quiet,
    Stop,
}

impl View for StreamAction {
    type V = ActionView;

    open spec fn view(&self) -> ActionView {
        match self {
            StreamAction::Emit(e) => ActionView::Emit(e@),
            StreamAction::Quiet => ActionView::Quiet,
            StreamAction::Stop => ActionView::Stop,
        }
    }
}

/// What an item carries to the client; nothing for one that only counts.
pub open spec fn payload_of(item: ItemView) -> Option<PayloadView> {
    match item {
        ItemView::Log(l) => Some(PayloadView::Log(l)),
        ItemView::StepStatus(u) => Some(PayloadView::StepStatus(u)),
        ItemView::TaskStatus(u) => Some(PayloadView::TaskStatus(u)),
        ItemView::Error(m) => Some(PayloadView::Error(m)),
        ItemView::TaskDone => None,
    }
}

/// Whether an item says that a task failed.
pub open spec fn says_failed(item: ItemView) -> bool {
    item matches ItemView::TaskStatus(u) && u.status is Failed
}

/// The stream after an item. Every item takes the next id.
pub open spec fn stream_next(s: LiveView, item: ItemView) -> LiveView {
    LiveView {
        run_name: s.run_name,
        event_id: s.event_id + 1,
        failed: s.failed || says_failed(item),
        remaining: if item is TaskDone {
            (s.remaining - 1) as nat
        } else {
            s.remaining
        },
    }
}

/// What is done with an item.
pub open spec fn stream_action(s: LiveView, item: ItemView) -> ActionView {
    match payload_of(item) {
        Some(payload) => ActionView::Emit(
            EventView { payload, id: Some(decimal_of(s.event_id + 1)) },
        ),
        None => ActionView::Quiet,
    }
}

impl LiveStream {
    /// A stream of a live run: one worker for each of its tasks.
    pub fn new(meta: &RunMeta) -> (r: LiveStream)
        ensures
            r@ == (LiveView {
                run_name: meta.run_name@,
                event_id: 1,
                failed: false,
                remaining: meta.tasks@.len(),
            }),
    {
        LiveStream {
            run_name: meta.run_name.clone(),
            event_id: 1,
            any_task_failed: false,
            tasks_remaining: meta.tasks.len(),
        }
    }

    /// Whether there are workers that have not said that they are done.
    pub fn is_waiting(&self) -> (r: bool)
        ensures
            r == (self@.remaining > 0),
    {
        self.tasks_remaining > 0
    }

    /// Takes the next item. There is none when the server shuts down, or when
    /// every worker is gone; the stream then ends, since workers are missing.
    pub fn take(&mut self, item: Option<SseItem>) -> (r: StreamAction)
        requires
            old(self)@.remaining > 0,
            old(self)@.event_id < u64::MAX,
        ensures
            match opt_item(item) {
                None => *final(self) == *old(self) && r@ == ActionView::Stop,
                Some(i) => final(self)@ == stream_next(old(self)@, i) && r@ == stream_action(
                    old(self)@,
                    i,
                ),
            },
    {
        let item = match item {
            Some(item) => item,
            None => {
                return StreamAction::Stop;
            },
        };
        self.event_id = self.event_id + 1;
        let payload = match item {
            SseItem::Log(log) => Payload::Log(log),
            SseItem::StepStatus(upd) => Payload::StepStatus(upd),
            SseItem::TaskStatus(upd) => {
                if matches!(upd.status, RunStatus::Failed) {
                    self.any_task_failed = true;
                }
                Payload::TaskStatus(upd)
            },
            SseItem::Error(err) => Payload::Error(err),
            SseItem::TaskDone => {
                self.tasks_remaining = self.tasks_remaining - 1;
                return StreamAction::Quiet;
            },
        };
        let id = decimal(self.event_id as u128);
        StreamAction::Emit(SseEvent { payload, id: Some(id) })
    }

    /// Whether the PipelineRun has to be asked how the run ended. It need not
    /// be where a task failed.
    pub fn needs_outcome(&self) -> (r: bool)
        ensures
            r == !self@.failed,
    {
        !self.any_task_failed
    }

    /// The last event, once every worker is done, given what the PipelineRun says
    /// of how the run ended and how long the stream has run. A run with a failed task has failed,
    /// whatever the PipelineRun says. There is no last event where the server
    /// shut down before the PipelineRun had said anything.
    pub fn done(
        &self,
        outcome: Option<(RunStatus, Option<String>)>,
        elapsed_secs: u64,
    ) -> (r: Option<SseEvent>)
        requires
            self@.remaining == 0,
        ensures
            match done_of(self@, outcome, elapsed_secs) {
                Some(e) => r matches Some(event) && event@ == e,
                None => r is None,
            },
    {
        let (status, reason) = if self.any_task_failed {
            (RunStatus::Failed, None)
        } else {
            match outcome {
                Some(o) => o,
                None => {
                    return None;
                },
            }
        };
        let done = RunDone {
            run_name: self.run_name.clone(),
            status,
            reason,
            duration_seconds: Some(elapsed_secs as i64),
        };
        Some(SseEvent { payload: Payload::Done(done), id: None })
    }
}

/// The last event of a live run.
pub open spec fn done_of(
    s: LiveView,
    outcome: Option<(RunStatus, Option<String>)>,
    elapsed_secs: u64,
) -> Option<EventView> {
    let ended = if s.failed {
        Some((RunStatus::Failed, None::<Seq<char>>))
    } else {
        match outcome {
            Some((status, reason)) => Some((status, opt_text(reason))),
            None => None,
        }
    };
    match ended {
        Some((status, reason)) => Some(
            EventView {
                payload: PayloadView::Done(
                    DoneView {
                        run_name: s.run_name,
                        status,
                        reason,
                        duration_seconds: Some(elapsed_secs as i64),
                    },
                ),
                id: None,
            },
        ),
        None => None,
    }
}

/// The stream after a number of items.
pub open spec fn stream_after(s: LiveView, items: Seq<ItemView>) -> LiveView
    decreases items.len(),
{
    if items.len() == 0 {
        s
    } else {
        stream_next(stream_after(s, items.drop_last()), items.last())
    }
}

/// How many of the items say that a worker is done.
pub open spec fn dones(items: Seq<ItemView>) -> nat
    decreases items.len(),
{
    if items.len() == 0 {
        0
    } else {
        dones(items.drop_last()) + if items.last() is TaskDone {
            1nat
        } else {
            0nat
        }
    }
}

/// Whatever the workers hand over, the ids count up one by one; the stream
/// waits until as many workers are done as there are tasks; and it holds the
/// run for failed exactly if some item said that a task failed.
pub proof fn law_stream_keeps_count(s: LiveView, items: Seq<ItemView>)
    requires
        dones(items) <= s.remaining,
    ensures
        stream_after(s, items).run_name == s.run_name,
        stream_after(s, items).event_id == s.event_id + items.len(),
        stream_after(s, items).remaining == s.remaining - dones(items),
        stream_after(s, items).failed <==> s.failed || exists|i: int|
            0 <= i < items.len() && says_failed(#[trigger] items[i]),
    decreases items.len(),
{
    if items.len() > 0 {
        let front = items.drop_last();
        law_stream_keeps_count(s, front);
        assert forall|i: int| 0 <= i < front.len() implies front[i] == items[i] by {}
        if exists|i: int| 0 <= i < front.len() && says_failed(#[trigger] front[i]) {
            let i = choose|i: int| 0 <= i < front.len() && says_failed(#[trigger] front[i]);
            assert(says_failed(items[i]));
        }
        if exists|i: int| 0 <= i < items.len() && says_failed(#[trigger] items[i]) {
            let i = choose|i: int| 0 <= i < items.len() && says_failed(#[trigger] items[i]);
            if i < front.len() {
                assert(says_failed(front[i]));
            }
        }
    }
}

/// A run with a failed task is reported as failed, whatever else is known of
/// it; and any other as its PipelineRun says.
pub proof fn law_failed_task_fails_run(
    s: LiveView,
    items: Seq<ItemView>,
    outcome: Option<(RunStatus, Option<String>)>,
    elapsed_secs: u64,
)
    requires
        dones(items) <= s.remaining,
        !s.failed,
    ensures
        (exists|i: int| 0 <= i < items.len() && says_failed(#[trigger] items[i])) ==> (done_of(
            stream_after(s, items),
            outcome,
            elapsed_secs,
        ) matches Some(e) && e.payload->Done_0.status is Failed && e.payload->Done_0.reason is None),
        !(exists|i: int| 0 <= i < items.len() && says_failed(#[trigger] items[i])) ==> (match (
            done_of(stream_after(s, items), outcome, elapsed_secs),
            outcome,
        ) {
            (Some(e), Some((status, reason))) => e.payload->Done_0.status == status
                && e.payload->Done_0.reason == opt_text(reason),
            (None, None) => true,
            _ => false,
        }),
{
    law_stream_keeps_count(s, items);
}

// ---------------------------------------------------------------------------
// The worker of a task
// ---------------------------------------------------------------------------

/// What a worker is busy with.
#[derive(Debug, Clone, Copy, PartialEq, Eq, Structural)]
pub enum Stage {
    /// The task has no TaskRun yet.
    Starting,
    /// The current step's container has to be ready first.
    Waiting,
    /// The current step's log is read; whether its container was over before
    /// that is known.
    Streaming(bool),
    /// The current step's status is asked for.
    Refreshing,
    /// All steps are through; the TaskRun has to end.
    Finishing,
    /// There is nothing more to do.
    Over,
}

/// The worker of a task: it follows one step after the other.
#[derive(Debug)]
pub struct Worker {
    task: TaskMeta,
    pod_name: String,
    step: usize,
    stage: Stage,
}

/// The view of a `Worker`.
#[verifier::ext_equal]
pub struct WorkerView {
    pub task: TaskView,
    pub pod: Seq<char>,
    /// The index of the current step.
    pub step: nat,
    pub stage: Stage,
}

impl WorkerView {
    /// A worker that is busy with a step has one.
    pub open spec fn wf(self) -> bool {
        match self.stage {
            Stage::Waiting | Stage::Streaming(_) | Stage::Refreshing => self.step
                < self.task.steps.len(),
            Stage::Finishing => self.step == self.task.steps.len(),
            _ => true,
        }
    }

    /// The current step.
    pub open spec fn current(self) -> StepView {
        self.task.steps[self.step as int]
    }

    /// The worker, in another stage.
    pub open spec fn at(self, stage: Stage) -> WorkerView {
        WorkerView { stage, ..self }
    }
}

impl View for Worker {
    type V = WorkerView;

    closed spec fn view(&self) -> WorkerView {
        WorkerView {
            task: self.task@,
            pod: self.pod_name@,
            step: self.step as nat,
            stage: self.stage,
        }
    }
}

/// Where a worker is that has come to a step: a pending one has to be waited
/// for, and the log of any other can be read at once. Behind the last step the
/// task has to end.
pub open spec fn stage_at(steps: Seq<StepView>, step: nat) -> Stage {
    if step < steps.len() {
        let status = steps[step as int].status;
        if status is Pending {
            Stage::Waiting
        } else {
            Stage::Streaming(status.terminal())
        }
    } else {
        Stage::Finishing
    }
}

/// A worker of a task that has a TaskRun, at the first step.
pub open spec fn worker_at_work(task: TaskView) -> WorkerView {
    WorkerView {
        task,
        pod: text_or(task.pod_name, task.taskrun_name + "-pod"@),
        step: 0,
        stage: stage_at(task.steps, 0),
    }
}

/// A worker of a task, at its beginning.
pub open spec fn worker_of(task: TaskView) -> WorkerView {
    if task.taskrun_name.len() == 0 {
        WorkerView { task, pod: Seq::empty(), step: 0, stage: Stage::Starting }
    } else {
        worker_at_work(task)
    }
}

/// A worker that goes on to the next step.
pub open spec fn worker_next_step(w: WorkerView) -> WorkerView {
    WorkerView { step: w.step + 1, stage: stage_at(w.task.steps, w.step + 1), ..w }
}

/// What happens to a worker.
#[derive(Debug)]
pub enum WorkerEvent {
    /// The server shuts down.
    Shutdown,
    /// Nobody takes the worker's items any more.
    Gone,
    /// The task has started, or never will.
    Started(Option<TaskMeta>),
    /// The wait for the current step's container has ended.
    Waited(WaitResult),
    /// The current step's log has a line.
    Line(Option<String>, String),
    /// The current step's log has ended.
    LogEnd,
    /// What the current step is doing now, if that is known.
    Fresh(Option<StepMeta>),
    /// The TaskRun has ended, or is given up.
    Ended(RunStatus, Option<String>),
}

/// The view of a `WorkerEvent`.
pub enum HappeningView {
    Shutdown,
    Gone,
    Started(Option<TaskView>),
    Waited(WaitResult),
    Line(Option<Seq<char>>, Seq<char>),
    LogEnd,
    Fresh(Option<StepView>),
    Ended(RunStatus, Option<Seq<char>>),
}

impl View for WorkerEvent {
    type V = HappeningView;

    open spec fn view(&self) -> HappeningView {
        match self {
            WorkerEvent::Shutdown => HappeningView::Shutdown,
            WorkerEvent::Gone => HappeningView::Gone,
            WorkerEvent::Started(Some(t)) => HappeningView::Started(Some(t@)),
            WorkerEvent::Started(None) => HappeningView::Started(None),
            WorkerEvent::Waited(r) => HappeningView::Waited(*r),
            WorkerEvent::Line(ts, line) => HappeningView::Line(opt_text(*ts), line@),
            WorkerEvent::LogEnd => HappeningView::LogEnd,
            WorkerEvent::Fresh(Some(s)) => HappeningView::Fresh(Some(s@)),
            WorkerEvent::Fresh(None) => HappeningView::Fresh(None),
            WorkerEvent::Ended(status, reason) => HappeningView::Ended(*status, opt_text(*reason)),
        }
    }
}

/// What a worker says of its task's end.
pub open spec fn task_ended(
    task: Seq<char>,
    status: RunStatus,
    reason: Option<Seq<char>>,
) -> Seq<ItemView> {
    seq![ItemView::TaskStatus(TaskUpdateView { task, status, reason }), ItemView::TaskDone]
}

/// What a worker says of the current step's status: what it is now, or, where
/// that is not known, what it was last.
pub open spec fn step_reported(w: WorkerView, fresh: Option<StepView>) -> ItemView {
    let step = match fresh {
        Some(s) => s,
        None => w.current(),
    };
    ItemView::StepStatus(
        StepUpdateView {
            task: w.task.name,
            step: w.current().name,
            status: step.status,
            reason: step.reason,
        },
    )
}

/// What a worker does when something happens: where it is then, and what it
/// hands to the stream. A shutdown ends every wait but lets a log that is being
/// read end with its step's status. A step whose container never shows up is
/// reported and passed over. What a worker is not waiting for changes nothing.
pub open spec fn worker_step(w: WorkerView, e: HappeningView) -> (WorkerView, Seq<ItemView>) {
    match (w.stage, e) {
        (Stage::Over, _) => (w, Seq::empty()),
        (_, HappeningView::Gone) => (w.at(Stage::Over), Seq::empty()),
        (Stage::Starting | Stage::Waiting | Stage::Finishing, HappeningView::Shutdown) => (
            w.at(Stage::Over),
            seq![ItemView::TaskDone],
        ),
        (Stage::Starting, HappeningView::Started(Some(task))) => (
            worker_at_work(task),
            Seq::empty(),
        ),
        (Stage::Starting, HappeningView::Started(None)) => (
            w.at(Stage::Over),
            task_ended(w.task.name, RunStatus::Pending, Some("task never started"@)),
        ),
        (Stage::Waiting, HappeningView::Waited(WaitResult::Ready)) => (
            w.at(Stage::Streaming(false)),
            Seq::empty(),
        ),
        (Stage::Waiting, HappeningView::Waited(WaitResult::AlreadyTerminated)) => (
            w.at(Stage::Streaming(true)),
            Seq::empty(),
        ),
        (Stage::Waiting, HappeningView::Waited(WaitResult::TimedOut)) => (
            worker_next_step(w),
            seq![
                ItemView::Error(
                    "timed out waiting for "@ + w.task.name + "/"@ + w.current().name
                        + " to start"@,
                ),
            ],
        ),
        (Stage::Streaming(_), HappeningView::Line(timestamp, line)) => (
            w,
            seq![
                ItemView::Log(
                    LineView { task: w.task.name, step: w.current().name, line, timestamp },
                ),
            ],
        ),
        (Stage::Streaming(_), HappeningView::LogEnd | HappeningView::Shutdown) => (
            w.at(Stage::Refreshing),
            Seq::empty(),
        ),
        (Stage::Refreshing, HappeningView::Fresh(fresh)) => (
            worker_next_step(w),
            seq![step_reported(w, fresh)],
        ),
        (Stage::Finishing, HappeningView::Ended(status, reason)) => (
            w.at(Stage::Over),
            task_ended(w.task.name, status, reason),
        ),
        _ => (w, Seq::empty()),
    }
}

/// What a worker is waiting for.
#[derive(Debug)]
pub enum Awaited {
    /// The task to start.
    Start { task: String },
    /// A container to be ready.
    Container { pod: String, container: String },
    /// The next line of a container's log. One that was over before is not
    /// followed.
    Line { pod: String, container: String, already_terminated: bool },
    /// A step's status now.
    Step { taskrun: String, step: String },
    /// The end of a TaskRun.
    End { taskrun: String },
    Nothing,
}

/// The view of an `Awaited`.
pub enum AwaitedView {
    Start { task: Seq<char> },
    Container { pod: Seq<char>, container: Seq<char> },
    Line { pod: Seq<char>, container: Seq<char>, already_terminated: bool },
    Step { taskrun: Seq<char>, step: Seq<char> },
    End { taskrun: Seq<char> },
    Nothing,
}

impl View for Awaited {
    type V = AwaitedView;

    open spec fn view(&self) -> AwaitedView {
        match self {
            Awaited::Start { task } => AwaitedView::Start { task: task@ },
            Awaited::Container { pod, container } => AwaitedView::Container {
                pod: pod@,
                container: container@,
            },
            Awaited::Line { pod, container, already_terminated } => AwaitedView::Line {
                pod: pod@,
                container: container@,
                already_terminated: *already_terminated,
            },
            Awaited::Step { taskrun, step } => AwaitedView::Step {
                taskrun: taskrun@,
                step: step@,
            },
            Awaited::End { taskrun } => AwaitedView::End { taskrun: taskrun@ },
            Awaited::Nothing => AwaitedView::Nothing,
        }
    }
}

/// What a worker is waiting for.
pub open spec fn awaited_of(w: WorkerView) -> AwaitedView {
    match w.stage {
        Stage::Starting => AwaitedView::Start { task: w.task.name },
        Stage::Waiting => AwaitedView::Container { pod: w.pod, container: w.current().container },
        Stage::Streaming(already_terminated) => AwaitedView::Line {
            pod: w.pod,
            container: w.current().container,
            already_terminated,
        },
        Stage::Refreshing => AwaitedView::Step {
            taskrun: w.task.taskrun_name,
            step: w.current().name,
        },
        Stage::Finishing => AwaitedView::End { taskrun: w.task.taskrun_name },
        Stage::Over => AwaitedView::Nothing,
    }
}

/// Where a worker is that has come to a step.
fn stage_of(steps: &Vec<StepMeta>, step: usize) -> (r: Stage)
    ensures
        r == stage_at(step_views(steps@), step as nat),
{
    if step < steps.len() {
        assert(step_views(steps@)[step as int] == steps@[step as int]@);
        if matches!(steps[step].status, RunStatus::Pending) {
            Stage::Waiting
        } else {
            Stage::Streaming(steps[step].status.is_terminal())
        }
    } else {
        Stage::Finishing
    }
}

impl Worker {
    /// A worker of a task that has a TaskRun, at the first step.
    fn at_work(task: TaskMeta) -> (r: Worker)
        ensures
            r@ == worker_at_work(task@),
    {
        let pod_name = match &task.pod_name {
            Some(pod) => pod.clone(),
            None => cat(task.taskrun_name.as_str(), "-pod"),
        };
        let stage = stage_of(&task.steps, 0);
        Worker { task, pod_name, step: 0, stage }
    }

    /// A worker of a task. A task without a TaskRun has to start first.
    pub fn new(task: TaskMeta) -> (r: Worker)
        ensures
            r@ == worker_of(task@),
            r@.wf(),
    {
        if task.taskrun_name.as_str().is_empty() {
            Worker { task, pod_name: String::new(), step: 0, stage: Stage::Starting }
        } else {
            Worker::at_work(task)
        }
    }

    /// What the worker is waiting for.
    pub fn awaits(&self) -> (r: Awaited)
        requires
            self@.wf(),
        ensures
            r@ == awaited_of(self@),
    {
        let ghost views = step_views(self.task.steps@);
        match self.stage {
            Stage::Starting => Awaited::Start { task: self.task.name.clone() },
            Stage::Waiting => {
                assert(views[self.step as int] == self.task.steps@[self.step as int]@);
                Awaited::Container {
                    pod: self.pod_name.clone(),
                    container: self.task.steps[self.step].container.clone(),
                }
            },
            Stage::Streaming(already_terminated) => {
                assert(views[self.step as int] == self.task.steps@[self.step as int]@);
                Awaited::Line {
                    pod: self.pod_name.clone(),
                    container: self.task.steps[self.step].container.clone(),
                    already_terminated,
                }
            },
            Stage::Refreshing => {
                assert(views[self.step as int] == self.task.steps@[self.step as int]@);
                Awaited::Step {
                    taskrun: self.task.taskrun_name.clone(),
                    step: self.task.steps[self.step].name.clone(),
                }
            },
            Stage::Finishing => Awaited::End { taskrun: self.task.taskrun_name.clone() },
            Stage::Over => Awaited::Nothing,
        }
    }

    /// Goes on to the next step.
    fn next_step(&mut self)
        requires
            old(self)@.step < old(self)@.task.steps.len(),
        ensures
            final(self)@ == worker_next_step(old(self)@),
    {
        let n: usize = self.task.steps.len();
        assert(self.step < n);
        self.step = self.step + 1;
        self.stage = stage_of(&self.task.steps, self.step);
    }

    /// Takes what happens, and says what is handed to the stream.
    pub fn take(&mut self, event: WorkerEvent) -> (r: Vec<SseItem>)
        requires
            old(self)@.wf(),
        ensures
            (final(self)@, item_views(r@)) == worker_step(old(self)@, event@),
            final(self)@.wf(),
    {
        let ghost before = self@;
        let ghost happened = event@;
        let mut items: Vec<SseItem> = Vec::new();
        assert(item_views(items@) =~= Seq::<ItemView>::empty());
        match (self.stage, event) {
            (Stage::Over, _) => {},
            (_, WorkerEvent::Gone) => {
                self.stage = Stage::Over;
            },
            (Stage::Starting, WorkerEvent::Shutdown) => {
                self.stage = Stage::Over;
                items.push(SseItem::TaskDone);
            },
            (Stage::Waiting, WorkerEvent::Shutdown) => {
                self.stage = Stage::Over;
                items.push(SseItem::TaskDone);
            },
            (Stage::Finishing, WorkerEvent::Shutdown) => {
                self.stage = Stage::Over;
                items.push(SseItem::TaskDone);
            },
            (Stage::Starting, WorkerEvent::Started(Some(task))) => {
                *self = Worker::at_work(task);
            },
            (Stage::Starting, WorkerEvent::Started(None)) => {
                self.stage = Stage::Over;
                items.push(
                    SseItem::TaskStatus(
                        TaskStatusUpdate {
                            task: self.task.name.clone(),
                            status: RunStatus::Pending,
                            reason: Some("task never started".to_owned()),
                        },
                    ),
                );
                items.push(SseItem::TaskDone);
            },
            (Stage::Waiting, WorkerEvent::Waited(WaitResult::Ready)) => {
                self.stage = Stage::Streaming(false);
            },
            (Stage::Waiting, WorkerEvent::Waited(WaitResult::AlreadyTerminated)) => {
                self.stage = Stage::Streaming(true);
            },
            (Stage::Waiting, WorkerEvent::Waited(WaitResult::TimedOut)) => {
                let step = &self.task.steps[self.step];
                let where_it_is = cat3(self.task.name.as_str(), "/", step.name.as_str());
                let message = cat3("timed out waiting for ", where_it_is.as_str(), " to start");
                assert(message@ =~= "timed out waiting for "@ + before.task.name + "/"@
                    + before.current().name + " to start"@);
                items.push(SseItem::Error(StreamError { message }));
                self.next_step();
            },
            (Stage::Streaming(_), WorkerEvent::Line(timestamp, line)) => {
                items.push(
                    SseItem::Log(
                        LogLine {
                            task: self.task.name.clone(),
                            step: self.task.steps[self.step].name.clone(),
                            line,
                            timestamp,
                        },
                    ),
                );
            },
            (Stage::Streaming(_), WorkerEvent::LogEnd) => {
                self.stage = Stage::Refreshing;
            },
            (Stage::Streaming(_), WorkerEvent::Shutdown) => {
                self.stage = Stage::Refreshing;
            },
            (Stage::Refreshing, WorkerEvent::Fresh(fresh)) => {
                let last = &self.task.steps[self.step];
                let (status, reason) = match fresh {
                    Some(step) => (step.status, step.reason),
                    None => (last.status, opt_copy(&last.reason)),
                };
                items.push(
                    SseItem::StepStatus(
                        StepStatusUpdate {
                            task: self.task.name.clone(),
                            step: last.name.clone(),
                            status,
                            reason,
                        },
                    ),
                );
                self.next_step();
            },
            (Stage::Finishing, WorkerEvent::Ended(status, reason)) => {
                self.stage = Stage::Over;
                items.push(
                    SseItem::TaskStatus(
                        TaskStatusUpdate { task: self.task.name.clone(), status, reason },
                    ),
                );
                items.push(SseItem::TaskDone);
            },
            _ => {},
        }
        assert(item_views(items@) =~= worker_step(before, happened).1);
        items
    }
}

/// Whether a worker is over when nobody takes the item.
pub fn must_arrive(item: &SseItem) -> (r: bool)
    ensures
        r == (item is Log || item is StepStatus),
{
    matches!(item, SseItem::Log(_) | SseItem::StepStatus(_))
}

/// A worker after a number of happenings, and all that it has handed over.
pub open spec fn worker_after(w: WorkerView, events: Seq<HappeningView>) -> (
    WorkerView,
    Seq<ItemView>,
)
    decreases events.len(),
{
    if events.len() == 0 {
        (w, Seq::empty())
    } else {
        let (then, items) = worker_after(w, events.drop_last());
        let (now, more) = worker_step(then, events.last());
        (now, items + more)
    }
}

/// How many of the items report on a step: its status, or that its container
/// never showed up.
pub open spec fn reports(items: Seq<ItemView>) -> nat
    decreases items.len(),
{
    if items.len() == 0 {
        0
    } else {
        reports(items.drop_last()) + if items.last() is StepStatus || items.last() is Error {
            1nat
        } else {
            0nat
        }
    }
}

proof fn lemma_counts_add(a: Seq<ItemView>, b: Seq<ItemView>)
    ensures
        dones(a + b) == dones(a) + dones(b),
        reports(a + b) == reports(a) + reports(b),
    decreases b.len(),
{
    if b.len() == 0 {
        assert(a + b =~= a);
    } else {
        lemma_counts_add(a, b.drop_last());
        assert((a + b).drop_last() =~= a + b.drop_last());
    }
}

proof fn lemma_worker_step(w: WorkerView, e: HappeningView)
    requires
        w.wf(),
    ensures
        ({
            let (now, items) = worker_step(w, e);
            &&& now.wf()
            &&& dones(items) <= 1
            &&& dones(items) == 1 ==> items.last() is TaskDone
            &&& dones(items) == 1 <==> now.stage is Over && !(w.stage is Over) && !(e is Gone)
            &&& w.stage is Over ==> now == w && items.len() == 0
            &&& !(w.stage is Starting) && !(now.stage is Over) ==> now.task == w.task
                && !(now.stage is Starting) && now.step == w.step + reports(items)
            &&& w.stage is Starting && !(now.stage is Over) ==> reports(items) == 0 && (
            now.stage is Starting || now.step == 0)
        }),
{
    reveal_with_fuel(dones, 3);
    reveal_with_fuel(reports, 3);
    let (now, items) = worker_step(w, e);
    if items.len() == 2 {
        assert(items.drop_last() =~= seq![items[0]]);
        assert(items.drop_last().drop_last() =~= Seq::<ItemView>::empty());
    } else if items.len() == 1 {
        assert(items.drop_last() =~= Seq::<ItemView>::empty());
    }
}

/// A worker says that it is done once, and nothing after that; and it says so
/// in the end, unless nobody is left to be told.
pub proof fn law_worker_is_done_once(task: TaskView, events: Seq<HappeningView>)
    ensures
        ({
            let (w, items) = worker_after(worker_of(task), events);
            &&& w.wf()
            &&& dones(items) <= 1
            &&& dones(items) == 1 ==> w.stage is Over && items.last() is TaskDone
            &&& w.stage is Over && !events.contains(HappeningView::Gone) ==> dones(items) == 1
        }),
    decreases events.len(),
{
    if events.len() > 0 {
        let front = events.drop_last();
        law_worker_is_done_once(task, front);
        let (then, items) = worker_after(worker_of(task), front);
        let (now, more) = worker_step(then, events.last());
        lemma_worker_step(then, events.last());
        lemma_counts_add(items, more);
        assert(events.contains(events.last()));
        assert forall|e: HappeningView| front.contains(e) implies events.contains(e) by {
            let k = choose|k: int| 0 <= k < front.len() && front[k] == e;
            assert(events[k] == e);
        }
        if more.len() > 0 {
            assert((items + more).last() == more.last());
        } else {
            assert(items + more =~= items);
        }
    }
}

/// A worker reports on every step: by the time that it waits for its TaskRun to
/// end, each step of the task has been reported on once, and no step has been
/// reported on before its turn.
pub proof fn law_every_step_is_reported(task: TaskView, events: Seq<HappeningView>)
    ensures
        ({
            let (w, items) = worker_after(worker_of(task), events);
            &&& w.stage is Starting ==> reports(items) == 0
            &&& !(w.stage is Starting) && !(w.stage is Over) ==> reports(items) == w.step
            &&& w.stage is Finishing ==> reports(items) == w.task.steps.len()
        }),
    decreases events.len(),
{
    if events.len() > 0 {
        let front = events.drop_last();
        law_every_step_is_reported(task, front);
        law_worker_is_done_once(task, front);
        let (then, items) = worker_after(worker_of(task), front);
        let (now, more) = worker_step(then, events.last());
        lemma_worker_step(then, events.last());
        lemma_counts_add(items, more);
    }
}

/// A log is only followed while its container may still write to it: a step
/// that was over from the start, or whose container was found over, is read up
/// to its end.
pub proof fn law_finished_container_is_not_followed(task: TaskView, events: Seq<HappeningView>)
    ensures
        ({
            let w = worker_after(worker_of(task), events).0;
            w.stage == Stage::Streaming(false) ==> !w.current().status.terminal()
        }),
        ({
            let w = worker_after(worker_of(task), events).0;
            w.stage is Waiting ==> worker_step(
                w,
                HappeningView::Waited(WaitResult::AlreadyTerminated),
            ).0.stage == Stage::Streaming(true)
        }),
    decreases events.len(),
{
    if events.len() > 0 {
        let front = events.drop_last();
        law_finished_container_is_not_followed(task, front);
        lemma_waiting_is_pending(task, front);
    }
}

proof fn lemma_waiting_is_pending(task: TaskView, events: Seq<HappeningView>)
    ensures
        ({
            let w = worker_after(worker_of(task), events).0;
            w.stage is Waiting ==> w.current().status is Pending
        }),
    decreases events.len(),
{
    if events.len() > 0 {
        lemma_waiting_is_pending(task, events.drop_last());
    }
}

// ---------------------------------------------------------------------------
// Polling
// ---------------------------------------------------------------------------

/// How long a task may take to start, in seconds: four hours. A task waits for
/// those before it, and these may well run for hours.
pub const START_CAP_SECS: u64 = 14400;

/// How long to wait between two looks for a task's start, in seconds.
pub const START_POLL_SECS: u64 = 2;

/// At every how many looks the PipelineRun itself is looked at.
pub const PR_CHECK_EVERY: u32 = 15;

/// How often a step's status is asked for.
pub const MAX_STEP_ATTEMPTS: u8 = 5;

/// How long to wait between two questions for a step's status, in
/// milliseconds.
pub const STEP_RETRY_MILLIS: u64 = 300;

/// How long a TaskRun may take to end once its steps are through, in seconds.
pub const TASKRUN_TIMEOUT_SECS: u64 = 600;

/// How long a PipelineRun may take to end once its tasks are done, in seconds.
pub const PIPELINERUN_TIMEOUT_SECS: u64 = 30;

/// How long to wait between two looks at a TaskRun or a PipelineRun, in
/// seconds.
pub const END_POLL_SECS: u64 = 2;

/// What follows a look for a task's start.
#[derive(Debug)]
pub enum StartPoll {
    Started(TaskMeta),
    /// The task will not start any more.
    Never,
    /// Wait a little and look again; this is the look's number.
    Again(u32),
}

/// The task, if it has started: if it has a step, or is over already.
pub open spec fn started_task(refreshed: Result<Option<TaskMeta>, DiscoverError>) -> Option<
    TaskView,
> {
    match refreshed {
        Ok(Some(task)) => if task.steps@.len() > 0 || task.status.terminal() {
            Some(task@)
        } else {
            None
        },
        _ => None,
    }
}

/// Whether a PipelineRun is known to have ended. One without a condition has
/// only just been created.
pub open spec fn run_stopped(reply: Result<Option<Json>, KubeError>) -> bool {
    reply matches Ok(Some(pr)) && ended_of(pr@) is Some
}

/// Whether a PipelineRun is known to have ended.
fn has_stopped(reply: &Result<Option<Json>, KubeError>) -> (r: bool)
    ensures
        r == run_stopped(*reply),
{
    match reply {
        Ok(Some(pr)) => ended(pr).is_some(),
        _ => false,
    }
}

/// What follows look number `i` for a task's start: `refreshed` is what the
/// look gave, and `run` is the PipelineRun, which has to be read at some of the
/// looks. A task whose PipelineRun has ended will never start; nor will one
/// that has taken too long.
pub fn poll_for_task_start(
    i: u32,
    refreshed: &Result<Option<TaskMeta>, DiscoverError>,
    run: &Option<Result<Option<Json>, KubeError>>,
    elapsed_secs: u64,
) -> (r: Lookup<(), StartPoll>)
    requires
        i < u32::MAX,
    ensures
        match started_task(*refreshed) {
            Some(t) => r matches Lookup::Done(StartPoll::Started(task)) && task@ == t,
            None => if i % PR_CHECK_EVERY == 0 && run is None {
                r == Lookup::<(), StartPoll>::Ask(())
            } else if i % PR_CHECK_EVERY == 0 && run_stopped(run->0) {
                r == Lookup::<(), StartPoll>::Done(StartPoll::Never)
            } else if elapsed_secs >= START_CAP_SECS {
                r == Lookup::<(), StartPoll>::Done(StartPoll::Never)
            } else {
                r == Lookup::<(), StartPoll>::Done(StartPoll::Again((i + 1) as u32))
            },
        },
{
    if let Ok(Some(task)) = refreshed {
        if task.steps.len() > 0 || task.status.is_terminal() {
            return Lookup::Done(StartPoll::Started(task.copy()));
        }
    }
    if i % PR_CHECK_EVERY == 0 {
        match run {
            None => {
                return Lookup::Ask(());
            },
            Some(reply) => {
                if has_stopped(reply) {
                    return Lookup::Done(StartPoll::Never);
                }
            },
        }
    }
    if elapsed_secs >= START_CAP_SECS {
        return Lookup::Done(StartPoll::Never);
    }
    Lookup::Done(StartPoll::Again(i + 1))
}

/// What follows a question for a step's status.
#[derive(Debug)]
pub enum StepPoll {
    Known(StepMeta),
    /// It could not be had.
    Unknown,
    /// Wait a little and ask again; this is the question's number.
    Again(u8),
}

/// What follows question number `attempt` for a step's status. Only a terminal
/// status is taken at once; the last answer is taken as it is.
pub fn poll_fresh_step_status(attempt: u8, answer: Option<StepMeta>) -> (r: StepPoll)
    ensures
        match answer {
            Some(step) => if step.status.terminal() || attempt + 1 >= MAX_STEP_ATTEMPTS {
                r == StepPoll::Known(step)
            } else {
                r == StepPoll::Again((attempt + 1) as u8)
            },
            None => if attempt + 1 >= MAX_STEP_ATTEMPTS {
                r == StepPoll::Unknown
            } else {
                r == StepPoll::Again((attempt + 1) as u8)
            },
        },
{
    let last: bool = attempt >= MAX_STEP_ATTEMPTS - 1;
    match answer {
        Some(step) => {
            if step.status.is_terminal() || last {
                return StepPoll::Known(step);
            }
        },
        None => {
            if last {
                return StepPoll::Unknown;
            }
        },
    }
    StepPoll::Again(attempt + 1)
}

/// How an object's condition says that it ended, if it did.
pub open spec fn ended_of(obj: JsonView) -> Option<(RunStatus, Option<Seq<char>>)> {
    if condition_status_of(obj) == Some("True"@) {
        Some((RunStatus::Succeeded, condition_reason_of(obj)))
    } else if condition_status_of(obj) == Some("False"@) {
        Some((RunStatus::Failed, condition_reason_of(obj)))
    } else {
        None
    }
}

/// The view of an outcome.
pub open spec fn outcome_view(r: Option<(RunStatus, Option<String>)>) -> Option<
    (RunStatus, Option<Seq<char>>),
> {
    match r {
        Some((status, reason)) => Some((status, opt_text(reason))),
        None => None,
    }
}

/// How an object's condition says that it ended, if it did.
fn ended(obj: &Json) -> (r: Option<(RunStatus, Option<String>)>)
    ensures
        outcome_view(r) == ended_of(obj@),
{
    proof {
        reveal_strlit("True");
        reveal_strlit("False");
    }
    match condition_status(obj) {
        Some(status) => if same(status.as_str(), "True") {
            Some((RunStatus::Succeeded, condition_reason(obj)))
        } else if same(status.as_str(), "False") {
            Some((RunStatus::Failed, condition_reason(obj)))
        } else {
            None
        },
        None => None,
    }
}

/// How an object ended, by the last look at it: `gone` is said of one that is
/// not there any more, and `late` of one that has taken too long. Nothing is
/// said where the object has to be looked at again.
pub open spec fn outcome_of(
    reply: Result<Option<Json>, KubeError>,
    gone: Option<Seq<char>>,
    late: Seq<char>,
    too_late: bool,
) -> Option<(RunStatus, Option<Seq<char>>)> {
    let seen = match reply {
        Ok(Some(obj)) => ended_of(obj@),
        Ok(None) => Some((RunStatus::Unknown, gone)),
        Err(_) => None,
    };
    if seen is Some {
        seen
    } else if too_late {
        Some((RunStatus::Unknown, Some(late)))
    } else {
        None
    }
}

/// How a TaskRun ended, by the last look at it and the time since the first
/// one. Nothing is said where it has to be looked at again.
pub fn wait_for_taskrun_terminal_status(
    reply: &Result<Option<Json>, KubeError>,
    elapsed_secs: u64,
) -> (r: Option<(RunStatus, Option<String>)>)
    ensures
        outcome_view(r) == outcome_of(
            *reply,
            Some("TaskRun disappeared"@),
            "timed out waiting for TaskRun"@,
            elapsed_secs >= TASKRUN_TIMEOUT_SECS,
        ),
{
    let seen = match reply {
        Ok(Some(tr)) => ended(tr),
        Ok(None) => Some((RunStatus::Unknown, Some("TaskRun disappeared".to_owned()))),
        Err(_) => None,
    };
    if seen.is_some() {
        seen
    } else if elapsed_secs >= TASKRUN_TIMEOUT_SECS {
        Some((RunStatus::Unknown, Some("timed out waiting for TaskRun".to_owned())))
    } else {
        None
    }
}

/// How a PipelineRun ended, by the last look at it and the time since the first
/// one. Nothing is said where it has to be looked at again.
pub fn wait_for_pipelinerun_terminal_status(
    reply: &Result<Option<Json>, KubeError>,
    elapsed_secs: u64,
) -> (r: Option<(RunStatus, Option<String>)>)
    ensures
        outcome_view(r) == outcome_of(
            *reply,
            None,
            "PipelineRun condition not finalized yet"@,
            elapsed_secs >= PIPELINERUN_TIMEOUT_SECS,
        ),
{
    let seen = match reply {
        Ok(Some(pr)) => ended(pr),
        Ok(None) => Some((RunStatus::Unknown, None)),
        Err(_) => None,
    };
    if seen.is_some() {
        seen
    } else if elapsed_secs >= PIPELINERUN_TIMEOUT_SECS {
        Some((RunStatus::Unknown, Some("PipelineRun condition not finalized yet".to_owned())))
    } else {
        None
    }
}

/// A task is not given up for its PipelineRun's sake before that has ended: before
/// the condition makes the status a terminal one.
pub proof fn law_run_stops_when_terminal(reply: Result<Option<Json>, KubeError>)
    ensures
        run_stopped(reply) <==> (reply matches Ok(Some(pr)) && status_of(
            condition_status_of(pr@),
            true,
        ).terminal()),
{
}

/// An object that has been waited for is only said to have succeeded or failed
/// where its condition says so; and once the time is up, something is said.
pub proof fn law_outcome_follows_condition(
    reply: Result<Option<Json>, KubeError>,
    gone: Option<Seq<char>>,
    late: Seq<char>,
    too_late: bool,
)
    ensures
        match outcome_of(reply, gone, late, too_late) {
            Some((status, reason)) => status.terminal() ==> (reply matches Ok(Some(obj)) && status
                == status_of(condition_status_of(obj@), true) && reason == condition_reason_of(
                obj@,
            )),
            None => !too_late,
        },
{
}

} // verus!
