use sidekick::db::k8s_client::KubeError;
use sidekick::handlers::run_archive::ArchiveError;
use sidekick::handlers::run_discovery::DiscoverError;
use sidekick::handlers::run_event_stream::{
    choose_run, meta_event, must_arrive, poll_for_task_start, poll_fresh_step_status, refusal_event,
    replay, wait_for_pipelinerun_terminal_status, wait_for_taskrun_terminal_status, Awaited,
    LiveStream, Payload, SseEvent, SseItem, StartPoll, StepPoll, StreamAction, Worker, WorkerEvent,
};
use sidekick::handlers::step_log_stream::WaitResult;
use sidekick::json::{parse, Json};
use sidekick::lookup::Lookup;
use sidekick::models::run_stream::{
    LogLine, RunMeta, RunSource, RunStatus, StepMeta, StreamError, TaskMeta, TaskStatusUpdate,
};

fn step(name: &str, status: RunStatus) -> StepMeta {
    StepMeta {
        name: name.to_string(),
        container: format!("step-{}", name),
        status,
        reason: Some("was".to_string()),
    }
}

fn task(name: &str, taskrun_name: &str, steps: Vec<StepMeta>) -> TaskMeta {
    TaskMeta {
        name: name.to_string(),
        task_ref: None,
        taskrun_name: taskrun_name.to_string(),
        pod_name: None,
        status: RunStatus::Running,
        reason: None,
        steps,
        depends_on: Vec::new(),
    }
}

fn run(status: RunStatus, tasks: Vec<TaskMeta>) -> RunMeta {
    RunMeta {
        run_name: "r".to_string(),
        source: RunSource::Archive,
        pipeline_name: None,
        status,
        reason: Some("why".to_string()),
        tasks,
    }
}

fn kube(code: u16) -> KubeError {
    KubeError { code: Some(code), message: "broken".to_string() }
}

fn doc(text: &str) -> Json {
    parse(text).unwrap()
}

fn told(l: Lookup<(), Result<RunMeta, StreamError>>) -> String {
    match l {
        Lookup::Done(Err(e)) => e.message,
        other => panic!("{:?}", other),
    }
}

#[test]
fn a_live_run_is_preferred() {
    let chosen = choose_run("r", Ok(run(RunStatus::Running, vec![])), None);
    assert!(matches!(chosen, Lookup::Done(Ok(_))));
    assert!(matches!(choose_run("r", Err(DiscoverError::NotFound), None), Lookup::Ask(())));
    let archived = Some(Ok(run(RunStatus::Succeeded, vec![])));
    let chosen = choose_run("r", Err(DiscoverError::NotFound), archived);
    assert!(matches!(chosen, Lookup::Done(Ok(_))));
}

#[test]
fn a_run_that_cannot_be_followed_is_refused() {
    assert_eq!(
        told(choose_run("r", Err(DiscoverError::Kube(kube(500))), None)),
        "error reading PipelineRun from cluster: broken"
    );
    let not_found = || Err(DiscoverError::NotFound);
    assert_eq!(
        told(choose_run("r", not_found(), Some(Ok(run(RunStatus::Running, vec![]))))),
        "PipelineRun 'r' not found live in cluster and is not yet terminal in archive \
         (status: Running). The run may be in a different namespace."
    );
    assert_eq!(
        told(choose_run("r", not_found(), Some(Err(ArchiveError::NotFound)))),
        "PipelineRun 'r' was not found live or in the archive"
    );
    assert_eq!(
        told(choose_run("r", not_found(), Some(Err(ArchiveError::Db("x".to_string()))))),
        "postgres error: x"
    );
    assert_eq!(
        told(choose_run("r", not_found(), Some(Err(ArchiveError::Loki("y".to_string()))))),
        "loki error: y"
    );
}

#[test]
fn the_first_event_is_the_skeleton() {
    let event = meta_event(run(RunStatus::Running, vec![]));
    assert_eq!((event.payload.event_name(), event.id.as_deref()), ("meta", Some("0")));
    let event = refusal_event(StreamError { message: "no".to_string() });
    assert_eq!((event.payload.event_name(), event.id), ("error", None));
}

fn line(text: &str, timestamp: Option<&str>) -> LogLine {
    LogLine {
        task: "t".to_string(),
        step: "s".to_string(),
        line: text.to_string(),
        timestamp: timestamp.map(String::from),
    }
}

fn logged(event: &SseEvent) -> (&str, Option<&str>) {
    match &event.payload {
        Payload::Log(l) => (l.line.as_str(), event.id.as_deref()),
        other => panic!("{:?}", other),
    }
}

#[test]
fn an_archived_run_is_replayed_in_order() {
    let lines = vec![line("b", Some("2")), line("a", None), line("c", Some("10")), line("d", None)];
    let r = replay(&run(RunStatus::Failed, vec![]), Ok(lines));
    let seen: Vec<(&str, Option<&str>)> = r.logs.iter().map(logged).collect();
    assert_eq!(
        seen,
        vec![
            ("a", Some("log-0")),
            ("d", Some("log-1")),
            ("c", Some("log-2")),
            ("b", Some("log-3")),
        ]
    );
    assert_eq!(r.done.id, None);
    match r.done.payload {
        Payload::Done(d) => {
            assert_eq!((d.run_name.as_str(), d.status), ("r", RunStatus::Failed));
            assert_eq!((d.reason.as_deref(), d.duration_seconds), (Some("why"), None));
        }
        other => panic!("{:?}", other),
    }
}

#[test]
fn a_replay_without_logs_still_ends() {
    let r = replay(&run(RunStatus::Succeeded, vec![]), Err(ArchiveError::Loki("x".to_string())));
    assert!(r.logs.is_empty());
    assert_eq!(r.done.payload.event_name(), "done");
}

fn emitted(action: StreamAction) -> (&'static str, Option<String>) {
    match action {
        StreamAction::Emit(e) => (e.payload.event_name(), e.id),
        other => panic!("{:?}", other),
    }
}

fn task_status(status: RunStatus) -> SseItem {
    SseItem::TaskStatus(TaskStatusUpdate { task: "t".to_string(), status, reason: None })
}

fn ended(event: Option<SseEvent>) -> (RunStatus, Option<String>, Option<i64>) {
    match event.map(|e| e.payload) {
        Some(Payload::Done(d)) => (d.status, d.reason, d.duration_seconds),
        other => panic!("{:?}", other),
    }
}

#[test]
fn items_are_numbered_and_tasks_counted() {
    let tasks = vec![task("a", "x", vec![]), task("b", "y", vec![])];
    let mut stream = LiveStream::new(&run(RunStatus::Running, tasks));
    assert!(stream.is_waiting());
    assert_eq!(
        emitted(stream.take(Some(SseItem::Log(line("l", None))))),
        ("log", Some("2".to_string()))
    );
    assert!(matches!(stream.take(Some(SseItem::TaskDone)), StreamAction::Quiet));
    assert_eq!(
        emitted(stream.take(Some(task_status(RunStatus::Succeeded)))),
        ("task-status", Some("4".to_string()))
    );
    let error = SseItem::Error(StreamError { message: "m".to_string() });
    assert_eq!(emitted(stream.take(Some(error))), ("error", Some("5".to_string())));
    assert!(stream.is_waiting());
    assert!(matches!(stream.take(Some(SseItem::TaskDone)), StreamAction::Quiet));
    assert!(!stream.is_waiting());
    assert!(stream.needs_outcome());
    let outcome = Some((RunStatus::Succeeded, Some("Completed".to_string())));
    assert_eq!(
        ended(stream.done(outcome, 12)),
        (RunStatus::Succeeded, Some("Completed".to_string()), Some(12))
    );
    assert!(stream.done(None, 12).is_none());
}

#[test]
fn a_failed_task_fails_the_run() {
    let mut stream = LiveStream::new(&run(RunStatus::Running, vec![task("a", "x", vec![])]));
    stream.take(Some(task_status(RunStatus::Failed)));
    stream.take(Some(SseItem::TaskDone));
    assert!(!stream.needs_outcome());
    let outcome = Some((RunStatus::Succeeded, Some("Completed".to_string())));
    assert_eq!(ended(stream.done(outcome, 3)), (RunStatus::Failed, None, Some(3)));
    assert_eq!(ended(stream.done(None, 3)), (RunStatus::Failed, None, Some(3)));
}

#[test]
fn a_stream_that_loses_its_workers_stops() {
    let mut stream = LiveStream::new(&run(RunStatus::Running, vec![task("a", "x", vec![])]));
    assert!(matches!(stream.take(None), StreamAction::Stop));
    assert!(stream.is_waiting());
}

fn shown(items: Vec<SseItem>) -> Vec<String> {
    items
        .into_iter()
        .map(|i| match i {
            SseItem::Log(l) => format!("log {}/{} {} {:?}", l.task, l.step, l.line, l.timestamp),
            SseItem::StepStatus(u) => {
                format!("step {}/{} {:?} {:?}", u.task, u.step, u.status, u.reason)
            }
            SseItem::TaskStatus(u) => format!("task {} {:?} {:?}", u.task, u.status, u.reason),
            SseItem::Error(e) => format!("error {}", e.message),
            SseItem::TaskDone => "done".to_string(),
        })
        .collect()
}

#[test]
fn a_worker_follows_one_step_after_the_other() {
    let steps = vec![
        step("one", RunStatus::Pending),
        step("two", RunStatus::Pending),
        step("three", RunStatus::Succeeded),
        step("four", RunStatus::Running),
    ];
    let mut w = Worker::new(task("t", "tr", steps));
    match w.awaits() {
        Awaited::Container { pod, container } => {
            assert_eq!((pod.as_str(), container.as_str()), ("tr-pod", "step-one"))
        }
        other => panic!("{:?}", other),
    }
    assert!(shown(w.take(WorkerEvent::Waited(WaitResult::Ready))).is_empty());
    assert!(matches!(w.awaits(), Awaited::Line { already_terminated: false, .. }));
    assert_eq!(
        shown(w.take(WorkerEvent::Line(Some("ts".to_string()), "hello".to_string()))),
        vec!["log t/one hello Some(\"ts\")"]
    );
    assert!(shown(w.take(WorkerEvent::LogEnd)).is_empty());
    match w.awaits() {
        Awaited::Step { taskrun, step } => {
            assert_eq!((taskrun.as_str(), step.as_str()), ("tr", "one"))
        }
        other => panic!("{:?}", other),
    }
    let fresh = StepMeta { reason: None, ..step("one", RunStatus::Failed) };
    assert_eq!(shown(w.take(WorkerEvent::Fresh(Some(fresh)))), vec!["step t/one Failed None"]);
    assert_eq!(
        shown(w.take(WorkerEvent::Waited(WaitResult::TimedOut))),
        vec!["error timed out waiting for t/two to start"]
    );
    assert!(matches!(w.awaits(), Awaited::Line { already_terminated: true, .. }));
    w.take(WorkerEvent::LogEnd);
    assert_eq!(
        shown(w.take(WorkerEvent::Fresh(None))),
        vec!["step t/three Succeeded Some(\"was\")"]
    );
    assert!(matches!(w.awaits(), Awaited::Line { already_terminated: false, .. }));
    w.take(WorkerEvent::LogEnd);
    w.take(WorkerEvent::Fresh(None));
    assert!(matches!(w.awaits(), Awaited::End { taskrun } if taskrun == "tr"));
    assert_eq!(
        shown(w.take(WorkerEvent::Ended(RunStatus::Succeeded, None))),
        vec!["task t Succeeded None", "done"]
    );
    assert!(matches!(w.awaits(), Awaited::Nothing));
    assert!(shown(w.take(WorkerEvent::Ended(RunStatus::Succeeded, None))).is_empty());
}

#[test]
fn a_container_that_is_over_is_not_followed() {
    let mut w = Worker::new(task("t", "tr", vec![step("one", RunStatus::Pending)]));
    w.take(WorkerEvent::Waited(WaitResult::AlreadyTerminated));
    assert!(matches!(w.awaits(), Awaited::Line { already_terminated: true, .. }));
}

#[test]
fn a_worker_waits_for_its_task_to_start() {
    let waiting = || Worker::new(task("t", "", vec![]));
    let mut w = waiting();
    assert!(matches!(w.awaits(), Awaited::Start { task } if task == "t"));
    let started = TaskMeta {
        pod_name: Some("pod".to_string()),
        ..task("t", "tr", vec![step("one", RunStatus::Pending)])
    };
    assert!(shown(w.take(WorkerEvent::Started(Some(started)))).is_empty());
    assert!(matches!(w.awaits(), Awaited::Container { pod, .. } if pod == "pod"));
    let mut w = waiting();
    assert_eq!(
        shown(w.take(WorkerEvent::Started(None))),
        vec!["task t Pending Some(\"task never started\")", "done"]
    );
    let mut w = waiting();
    assert_eq!(shown(w.take(WorkerEvent::Shutdown)), vec!["done"]);
}

#[test]
fn a_shutdown_lets_a_log_end_with_its_status() {
    let mut w = Worker::new(task("t", "tr", vec![step("one", RunStatus::Running)]));
    assert!(shown(w.take(WorkerEvent::Shutdown)).is_empty());
    assert!(matches!(w.awaits(), Awaited::Step { .. }));
    assert_eq!(w.take(WorkerEvent::Fresh(None)).len(), 1);
    assert_eq!(shown(w.take(WorkerEvent::Shutdown)), vec!["done"]);
    let mut w = Worker::new(task("t", "tr", vec![step("one", RunStatus::Pending)]));
    assert_eq!(shown(w.take(WorkerEvent::Shutdown)), vec!["done"]);
}

#[test]
fn a_worker_that_nobody_hears_stops_in_silence() {
    let mut w = Worker::new(task("t", "tr", vec![step("one", RunStatus::Running)]));
    assert!(shown(w.take(WorkerEvent::Gone)).is_empty());
    assert!(matches!(w.awaits(), Awaited::Nothing));
    assert!(must_arrive(&SseItem::Log(line("l", None))));
    assert!(!must_arrive(&SseItem::TaskDone));
    assert!(!must_arrive(&task_status(RunStatus::Failed)));
}

fn condition(status: &str) -> Json {
    doc(&format!(
        r#"{{"status": {{"conditions": [{{"status": "{}", "reason": "R"}}]}}}}"#,
        status
    ))
}

#[test]
fn a_task_has_started_when_it_has_a_step_or_is_over() {
    let with_step = Ok(Some(task("t", "tr", vec![step("one", RunStatus::Pending)])));
    let started = poll_for_task_start(0, &with_step, &None, 0);
    assert!(matches!(started, Lookup::Done(StartPoll::Started(t)) if t.steps.len() == 1));
    let over = Ok(Some(TaskMeta { status: RunStatus::Failed, ..task("t", "tr", vec![]) }));
    let started = poll_for_task_start(0, &over, &None, 20000);
    assert!(matches!(started, Lookup::Done(StartPoll::Started(_))));
}

#[test]
fn the_run_is_looked_at_now_and_then() {
    let nothing = Ok(None);
    let failed = Err(DiscoverError::Kube(kube(500)));
    let bare = Ok(Some(task("t", "tr", vec![])));
    for refreshed in [&nothing, &failed, &bare] {
        assert!(matches!(poll_for_task_start(15, refreshed, &None, 0), Lookup::Ask(())));
        let again = poll_for_task_start(1, refreshed, &None, 14399);
        assert!(matches!(again, Lookup::Done(StartPoll::Again(2))));
    }
    for (reply, never) in [
        (Ok(Some(condition("Unknown"))), false),
        (Ok(Some(condition("True"))), true),
        (Ok(Some(condition("False"))), true),
        (Ok(Some(doc("{}"))), false),
        (Ok(Some(doc(r#"{"status": {"conditions": []}}"#))), false),
        (Ok(None), false),
        (Err(kube(500)), false),
    ] {
        match poll_for_task_start(30, &nothing, &Some(reply), 0) {
            Lookup::Done(StartPoll::Never) => assert!(never),
            Lookup::Done(StartPoll::Again(i)) => assert!(!never && i == 31),
            other => panic!("{:?}", other),
        }
    }
    let late = poll_for_task_start(1, &nothing, &None, 14400);
    assert!(matches!(late, Lookup::Done(StartPoll::Never)));
}

#[test]
fn a_steps_status_is_asked_for_five_times() {
    let over = Some(step("s", RunStatus::Succeeded));
    assert!(matches!(poll_fresh_step_status(0, over), StepPoll::Known(_)));
    let running = || Some(step("s", RunStatus::Running));
    assert!(matches!(poll_fresh_step_status(3, running()), StepPoll::Again(4)));
    assert!(matches!(poll_fresh_step_status(4, running()), StepPoll::Known(_)));
    assert!(matches!(poll_fresh_step_status(0, None), StepPoll::Again(1)));
    assert!(matches!(poll_fresh_step_status(4, None), StepPoll::Unknown));
}

#[test]
fn a_taskrun_ends_as_its_condition_says() {
    let r = Some("R".to_string());
    let wait = |reply, secs| wait_for_taskrun_terminal_status(&reply, secs);
    assert_eq!(wait(Ok(Some(condition("True"))), 0), Some((RunStatus::Succeeded, r.clone())));
    assert_eq!(wait(Ok(Some(condition("False"))), 700), Some((RunStatus::Failed, r)));
    assert_eq!(wait(Ok(Some(condition("Unknown"))), 599), None);
    assert_eq!(wait(Err(kube(500)), 599), None);
    assert_eq!(
        wait(Ok(None), 0),
        Some((RunStatus::Unknown, Some("TaskRun disappeared".to_string())))
    );
    let late = Some((RunStatus::Unknown, Some("timed out waiting for TaskRun".to_string())));
    assert_eq!(wait(Ok(Some(doc("{}"))), 600), late);
    assert_eq!(wait(Err(kube(500)), 600), late);
}

#[test]
fn a_pipelinerun_is_not_waited_for_long() {
    let r = Some("R".to_string());
    let wait = |reply, secs| wait_for_pipelinerun_terminal_status(&reply, secs);
    assert_eq!(wait(Ok(Some(condition("True"))), 0), Some((RunStatus::Succeeded, r)));
    assert_eq!(wait(Ok(None), 0), Some((RunStatus::Unknown, None)));
    assert_eq!(wait(Ok(Some(condition("Unknown"))), 29), None);
    assert_eq!(
        wait(Ok(Some(condition("Unknown"))), 30),
        Some((
            RunStatus::Unknown,
            Some("PipelineRun condition not finalized yet".to_string())
        ))
    );
}
