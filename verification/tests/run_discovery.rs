use sidekick::db::k8s_client::KubeError;
use sidekick::handlers::run_discovery::{
    discover_live_run, found, plan_run, pod_name_for_taskrun, refresh_step_status, refresh_task,
    steps_from_taskrun_status, DiscoverError,
};
use sidekick::json::{parse, Json};
use sidekick::lookup::Lookup;
use sidekick::models::run_stream::{RunMeta, RunSource, RunStatus, TaskMeta};

fn doc(text: &str) -> Json {
    parse(text).unwrap()
}

fn error(code: u16) -> KubeError {
    KubeError { code: Some(code), message: format!("code {}", code) }
}

const RUN: &str = r#"{
    "spec": {"pipelineRef": {"name": "ci"}},
    "status": {
        "startTime": "t",
        "conditions": [{"status": "Unknown", "reason": "Running"}],
        "pipelineSpec": {"tasks": [
            {"name": "fetch", "taskRef": {"name": "git-clone"}},
            {"name": "test", "taskRef": {"name": "unit"}, "runAfter": ["fetch", 3]},
            {"noname": 1}
        ]},
        "childReferences": [
            {"pipelineTaskName": "late", "name": "run-late"},
            {"pipelineTaskName": "fetch", "name": "run-fetch"},
            {"pipelineTaskName": "late", "name": "run-late-2"},
            {"name": "nobody"}
        ]
    }
}"#;

const FETCHED: &str = r#"{
    "status": {
        "startTime": "t",
        "podName": "the-pod",
        "conditions": [{"status": "True", "reason": "Succeeded"}],
        "steps": [
            {"name": "clone", "container": "step-clone", "terminated": {"exitCode": 0, "reason": "Completed"}},
            {"name": "push", "terminated": {"exitCode": 1, "reason": "Error"}},
            {"terminated": {"reason": "Odd"}},
            {"name": "run", "running": {}},
            {"name": "wait", "waiting": {"reason": "PodInitializing"}},
            {"name": "new"}
        ]
    }
}"#;

fn names(tasks: &Vec<TaskMeta>) -> Vec<&str> {
    tasks.iter().map(|t| t.name.as_str()).collect()
}

fn whole(run_name: &str, pr: &Json, replies: &Vec<Result<Option<Json>, KubeError>>) -> RunMeta {
    match discover_live_run(run_name, pr, replies) {
        Lookup::Done(Ok(run)) => run,
        other => panic!("{:?}", other),
    }
}

#[test]
fn steps_follow_their_containers() {
    let tr = doc(FETCHED);
    let steps = steps_from_taskrun_status(tr.get("status").unwrap());
    let seen: Vec<(&str, &str, RunStatus, Option<&str>)> = steps
        .iter()
        .map(|s| (s.name.as_str(), s.container.as_str(), s.status, s.reason.as_deref()))
        .collect();
    assert_eq!(
        seen,
        vec![
            ("clone", "step-clone", RunStatus::Succeeded, Some("Completed")),
            ("push", "step-push", RunStatus::Failed, Some("Error")),
            ("unknown", "step-unknown", RunStatus::Failed, Some("Odd")),
            ("run", "step-run", RunStatus::Running, None),
            ("wait", "step-wait", RunStatus::Pending, Some("PodInitializing")),
            ("new", "step-new", RunStatus::Pending, None),
        ]
    );
    assert!(steps_from_taskrun_status(&doc("{}")).is_empty());
}

#[test]
fn the_pod_is_named_by_convention_until_it_is_recorded() {
    assert_eq!(pod_name_for_taskrun(&doc(r#"{"podName": "p"}"#), "tr"), "p");
    assert_eq!(pod_name_for_taskrun(&doc("{}"), "tr"), "tr-pod");
}

#[test]
fn declared_tasks_come_first_and_no_child_is_dropped() {
    let plan = plan_run(&doc(RUN));
    let tasks: Vec<&str> = plan.tasks.iter().map(|t| t.name.as_str()).collect();
    assert_eq!(tasks, vec!["fetch", "test", "late"]);
    assert_eq!(plan.tasks[0].taskrun_name.as_deref(), Some("run-fetch"));
    assert_eq!(plan.tasks[1].taskrun_name, None);
    assert_eq!(plan.tasks[1].depends_on, vec!["fetch"]);
    assert_eq!(plan.tasks[2].taskrun_name.as_deref(), Some("run-late"));
    assert_eq!(plan.tasks[2].task_ref, None);
    assert_eq!(plan.pipeline_name.as_deref(), Some("ci"));
    assert_eq!(plan.status, RunStatus::Running);
    assert_eq!(plan.reason.as_deref(), Some("Running"));
}

#[test]
fn the_old_map_is_used_where_there_are_no_child_references() {
    let pr = doc(
        r#"{"status": {"childReferences": [], "taskRuns": {
            "run-b": {"pipelineTaskName": "b"},
            "run-a": {"pipelineTaskName": "a"},
            "run-c": {}
        }}}"#,
    );
    let plan = plan_run(&pr);
    let tasks: Vec<(&str, Option<&str>)> =
        plan.tasks.iter().map(|t| (t.name.as_str(), t.taskrun_name.as_deref())).collect();
    assert_eq!(tasks, vec![("a", Some("run-a")), ("b", Some("run-b"))]);
}

#[test]
fn taskruns_are_read_in_the_order_of_the_tasks() {
    let pr = doc(RUN);
    let mut replies = Vec::new();
    assert!(matches!(discover_live_run("r", &pr, &replies), Lookup::Ask(n) if n == "run-fetch"));
    replies.push(Ok(Some(doc(FETCHED))));
    assert!(matches!(discover_live_run("r", &pr, &replies), Lookup::Ask(n) if n == "run-late"));
    replies.push(Ok(None));
    let run = whole("r", &pr, &replies);
    assert_eq!(run.run_name, "r");
    assert_eq!(run.source, RunSource::Tekton);
    assert_eq!(run.pipeline_name.as_deref(), Some("ci"));
    assert_eq!(run.status, RunStatus::Running);
    assert_eq!(names(&run.tasks), vec!["fetch", "test", "late"]);
    let fetch = &run.tasks[0];
    assert_eq!(fetch.task_ref.as_deref(), Some("git-clone"));
    assert_eq!(fetch.taskrun_name, "run-fetch");
    assert_eq!(fetch.pod_name.as_deref(), Some("the-pod"));
    assert_eq!(fetch.status, RunStatus::Succeeded);
    assert_eq!(fetch.reason.as_deref(), Some("Succeeded"));
    assert_eq!(fetch.steps.len(), 6);
    let test = &run.tasks[1];
    assert_eq!((test.taskrun_name.as_str(), test.pod_name.as_deref()), ("", None));
    assert_eq!(test.status, RunStatus::Pending);
    assert!(test.steps.is_empty());
    let late = &run.tasks[2];
    assert_eq!((late.taskrun_name.as_str(), late.pod_name.as_deref()), ("run-late", None));
    assert_eq!(late.status, RunStatus::Pending);
}

#[test]
fn a_failed_read_fails_the_discovery() {
    let pr = doc(RUN);
    let replies = vec![Err(error(500))];
    match discover_live_run("r", &pr, &replies) {
        Lookup::Done(Err(DiscoverError::Kube(e))) => assert_eq!(e.message, "code 500"),
        other => panic!("{:?}", other),
    }
}

#[test]
fn a_run_without_a_status_is_pending() {
    let run = whole("r", &doc("{}"), &Vec::new());
    assert_eq!(run.status, RunStatus::Pending);
    assert_eq!((run.pipeline_name, run.reason), (None, None));
    assert!(run.tasks.is_empty());
}

#[test]
fn a_missing_pipelinerun_is_not_found() {
    assert!(matches!(found(Ok(None)), Err(DiscoverError::NotFound)));
    assert!(matches!(found(Err(error(500))), Err(DiscoverError::Kube(_))));
    assert_eq!(found(Ok(Some(doc("[1]")))).unwrap(), doc("[1]"));
    assert!(matches!(DiscoverError::from(error(500)), DiscoverError::Kube(_)));
}

#[test]
fn a_step_is_refreshed_by_name() {
    let reply = Ok(Some(doc(FETCHED)));
    let step = refresh_step_status(&reply, "push").unwrap();
    assert_eq!((step.status, step.reason.as_deref()), (RunStatus::Failed, Some("Error")));
    assert!(refresh_step_status(&reply, "other").is_none());
    assert!(refresh_step_status(&Ok(None), "push").is_none());
    assert!(refresh_step_status(&Err(error(500)), "push").is_none());
}

#[test]
fn a_task_is_refreshed_as_it_was_discovered() {
    let pr = Ok(Some(doc(RUN)));
    match refresh_task(&pr, "fetch", &None) {
        Lookup::Ask(name) => assert_eq!(name, "run-fetch"),
        other => panic!("{:?}", other),
    }
    let refreshed = match refresh_task(&pr, "fetch", &Some(Ok(Some(doc(FETCHED))))) {
        Lookup::Done(Ok(Some(task))) => task,
        other => panic!("{:?}", other),
    };
    let run = whole("r", &doc(RUN), &vec![Ok(Some(doc(FETCHED))), Ok(None)]);
    assert_eq!(format!("{:?}", refreshed), format!("{:?}", run.tasks[0]));
}

#[test]
fn a_task_without_a_taskrun_has_not_started() {
    let pr = Ok(Some(doc(RUN)));
    assert!(matches!(refresh_task(&pr, "test", &None), Lookup::Done(Ok(None))));
    assert!(matches!(refresh_task(&pr, "fetch", &Some(Ok(None))), Lookup::Done(Ok(None))));
    assert!(matches!(refresh_task(&Ok(None), "fetch", &None), Lookup::Done(Ok(None))));
    let failed = refresh_task(&pr, "fetch", &Some(Err(error(500))));
    assert!(matches!(failed, Lookup::Done(Err(DiscoverError::Kube(_)))));
    let failed = refresh_task(&Err(error(500)), "fetch", &None);
    assert!(matches!(failed, Lookup::Done(Err(DiscoverError::Kube(_)))));
}
