use sidekick::handlers::run_archive::{
    cond_status_reason, customrun_names, fetch_archived_logs_for_run, fetch_archived_logs_raw,
    fetch_archived_meta, fetch_pg_records, is_proxy_taskrun, log_window, loki_query, loki_refusal,
    loki_refused, loki_unreadable, loki_url, parse_rows, run_record, steps_from_archived_taskrun,
    ArchiveError, LokiStream, PgQuery, QueryKind, RunRow, MAX_SPAN_NS,
};
use sidekick::handlers::run_discovery::plan_run;
use sidekick::json::{parse, Json};
use sidekick::lookup::Lookup;
use sidekick::models::run_stream::{LogLine, RunSource, RunStatus};

fn doc(text: &str) -> Json {
    parse(text).unwrap()
}

fn taskrun(name: &str, created: &str) -> Json {
    doc(&format!(
        r#"{{"metadata": {{"name": "{}", "creationTimestamp": "{}"}}}}"#,
        name, created
    ))
}

fn name(doc: &Json) -> Json {
    doc.get("metadata").unwrap().get("name").unwrap().copy()
}

fn names(docs: &Vec<Json>) -> Vec<Json> {
    docs.iter().map(name).collect()
}

fn text(s: &str) -> Json {
    Json::Text(s.to_string())
}

fn asked(l: Lookup<PgQuery, Result<Vec<Json>, ArchiveError>>) -> (QueryKind, String) {
    match l {
        Lookup::Ask(q) => (q.kind, q.param),
        other => panic!("{:?}", other),
    }
}

fn done(l: Lookup<PgQuery, Result<Vec<Json>, ArchiveError>>) -> Vec<Json> {
    match l {
        Lookup::Done(Ok(docs)) => docs,
        other => panic!("{:?}", other),
    }
}

const RUN: &str = r#"{
    "spec": {"pipelineRef": {"name": "ci"}},
    "status": {
        "conditions": [{"status": "False", "reason": "Failed"}],
        "pipelineSpec": {"tasks": [
            {"name": "build", "runAfter": ["fetch"]},
            {"name": "remote", "runAfter": ["build"]}
        ]},
        "childReferences": [
            {"kind": "TaskRun", "name": "tr", "pipelineTaskName": "build"},
            {"kind": "CustomRun", "name": "cr-1", "pipelineTaskName": "remote"},
            {"kind": "CustomRun", "name": "cr-2"},
            {"name": "cr-3", "pipelineTaskName": "x"}
        ]
    }
}"#;

#[test]
fn errors_say_where_they_come_from() {
    assert_eq!(ArchiveError::NotFound.message(), "run not found in archive");
    assert_eq!(ArchiveError::Db("x".to_string()).message(), "postgres error: x");
    assert_eq!(ArchiveError::Loki("y".to_string()).message(), "loki error: y");
}

#[test]
fn the_window_reaches_five_minutes_beyond_the_run() {
    let second: i128 = 1_000_000_000;
    assert_eq!(
        log_window(1_000 * second, 2_000 * second),
        (700_000_000_000, 2_300_000_000_000)
    );
    assert_eq!(log_window(299 * second, 0), (0, 300_000_000_000));
    assert_eq!(log_window(-5, -5), (0, 300_000_000_000));
    let max = MAX_SPAN_NS as i128;
    assert_eq!(log_window(0, max), (0, MAX_SPAN_NS));
    assert_eq!(log_window(0, max - 300 * second), (0, MAX_SPAN_NS));
    assert_eq!(log_window(0, max - 300 * second + 1), (0, MAX_SPAN_NS - 299_999_999_999));
    assert_eq!(MAX_SPAN_NS, std::time::Duration::MAX.as_nanos());
}

#[test]
fn a_run_record_is_parsed() {
    let row = |data: &str| RunRow {
        data: data.to_string(),
        created_ns: 1_000_000_000_000,
        updated_ns: 1_000_000_000_000,
    };
    let record = run_record(Ok(Some(row(r#"{"a": 1}"#)))).unwrap();
    assert_eq!(record.pr, doc(r#"{"a": 1}"#));
    assert_eq!((record.start_ns, record.end_ns), (700_000_000_000, 1_300_000_000_000));
    let expected = format!(
        "bad JSON in records.data: {}",
        serde_json::from_str::<serde_json::Value>("{").unwrap_err()
    );
    match run_record(Ok(Some(row("{")))) {
        Err(ArchiveError::Db(m)) => assert_eq!(m, expected),
        other => panic!("{:?}", other),
    }
    assert!(matches!(run_record(Ok(None)), Err(ArchiveError::NotFound)));
    match run_record(Err("down".to_string())) {
        Err(ArchiveError::Db(m)) => assert_eq!(m, "down"),
        other => panic!("{:?}", other),
    }
}

#[test]
fn rows_that_are_no_documents_are_left_out() {
    let rows = vec!["1".to_string(), "{".to_string(), "\"x\"".to_string()];
    assert_eq!(parse_rows(&rows), vec![Json::Number(Some(1)), text("x")]);
}

#[test]
fn queries_are_told_apart() {
    let kinds = [
        (QueryKind::Run, "data->'metadata'->>'name' = $1 ORDER BY created_time DESC LIMIT 1"),
        (QueryKind::TaskRuns, "'tekton.dev/pipelineRun' = $1 ORDER BY created_time ASC"),
        (QueryKind::TaskRunNamed, "data->'metadata'->>'name' = $1 ORDER BY created_time DESC LIMIT 1"),
        (QueryKind::TaskRunOfCustomRun, "'remotetask-customrun' = $1 ORDER BY created_time DESC LIMIT 1"),
    ];
    for (kind, tail) in kinds {
        assert!(kind.sql().starts_with("SELECT "), "{:?}", kind);
        assert!(kind.sql().ends_with(tail), "{:?}", kind);
    }
    assert!(QueryKind::Run.sql().contains("type = 'tekton.dev/v1.PipelineRun'"));
    assert!(QueryKind::TaskRunNamed.sql().contains("type = 'tekton.dev/v1.TaskRun'"));
}

#[test]
fn customruns_are_found_among_the_children() {
    assert_eq!(customrun_names(&doc(RUN)), vec!["cr-1", "cr-2"]);
    assert!(customrun_names(&doc("{}")).is_empty());
}

#[test]
fn without_customruns_one_query_is_enough() {
    let pr = doc("{}");
    assert_eq!(
        asked(fetch_pg_records("r", &pr, &vec![])),
        (QueryKind::TaskRuns, "r".to_string())
    );
    let replies = vec![Ok(vec![taskrun("b", "2"), taskrun("a", "1")])];
    let docs = done(fetch_pg_records("r", &pr, &replies));
    assert_eq!(names(&docs), vec![text("b"), text("a")]);
}

#[test]
fn the_taskrun_of_a_customrun_is_searched_by_name_and_then_by_label() {
    let pr = doc(RUN);
    let mut replies = vec![Ok(vec![taskrun("tr", "3")])];
    assert_eq!(
        asked(fetch_pg_records("r", &pr, &replies)),
        (QueryKind::TaskRunNamed, "cr-1-exec".to_string())
    );
    replies.push(Ok(vec![taskrun("cr-1-exec", "1")]));
    assert_eq!(
        asked(fetch_pg_records("r", &pr, &replies)),
        (QueryKind::TaskRunNamed, "cr-2-exec".to_string())
    );
    replies.push(Ok(vec![]));
    assert_eq!(
        asked(fetch_pg_records("r", &pr, &replies)),
        (QueryKind::TaskRunOfCustomRun, "cr-2".to_string())
    );
    replies.push(Ok(vec![taskrun("tr", "0"), taskrun("odd", "2")]));
    let docs = done(fetch_pg_records("r", &pr, &replies));
    assert_eq!(names(&docs), vec![text("cr-1-exec"), text("odd"), text("tr")]);
}

#[test]
fn what_was_found_is_not_searched_again() {
    let pr = doc(RUN);
    let first = vec![taskrun("cr-2-exec", "1"), taskrun("cr-1-exec", "2")];
    let docs = done(fetch_pg_records("r", &pr, &vec![Ok(first)]));
    assert_eq!(names(&docs), vec![text("cr-2-exec"), text("cr-1-exec")]);
}

#[test]
fn records_without_a_creation_time_come_first() {
    let pr = doc(r#"{"status": {"childReferences": [{"kind": "CustomRun", "name": "c"}]}}"#);
    let replies = vec![
        Ok(vec![taskrun("a", "1"), doc(r#"{"metadata": {"name": "z"}}"#)]),
        Ok(vec![taskrun("c-exec", "0")]),
    ];
    let docs = done(fetch_pg_records("r", &pr, &replies));
    assert_eq!(names(&docs), vec![text("z"), text("c-exec"), text("a")]);
}

#[test]
fn a_failed_query_ends_the_search() {
    let pr = doc(RUN);
    let failing = vec![
        vec![Err("e0".to_string())],
        vec![Ok(vec![]), Err("e1".to_string())],
        vec![Ok(vec![]), Ok(vec![]), Err("e2".to_string())],
    ];
    for (i, replies) in failing.iter().enumerate() {
        match fetch_pg_records("r", &pr, replies) {
            Lookup::Done(Err(ArchiveError::Db(m))) => assert_eq!(m, format!("e{}", i)),
            other => panic!("{:?}", other),
        }
    }
}

#[test]
fn archived_steps_are_over_or_unknown() {
    let tr = doc(
        r#"{"status": {"steps": [
            {"name": "a", "container": "c", "terminated": {"exitCode": 0, "reason": "Completed"}},
            {"name": "b", "terminated": {"exitCode": 2}},
            {"running": {}}
        ]}}"#,
    );
    let steps = steps_from_archived_taskrun(&tr);
    let seen: Vec<(&str, &str, RunStatus, Option<&str>)> = steps
        .iter()
        .map(|s| (s.name.as_str(), s.container.as_str(), s.status, s.reason.as_deref()))
        .collect();
    assert_eq!(
        seen,
        vec![
            ("a", "c", RunStatus::Succeeded, Some("Completed")),
            ("b", "step-b", RunStatus::Failed, None),
            ("unknown", "step-unknown", RunStatus::Unknown, None),
        ]
    );
}

#[test]
fn an_archived_run_is_put_together() {
    let taskruns = vec![
        doc(
            r#"{"metadata": {"name": "tr", "labels": {"tekton.dev/pipelineTask": "build"}},
                "spec": {"taskRef": {"name": "make"}},
                "status": {"podName": "pod", "conditions": [{"status": "True", "reason": "Ok"}],
                           "steps": [{"name": "s"}]}}"#,
        ),
        doc(r#"{"metadata": {"name": "cr-1-exec", "labels": {"remotetask-customrun": "cr-1"}}}"#),
        doc(r#"{"metadata": {"name": "cr-2-exec", "labels": {"remotetask-customrun": "cr-2"}}}"#),
        doc("{}"),
    ];
    let run = fetch_archived_meta("r", &doc(RUN), &taskruns);
    assert_eq!((run.run_name.as_str(), run.source), ("r", RunSource::Archive));
    assert_eq!(run.pipeline_name.as_deref(), Some("ci"));
    assert_eq!((run.status, run.reason.as_deref()), (RunStatus::Failed, Some("Failed")));
    let seen: Vec<(&str, &str, Option<&str>, RunStatus)> = run
        .tasks
        .iter()
        .map(|t| (t.name.as_str(), t.taskrun_name.as_str(), t.pod_name.as_deref(), t.status))
        .collect();
    assert_eq!(
        seen,
        vec![
            ("build", "tr", Some("pod"), RunStatus::Succeeded),
            ("remote", "cr-1-exec", Some("cr-1-exec-pod"), RunStatus::Unknown),
            ("cr-2-exec", "cr-2-exec", Some("cr-2-exec-pod"), RunStatus::Unknown),
            (
                "unknown-taskrun",
                "unknown-taskrun",
                Some("unknown-taskrun-pod"),
                RunStatus::Unknown
            ),
        ]
    );
    assert_eq!(run.tasks[0].task_ref.as_deref(), Some("make"));
    assert_eq!(run.tasks[0].depends_on, vec!["fetch"]);
    assert_eq!(run.tasks[0].steps.len(), 1);
    assert_eq!(run.tasks[1].depends_on, vec!["build"]);
    assert!(run.tasks[2].depends_on.is_empty());
    assert_eq!(cond_status_reason(&taskruns[0]), (Some("True".to_string()), Some("Ok".to_string())));
}

#[test]
fn the_last_declaration_counts_in_the_archive() {
    let pr = doc(
        r#"{"status": {"pipelineSpec": {"tasks": [
            {"name": "a", "runAfter": ["x"]}, {"name": "a", "runAfter": ["y"]}
        ]}, "childReferences": [
            {"kind": "CustomRun", "name": "c", "pipelineTaskName": "b"},
            {"kind": "CustomRun", "name": "c", "pipelineTaskName": "a"}
        ]}}"#,
    );
    let taskruns = vec![doc(r#"{"metadata": {"labels": {"remotetask-customrun": "c"}}}"#)];
    let run = fetch_archived_meta("r", &pr, &taskruns);
    assert_eq!(run.tasks[0].name, "a");
    assert_eq!(run.tasks[0].depends_on, vec!["y"]);
}

#[test]
fn loki_is_asked_for_the_run() {
    assert_eq!(loki_url(), "http://loki.logging.svc.cluster.local:3100/loki/api/v1/query_range");
    let pair = |k: &str, v: &str| (k.to_string(), v.to_string());
    assert_eq!(
        loki_query("my-run", 7, 18_446_744_073_709_551_616),
        vec![
            pair("query", "{pipelinerun=\"my-run\"}"),
            pair("limit", "5000"),
            pair("start", "7"),
            pair("end", "18446744073709551616"),
            pair("direction", "forward"),
        ]
    );
}

#[test]
fn a_refusal_of_loki_is_passed_on() {
    for code in [200, 204, 299] {
        assert!(loki_refusal(code).is_none());
    }
    for (code, line) in [
        (404, "404 Not Found"),
        (100, "100 Continue"),
        (300, "300 Multiple Choices"),
        (999, "999 <unknown status code>"),
    ] {
        match loki_refusal(code) {
            Some(ArchiveError::Loki(m)) => assert_eq!(m, format!("loki returned HTTP {}", line)),
            other => panic!("{:?}", other),
        }
    }
    match loki_refused("x".to_string()) {
        ArchiveError::Loki(m) => assert_eq!(m, "loki returned HTTP x"),
        other => panic!("{:?}", other),
    }
    match loki_unreadable("eof") {
        ArchiveError::Loki(m) => assert_eq!(m, "bad JSON from loki: eof"),
        other => panic!("{:?}", other),
    }
}

fn stream(labels: &[(&str, &str)], values: &[(&str, &str)]) -> LokiStream {
    let own = |pairs: &[(&str, &str)]| {
        pairs.iter().map(|(a, b)| (a.to_string(), b.to_string())).collect()
    };
    LokiStream { labels: own(labels), values: own(values) }
}

fn seen(lines: &Vec<LogLine>) -> Vec<(&str, &str, &str, Option<&str>)> {
    lines
        .iter()
        .map(|l| (l.task.as_str(), l.step.as_str(), l.line.as_str(), l.timestamp.as_deref()))
        .collect()
}

#[test]
fn streams_become_lines() {
    let lines = fetch_archived_logs_raw(vec![
        stream(
            &[("container", "step-step-b"), ("task", "t")],
            &[("20", " ten%\rdone \n"), ("21", "   "), ("22", "x\r")],
        ),
        stream(&[], &[("10", "first")]),
        stream(&[("task", "empty")], &[]),
    ]);
    assert_eq!(
        seen(&lines),
        vec![("unknown", "unknown", "first", Some("10")), ("t", "b", "done", Some("20"))]
    );
}

#[test]
fn lines_are_given_the_names_of_the_pipeline() {
    let taskruns = vec![
        doc(
            r#"{"metadata": {"name": "tr", "labels": {"tekton.dev/pipelineTask": "build"}},
                "spec": {"taskRef": {"name": "make"}}}"#,
        ),
        doc(
            r#"{"metadata": {"name": "cr-exec", "labels":
                {"tekton.dev/pipelineTask": "remote", "remotetask-customrun": "cr"}}}"#,
        ),
        doc(
            r#"{"metadata": {"name": "make", "labels":
                {"tekton.dev/pipelineTask": "other", "remotetask-customrun": "cr"}}}"#,
        ),
    ];
    assert!(!is_proxy_taskrun(&taskruns[0]));
    assert!(is_proxy_taskrun(&taskruns[1]));
    let line = |task: &str| LogLine {
        task: task.to_string(),
        step: "s".to_string(),
        line: "l".to_string(),
        timestamp: None,
    };
    let lines = vec![line("make"), line("cr-exec"), line("tr"), line("cr"), line("else")];
    let out = fetch_archived_logs_for_run(&taskruns, lines);
    let tasks: Vec<&str> = out.iter().map(|l| l.task.as_str()).collect();
    assert_eq!(tasks, vec!["build", "remote", "tr", "other", "else"]);
    assert_eq!(seen(&out)[0], ("build", "s", "l", None));
}

#[test]
fn a_line_may_be_labelled_with_the_customrun() {
    let taskruns = vec![
        doc(
            r#"{"metadata": {"name": "cr-exec", "labels":
                {"tekton.dev/pipelineTask": "build", "remotetask-customrun": "cr"}}}"#,
        ),
        doc(r#"{"metadata": {"name": "x-exec", "labels": {"remotetask-customrun": "x"}}}"#),
    ];
    let line = |task: &str| LogLine {
        task: task.to_string(),
        step: "run".to_string(),
        line: "l".to_string(),
        timestamp: None,
    };
    let lines = vec![line("cr"), line("cr-exec"), line("x"), line("x-exec")];
    let out = fetch_archived_logs_for_run(&taskruns, lines);
    let tasks: Vec<&str> = out.iter().map(|l| l.task.as_str()).collect();
    assert_eq!(tasks, vec!["build", "build", "x", "x-exec"]);
}

#[test]
fn the_last_taskrun_of_a_task_gives_its_name() {
    let tr = |task: &str| {
        doc(&format!(
            r#"{{"metadata": {{"labels": {{"tekton.dev/pipelineTask": "{}"}}}},
                "spec": {{"taskRef": {{"name": "make"}}}}}}"#,
            task
        ))
    };
    let line = LogLine {
        task: "make".to_string(),
        step: "s".to_string(),
        line: "l".to_string(),
        timestamp: Some("1".to_string()),
    };
    let out = fetch_archived_logs_for_run(&vec![tr("one"), tr("two")], vec![line]);
    assert_eq!(seen(&out), vec![("two", "s", "l", Some("1"))]);
}

#[test]
fn the_archive_keeps_the_dependencies_of_the_live_run() {
    let pr = doc(RUN);
    let planned = plan_run(&pr);
    let taskruns: Vec<Json> = ["build", "remote"]
        .iter()
        .map(|task| {
            doc(&format!(
                r#"{{"metadata": {{"labels": {{"tekton.dev/pipelineTask": "{}"}}}}}}"#,
                task
            ))
        })
        .collect();
    let run = fetch_archived_meta("r", &pr, &taskruns);
    for (archived, live) in run.tasks.iter().zip(planned.tasks.iter()) {
        assert_eq!(archived.name, live.name);
        assert_eq!(archived.depends_on, live.depends_on);
    }
}

#[test]
fn relabelled_lines_carry_the_names_of_the_skeleton() {
    let taskruns = vec![
        doc(
            r#"{"metadata": {"name": "tr", "labels": {"tekton.dev/pipelineTask": "build"}},
                "spec": {"taskRef": {"name": "make"}}}"#,
        ),
        doc(
            r#"{"metadata": {"name": "cr-1-exec", "labels":
                {"tekton.dev/pipelineTask": "remote", "remotetask-customrun": "cr-1"}}}"#,
        ),
    ];
    let run = fetch_archived_meta("r", &doc(RUN), &taskruns);
    for label in ["make", "cr-1-exec", "cr-1"] {
        let line = LogLine {
            task: label.to_string(),
            step: "s".to_string(),
            line: "l".to_string(),
            timestamp: None,
        };
        let out = fetch_archived_logs_for_run(&taskruns, vec![line]);
        assert!(run.tasks.iter().any(|t| t.name == out[0].task), "{}", label);
    }
}
