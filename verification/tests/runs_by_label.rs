use sidekick::db::k8s_client::KubeError;
use sidekick::handlers::runs_by_label::{
    archive_query, archived_summaries, fetch_runs_by_label, live_summaries, newest, LiveRun, Moment,
    RunsByLabelError,
};
use sidekick::json::{from_value, Json};
use sidekick::models::run_stream::RunSource;
use sidekick::models::run_summary::RunSummary;
use sidekick::routes::runs_by_label::{answer, requested_labels, requested_limit, ApiError};

fn run(name: &str, created_time: &str, source: RunSource) -> RunSummary {
    RunSummary { name: name.to_string(), created_time: created_time.to_string(), source }
}

fn live(name: &str, created_time: &str) -> RunSummary {
    run(name, created_time, RunSource::Tekton)
}

fn archived(name: &str, created_time: &str) -> RunSummary {
    run(name, created_time, RunSource::Archive)
}

fn seen(runs: &Vec<RunSummary>) -> Vec<(&str, &str, RunSource)> {
    runs.iter().map(|r| (r.name.as_str(), r.created_time.as_str(), r.source)).collect()
}

fn kube() -> KubeError {
    KubeError { code: Some(500), message: "broken".to_string() }
}

#[test]
fn listing_errors_say_what_failed() {
    assert_eq!(RunsByLabelError::from(kube()).message(), "error listing PipelineRuns: broken");
    assert_eq!(RunsByLabelError::Db("x".to_string()).message(), "postgres error: x");
}

#[test]
fn the_newest_runs_come_first() {
    let runs = vec![live("a", "2024-01"), live("b", "2024-03"), live("c", "2024-02")];
    let names: Vec<String> = newest(runs, 2).into_iter().map(|r| r.name).collect();
    assert_eq!(names, vec!["b", "c"]);
    assert!(newest(vec![live("a", "1")], 0).is_empty());
    assert_eq!(newest(vec![live("a", "1")], u32::MAX).len(), 1);
}

#[test]
fn live_runs_are_written_with_their_creation_time() {
    let made = |name: Option<&str>, created: Option<(i64, i32)>| LiveRun {
        name: name.map(|n| n.to_string()),
        created: created.map(|(second, nanosecond)| Moment { second, nanosecond }),
    };
    let runs = vec![
        made(Some("old"), Some((0, 0))),
        made(Some("new"), Some((1_123_456_789, 123_000_000))),
        made(None, Some((5, 0))),
        made(Some("timeless"), None),
        made(Some("never"), Some((i64::MAX, 0))),
    ];
    assert_eq!(
        seen(&live_summaries(runs, 7)),
        vec![
            ("new", "2005-08-07T23:19:49.123Z", RunSource::Tekton),
            ("old", "1970-01-01T00:00:00Z", RunSource::Tekton),
        ]
    );
}

#[test]
fn the_archive_is_asked_with_one_condition_for_each_label() {
    let pair = |k: &str, v: &str| (k.to_string(), v.to_string());
    let query = archive_query("ns", &[pair("a/b", "c"), pair("a/b", "d")], 7);
    assert_eq!(
        query.sql,
        "SELECT data->'metadata'->>'name' AS name, \
         data->'metadata'->>'creationTimestamp' AS created_time FROM records \
         WHERE type = 'tekton.dev/v1.PipelineRun' \
         AND data->'metadata'->>'namespace' = $1::text  \
         AND data->'metadata'->'labels' @> $2 AND data->'metadata'->'labels' @> $3 \
         ORDER BY created_time DESC LIMIT $4::int8"
    );
    assert_eq!(query.namespace, "ns");
    assert_eq!(query.limit, 7);
    let labels: Vec<Json> = query.labels.into_iter().map(from_value).collect();
    let label = |v: &str| Json::Object(vec![("a/b".to_string(), Json::Text(v.to_string()))]);
    assert_eq!(labels, vec![label("c"), label("d")]);
    assert!(archive_query("ns", &[], u32::MAX).sql.ends_with("$1::text  ORDER BY created_time DESC LIMIT $2::int8"));
}

#[test]
fn rows_without_a_name_or_a_time_are_left_out() {
    let row = |n: Option<&str>, t: Option<&str>| (n.map(String::from), t.map(String::from));
    let rows = vec![row(Some("a"), Some("1")), row(None, Some("2")), row(Some("c"), None)];
    assert_eq!(seen(&archived_summaries(rows)), vec![("a", "1", RunSource::Archive)]);
}

#[test]
fn live_wins_over_the_archive() {
    let merged = fetch_runs_by_label(
        Ok(vec![live("a", "3"), live("b", "1")]),
        Ok(vec![archived("b", "9"), archived("c", "2"), archived("c", "8")]),
        7,
    )
    .unwrap();
    assert_eq!(
        seen(&merged),
        vec![
            ("a", "3", RunSource::Tekton),
            ("c", "2", RunSource::Archive),
            ("b", "1", RunSource::Tekton),
        ]
    );
}

#[test]
fn a_listing_never_exceeds_its_limit() {
    let ours = vec![live("a", "5"), live("b", "3")];
    let theirs = vec![archived("c", "4"), archived("d", "2")];
    let merged = fetch_runs_by_label(Ok(ours), Ok(theirs), 2).unwrap();
    let names: Vec<&str> = merged.iter().map(|r| r.name.as_str()).collect();
    assert_eq!(names, vec!["a", "c"]);
}

#[test]
fn the_archive_may_fail_but_the_cluster_may_not() {
    let failed = || Err(RunsByLabelError::Db("down".to_string()));
    let merged = fetch_runs_by_label(Ok(vec![live("a", "1")]), failed(), 7).unwrap();
    assert_eq!(merged.len(), 1);
    let merged = fetch_runs_by_label(Err(RunsByLabelError::Kube(kube())), Ok(vec![]), 7);
    assert!(matches!(merged, Err(RunsByLabelError::Kube(e)) if e.message == "broken"));
}

fn refused(r: Result<Vec<(String, String)>, ApiError>) -> (u16, String) {
    let e = r.unwrap_err();
    (e.status, e.body.message)
}

#[test]
fn a_request_needs_labels() {
    assert_eq!(
        refused(requested_labels(" , ")),
        (400, "labels query param must contain at least one key=value pair".to_string())
    );
    assert_eq!(
        refused(requested_labels("a=b,c")),
        (400, "invalid label selector segment 'c', expected key=value".to_string())
    );
    assert_eq!(requested_labels("a=b").unwrap(), vec![("a".to_string(), "b".to_string())]);
}

#[test]
fn a_request_may_leave_the_limit_open() {
    assert_eq!(requested_limit(None), 7);
    assert_eq!(requested_limit(Some(0)), 0);
    assert_eq!(requested_limit(Some(100)), 100);
}

#[test]
fn what_failed_behind_the_service_is_a_bad_gateway() {
    let told = |e: RunsByLabelError| {
        let e = answer(Err(e)).unwrap_err();
        (e.status, e.body.message)
    };
    assert_eq!(
        told(RunsByLabelError::Kube(kube())),
        (502, "error reading PipelineRuns from cluster: broken".to_string())
    );
    assert_eq!(
        told(RunsByLabelError::Db("x".to_string())),
        (502, "postgres error: x".to_string())
    );
    assert_eq!(seen(&answer(Ok(vec![live("a", "1")])).unwrap()), vec![("a", "1", RunSource::Tekton)]);
}
