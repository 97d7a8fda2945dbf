use sidekick::db::k8s_client::KubeError;
use sidekick::handlers::step_log_stream::{
    log_not_opened, log_request, split_timestamp, stream_step_logs, wait_for_container_ready,
    ContainerState, ContainerStatus, LogAction, WaitResult, WaitStep,
};

fn container(name: &str, state: Option<(bool, bool)>) -> ContainerStatus {
    ContainerStatus {
        name: name.to_string(),
        state: state.map(|(running, terminated)| ContainerState { running, terminated }),
    }
}

fn error(code: Option<u16>) -> KubeError {
    KubeError { code, message: "broken".to_string() }
}

#[test]
fn a_container_is_ready_when_it_runs_or_is_over() {
    let running = Ok(vec![container("a", None), container("b", Some((true, false)))]);
    assert_eq!(wait_for_container_ready(0, "b", &running), WaitStep::Done(WaitResult::Ready));
    let over = Ok(vec![container("b", Some((false, true)))]);
    assert_eq!(
        wait_for_container_ready(0, "b", &over),
        WaitStep::Done(WaitResult::AlreadyTerminated)
    );
    let both = Ok(vec![container("b", Some((true, true)))]);
    assert_eq!(
        wait_for_container_ready(59, "b", &both),
        WaitStep::Done(WaitResult::AlreadyTerminated)
    );
}

#[test]
fn a_container_that_says_nothing_is_looked_at_again() {
    let waiting = Ok(vec![container("b", Some((false, false)))]);
    let silent = Ok(vec![container("b", None)]);
    let missing = Ok(Vec::new());
    let broken = Err(error(Some(500)));
    for reply in [&waiting, &silent, &missing, &broken] {
        assert_eq!(wait_for_container_ready(0, "b", reply), WaitStep::Again(1));
        assert_eq!(wait_for_container_ready(58, "b", reply), WaitStep::Again(59));
        assert_eq!(
            wait_for_container_ready(59, "b", reply),
            WaitStep::Done(WaitResult::TimedOut)
        );
    }
}

#[test]
fn a_refused_look_does_not_count() {
    let refused = Err(error(Some(401)));
    assert_eq!(wait_for_container_ready(59, "b", &refused), WaitStep::Refresh);
}

#[test]
fn a_finished_log_is_not_followed() {
    let request = log_request("step-a", true);
    assert_eq!(request.container, "step-a");
    assert!(!request.follow && request.timestamps);
    assert!(log_request("step-a", false).follow);
}

#[test]
fn a_log_that_cannot_be_opened_is_reported_as_a_line() {
    match log_not_opened(&error(Some(401))) {
        LogAction::RefreshAndSendLast((None, line)) => {
            assert_eq!(line, "log stream: refreshing credentials, retrying…")
        }
        other => panic!("{:?}", other),
    }
    match log_not_opened(&error(None)) {
        LogAction::SendLast((None, line)) => assert_eq!(line, "log stream error: broken"),
        other => panic!("{:?}", other),
    }
}

#[test]
fn a_log_is_read_line_by_line() {
    match stream_step_logs(Ok(Some("2024-07-10T21:19:25.567Z hello".to_string()))) {
        LogAction::Send((Some(ts), line)) => {
            assert_eq!((ts.as_str(), line.as_str()), ("2024-07-10T21:19:25.567Z", "hello"))
        }
        other => panic!("{:?}", other),
    }
    assert!(matches!(stream_step_logs(Ok(None)), LogAction::Stop));
    match stream_step_logs(Err("reset".to_string())) {
        LogAction::SendLast((None, line)) => assert_eq!(line, "log stream error: reset"),
        other => panic!("{:?}", other),
    }
}

#[test]
fn timestamps_are_split_off() {
    let cases = [
        ("2024-07-10T21:19:25Z  two  words ", Some("2024-07-10T21:19:25Z"), "two  words "),
        ("2024-07-10T21:19:25+02:00 x", Some("2024-07-10T21:19:25+02:00"), "x"),
        ("2024-07-10T16:19:25-05:00 hello", Some("2024-07-10T16:19:25-05:00"), "hello"),
        ("2024-07-10T21:19:25Z ", Some("2024-07-10T21:19:25Z"), ""),
        ("2024-07-10T21:19:25Z", None, "2024-07-10T21:19:25Z"),
        ("2024-07-10T21:19:25 x", None, "2024-07-10T21:19:25 x"),
        ("2024-07-10 21:19:25.000000Z x", None, "2024-07-10 21:19:25.000000Z x"),
        ("2024-07-10T16:19:25.123456789-05:00  x", Some("2024-07-10T16:19:25.123456789-05:00"), "x"),
        ("2024-07-10T16:19:25.-05:00 x", None, "2024-07-10T16:19:25.-05:00 x"),
        ("2024-07-10T16:19:25.1a-05:00 x", None, "2024-07-10T16:19:25.1a-05:00 x"),
        ("2024-07-10T16:19:25-05-00 x", None, "2024-07-10T16:19:25-05-00 x"),
        ("TASK-0123456789-abcdef hello", None, "TASK-0123456789-abcdef hello"),
        ("TASK-0123456789-abcdef-05:00 hello", None, "TASK-0123456789-abcdef-05:00 hello"),
        ("12345-67890-12345-67-T x", None, "12345-67890-12345-67-T x"),
        ("short T Z", None, "short T Z"),
        (" leading", None, " leading"),
        ("", None, ""),
    ];
    for (raw, ts, line) in cases {
        let (stamp, rest) = split_timestamp(raw);
        assert_eq!((stamp.as_deref(), rest.as_str()), (ts, line), "{:?}", raw);
    }
}

#[test]
fn the_length_of_a_timestamp_is_counted_in_bytes() {
    let word = "TééééééééZ";
    assert_eq!(word.len(), 18);
    assert_eq!(split_timestamp(&format!("{} x", word)).0, None);
    let word = "TéééééééééZ";
    assert_eq!(word.len(), 20);
    assert_eq!(split_timestamp(&format!("{} x", word)).0.as_deref(), Some(word));
}

#[test]
fn splitting_loses_only_white_space() {
    let raw = "2024-07-10T21:19:25Z \t text with  gaps";
    let (ts, line) = split_timestamp(raw);
    let ts = ts.unwrap();
    assert!(raw.starts_with(&ts) && raw.ends_with(&line));
    let gap = &raw[ts.len()..raw.len() - line.len()];
    assert!(gap.starts_with(' ') && gap.trim().is_empty());
}
