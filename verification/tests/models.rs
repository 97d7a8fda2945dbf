use sidekick::models::run_stream::RunStatus;
use sidekick::models::run_stream::RunStatus::{Failed, Pending, Running, Succeeded, Unknown};

#[test]
fn conditions_become_statuses() {
    for started in [false, true] {
        assert_eq!(RunStatus::from_condition(Some("True"), started), Succeeded);
        assert_eq!(RunStatus::from_condition(Some("False"), started), Failed);
    }
    assert_eq!(RunStatus::from_condition(Some("Unknown"), true), Running);
    assert_eq!(RunStatus::from_condition(Some("Unknown"), false), Pending);
    assert_eq!(RunStatus::from_condition(Some("other"), true), Running);
    assert_eq!(RunStatus::from_condition(None, true), Unknown);
    assert_eq!(RunStatus::from_condition(None, false), Pending);
}

#[test]
fn only_success_and_failure_are_terminal() {
    let all = [Pending, Running, Succeeded, Failed, Unknown];
    let terminal: Vec<bool> = all.iter().map(|s| s.is_terminal()).collect();
    assert_eq!(terminal, vec![false, false, true, true, false]);
    for s in all {
        assert_eq!(s.variant_name(), format!("{:?}", s));
    }
}
