use sidekick::db::k8s_client::{
    claim_hook, hook_action, hook_path, is_not_found, is_unauthorized, HookAction, KubeError,
};
use sidekick::db::k8s_tekton::{after_get, after_list, Retry};
use sidekick::db::pg::{pg_settings, PgPoolError};

fn error(code: Option<u16>) -> KubeError {
    KubeError { code, message: "m".to_string() }
}

#[test]
fn errors_are_told_apart_by_their_code() {
    assert!(is_unauthorized(&error(Some(401))));
    assert!(!is_unauthorized(&error(Some(403))));
    assert!(!is_unauthorized(&error(None)));
    assert!(is_not_found(&error(Some(404))));
    assert!(!is_not_found(&error(None)));
}

#[test]
fn the_hook_is_left_alone_for_three_minutes() {
    let second: u64 = 1_000_000_000;
    let mut last = None;
    assert!(claim_hook(&mut last, 5 * second));
    assert_eq!(last, Some(5 * second));
    assert!(!claim_hook(&mut last, 5 * second));
    assert!(!claim_hook(&mut last, 185 * second - 1));
    assert!(!claim_hook(&mut last, 0));
    assert_eq!(last, Some(5 * second));
    assert!(claim_hook(&mut last, 185 * second));
    assert_eq!(last, Some(185 * second));
}

#[test]
fn the_hook_is_found_below_the_home_directory() {
    for home in ["/home/me", "/home/me/", "/", ""] {
        let expected = std::path::PathBuf::from(home)
            .join(".ginger-society")
            .join("hooks")
            .join("k8-auth-refresh.sh");
        assert_eq!(hook_path(Some(home.to_string())), expected.display().to_string());
    }
    assert_eq!(hook_path(None), "/root/.ginger-society/hooks/k8-auth-refresh.sh");
}

#[test]
fn the_hook_has_to_be_executable() {
    assert_eq!(hook_action(false, Some(0o755)), HookAction::Missing);
    assert_eq!(hook_action(true, Some(0o644)), HookAction::NotExecutable);
    assert_eq!(hook_action(true, None), HookAction::NotExecutable);
    assert_eq!(hook_action(true, Some(0o100644 | 0o010)), HookAction::Run);
    assert_eq!(hook_action(true, Some(0o755)), HookAction::Run);
}

#[test]
fn a_missing_object_is_no_error() {
    assert!(matches!(after_get(0, Ok(5u8)), Retry::Done(Ok(Some(5)))));
    assert!(matches!(after_get::<u8>(1, Err(error(Some(404)))), Retry::Done(Ok(None))));
    assert!(matches!(after_get::<u8>(0, Err(error(Some(500)))), Retry::Done(Err(_))));
}

#[test]
fn credentials_are_refreshed_once() {
    assert!(matches!(after_get::<u8>(0, Err(error(Some(401)))), Retry::Refresh));
    assert!(matches!(after_get::<u8>(1, Err(error(Some(401)))), Retry::Done(Err(_))));
    assert!(matches!(after_list::<u8>(0, Err(error(Some(401)))), Retry::Refresh));
    assert!(matches!(after_list::<u8>(1, Err(error(Some(401)))), Retry::Done(Err(_))));
    assert!(matches!(after_list::<u8>(0, Err(error(Some(404)))), Retry::Done(Err(_))));
    match after_list(0, Ok(vec![1u8, 2])) {
        Retry::Done(Ok(v)) => assert_eq!(v, vec![1, 2]),
        _ => panic!("not done"),
    }
}

#[test]
fn settings_fall_back_one_by_one() {
    let s = pg_settings(None, None, None, None, None);
    assert_eq!(s.host, "tekton-results-postgres-service.tekton-pipelines.svc.cluster.local");
    assert_eq!(s.port, 5432);
    assert_eq!(s.user, "tekton");
    assert_eq!(s.password, "");
    assert_eq!(s.dbname, "tekton-results");
    let s = pg_settings(
        Some("h".to_string()),
        Some("6000".to_string()),
        Some("u".to_string()),
        Some("p".to_string()),
        Some("d".to_string()),
    );
    assert_eq!((s.host.as_str(), s.port, s.user.as_str()), ("h", 6000, "u"));
    assert_eq!((s.password.as_str(), s.dbname.as_str()), ("p", "d"));
    assert_eq!(pg_settings(None, Some("x".to_string()), None, None, None).port, 5432);
}

#[test]
fn a_pool_error_says_what_failed() {
    assert_eq!(
        PgPoolError::Build("no host".to_string()).message(),
        "failed to build pg pool: no host"
    );
}
