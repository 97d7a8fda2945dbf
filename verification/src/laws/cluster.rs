//! Asking the cluster and the database.
use vstd::prelude::*;
use vstd::string::*;

use crate::db::k8s_client::{
    claim_hook, hook_action, hook_path, is_not_found, is_unauthorized, HookAction, KubeError,
    AUTH_HOOK_COOLDOWN_NS, AUTH_HOOK_COOLDOWN_SECS, AUTH_HOOK_TIMEOUT_SECS,
};
use crate::db::k8s_tekton::{after_get, after_list, Retry};
use crate::db::pg::{pg_settings, PgPoolError, PgSettings};
use crate::handlers::run_discovery::DiscoverError;
use crate::handlers::run_event_stream::{
    END_POLL_SECS, MAX_STEP_ATTEMPTS, PIPELINERUN_TIMEOUT_SECS, PR_CHECK_EVERY, START_CAP_SECS,
    START_POLL_SECS, STEP_RETRY_MILLIS, TASKRUN_TIMEOUT_SECS,
};
use crate::handlers::runs_by_label::RunsByLabelError;
use crate::handlers::step_log_stream::{MAX_READY_RETRIES, READY_POLL_SECS};
use crate::text::{digits_value, parse_u16};

verus! {

/// An object that is not there is no error. Credentials that were refused are
/// refreshed after the first attempt only; any other failure is passed on, and
/// so are refused credentials after that.
pub proof fn law_get<T>(
    attempt: u8,
    reply: Result<T, KubeError>,
    r: Retry<Result<Option<T>, KubeError>>,
)
    requires
        call_ensures(after_get::<T>, (attempt, reply), r),
    ensures
        reply matches Ok(obj) ==> (r matches Retry::Done(Ok(Some(got))) && got == obj),
        (r matches Retry::Done(Ok(None))) <==> (reply matches Err(e) && e.code == Some(404u16)),
        r is Refresh <==> attempt == 0 && (reply matches Err(e) && e.code == Some(401u16)),
        (reply matches Err(e) && e.code != Some(404u16) && !(attempt == 0 && e.code == Some(401u16)))
            ==> (r matches Retry::Done(Err(told)) && told == reply->Err_0),
{
}

/// A list is handed on. Credentials that were refused are refreshed after the
/// first attempt only; any other failure is passed on, that of a missing object
/// too.
pub proof fn law_list<T>(
    attempt: u8,
    reply: Result<Vec<T>, KubeError>,
    r: Retry<Result<Vec<T>, KubeError>>,
)
    requires
        call_ensures(after_list::<T>, (attempt, reply), r),
    ensures
        reply matches Ok(objs) ==> (r matches Retry::Done(Ok(got)) && got == objs),
        r is Refresh <==> attempt == 0 && (reply matches Err(e) && e.code == Some(401u16)),
        (reply matches Err(e) && !(attempt == 0 && e.code == Some(401u16))) ==> (
        r matches Retry::Done(Err(told)) && told == reply->Err_0),
{
}

/// A failure is told apart by its status code.
pub proof fn law_codes(e: &KubeError, refused: bool, missing: bool)
    requires
        call_ensures(is_unauthorized, (e,), refused),
        call_ensures(is_not_found, (e,), missing),
    ensures
        refused <==> e.code == Some(401u16),
        missing <==> e.code == Some(404u16),
{
}

/// A copy of a failure says the same.
pub proof fn law_error_copy(e: &KubeError, r: KubeError)
    requires
        call_ensures(KubeError::copy, (e,), r),
    ensures
        r.code == e.code,
        r.message@ == e.message@,
{
}

/// The hook runs if it never did, or if three minutes have passed since it did;
/// and only a run is taken note of.
pub proof fn law_hook_is_claimed(last: &mut Option<u64>, now: u64, r: bool)
    requires
        call_ensures(claim_hook, (last, now), r),
    ensures
        r <==> (*old(last) is None || now >= (*old(last))->0 + 180_000_000_000),
        r ==> *final(last) == Some(now),
        !r ==> *final(last) == *old(last),
{
}

/// The hook script stands below the home directory, or below `/root` where none
/// is set, with one slash between them.
pub proof fn law_hook_path(home: Option<String>, r: String)
    requires
        call_ensures(hook_path, (home,), r),
    ensures
        ({
            let base = match home {
                Some(dir) => dir@,
                None => "/root"@,
            };
            let file = ".ginger-society/hooks/k8-auth-refresh.sh"@;
            &&& base.len() == 0 ==> r@ == file
            &&& base.len() > 0 && base.last() == '/' ==> r@ == base + file
            &&& base.len() > 0 && base.last() != '/' ==> r@ == base + "/"@ + file
        }),
{
}

/// The hook script is run if it is there and somebody may execute it.
pub proof fn law_hook_action(exists: bool, mode: Option<u32>, r: HookAction)
    requires
        call_ensures(hook_action, (exists, mode), r),
    ensures
        r is Missing <==> !exists,
        r is Run <==> exists && (mode matches Some(m) && m & 0o111 != 0),
        r is NotExecutable <==> exists && !(mode matches Some(m) && m & 0o111 != 0),
{
    if let Some(m) = mode {
        assert((m & 0o111 != 0) == (m & 0o100 != 0 || m & 0o010 != 0 || m & 0o001 != 0))
            by (bit_vector);
    }
}

// ---------------------------------------------------------------------------
// The database
// ---------------------------------------------------------------------------

/// Every character is a decimal digit.
pub open spec fn all_digits(s: Seq<char>) -> bool {
    forall|i: int| 0 <= i < s.len() ==> '0' <= #[trigger] s[i] <= '9'
}

/// The number that digits write.
pub open spec fn number(s: Seq<char>) -> int
    decreases s.len(),
{
    if s.len() == 0 {
        0
    } else {
        number(s.drop_last()) * 10 + (s.last() as int - '0' as int)
    }
}

proof fn lemma_number(s: Seq<char>)
    ensures
        digits_value(s) is Some <==> all_digits(s),
        digits_value(s) matches Some(v) ==> v == number(s),
    decreases s.len(),
{
    if s.len() > 0 {
        lemma_number(s.drop_last());
        assert(forall|i: int| 0 <= i < s.len() - 1 ==> s.drop_last()[i] == #[trigger] s[i]);
        if all_digits(s) {
            assert('0' <= s[s.len() - 1] <= '9');
        }
        if digits_value(s) is Some {
            assert forall|i: int| 0 <= i < s.len() implies '0' <= #[trigger] s[i] <= '9' by {
                if i < s.len() - 1 {
                    assert(s.drop_last()[i] == s[i]);
                }
            }
        }
    }
}

/// A text is a port number if it is digits, behind a `+` or not, that write a
/// number of at most 65535; and it is that number.
pub proof fn law_u16(s: &str, r: Option<u16>)
    requires
        call_ensures(parse_u16, (s,), r),
    ensures
        ({
            let digits = if s@.len() > 0 && s@[0] == '+' {
                s@.skip(1)
            } else {
                s@
            };
            &&& r is Some <==> digits.len() > 0 && all_digits(digits) && number(digits) <= 65535
            &&& r matches Some(n) ==> n == number(digits)
        }),
{
    let digits = if s@.len() > 0 && s@[0] == '+' {
        s@.skip(1)
    } else {
        s@
    };
    if s@.len() > 0 {
        assert(s@.skip(1) =~= s@.drop_first());
    }
    lemma_number(digits);
}

/// Each setting is the variable's, or its default where that is not set. A port
/// that is no port number falls back to the default too.
pub proof fn law_settings(
    host: Option<String>,
    port: Option<String>,
    user: Option<String>,
    password: Option<String>,
    dbname: Option<String>,
    text: &str,
    parsed: Option<u16>,
    r: PgSettings,
)
    requires
        call_ensures(pg_settings, (host, port, user, password, dbname), r),
        call_ensures(parse_u16, (text,), parsed),
        port matches Some(p) ==> text@ == p@,
    ensures
        host matches Some(h) ==> r.host@ == h@,
        host is None ==> r.host@
            == "tekton-results-postgres-service.tekton-pipelines.svc.cluster.local"@,
        port is Some && parsed is Some ==> r.port == parsed->0,
        port is None || parsed is None ==> r.port == 5432,
        user matches Some(u) ==> r.user@ == u@,
        user is None ==> r.user@ == "tekton"@,
        password matches Some(p) ==> r.password@ == p@,
        password is None ==> r.password@.len() == 0,
        dbname matches Some(d) ==> r.dbname@ == d@,
        dbname is None ==> r.dbname@ == "tekton-results"@,
{
}

/// What is logged of a pool that cannot be built quotes the failure.
pub proof fn law_pool_error(e: &PgPoolError, r: String)
    requires
        call_ensures(PgPoolError::message, (e,), r),
    ensures
        e matches PgPoolError::Build(m) ==> r@ == "failed to build pg pool: "@ + m@,
{
}

/// A failed request stays what it is where it fails a discovery or a listing.
pub proof fn law_failures_are_passed_on(e: KubeError, d: DiscoverError, l: RunsByLabelError)
    requires
        call_ensures(<DiscoverError as From<KubeError>>::from, (e,), d),
        call_ensures(<RunsByLabelError as From<KubeError>>::from, (e,), l),
    ensures
        d == DiscoverError::Kube(e),
        l == RunsByLabelError::Kube(e),
{
}

/// How the waits go together: the hook is done long before it may run again; a
/// task's PipelineRun is looked at every half minute, and a task is given up
/// after four hours of looks; a container is waited for two minutes; and a
/// step's status is had within one and a half seconds.
pub proof fn law_pace()
    ensures
        AUTH_HOOK_COOLDOWN_NS == AUTH_HOOK_COOLDOWN_SECS * 1_000_000_000,
        AUTH_HOOK_TIMEOUT_SECS * 6 == AUTH_HOOK_COOLDOWN_SECS,
        START_POLL_SECS * PR_CHECK_EVERY == 30,
        START_POLL_SECS * 7200 == START_CAP_SECS,
        STEP_RETRY_MILLIS * MAX_STEP_ATTEMPTS == 1500,
        END_POLL_SECS * 300 == TASKRUN_TIMEOUT_SECS,
        END_POLL_SECS * 15 == PIPELINERUN_TIMEOUT_SECS,
        READY_POLL_SECS * MAX_READY_RETRIES == 120,
{
}

} // verus!
