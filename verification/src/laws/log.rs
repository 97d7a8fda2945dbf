//! The log of a step's container.
use vstd::prelude::*;
use vstd::string::*;
use vstd::utf8::*;

use crate::db::k8s_client::KubeError;
use crate::handlers::step_log_stream::{
    container_views, is_digit, is_west_of_utc, line_view, log_not_opened, log_request,
    split_timestamp, state_of, stream_step_logs, wait_for_container_ready, ContainerStatus,
    LogAction, LogRequest, WaitResult, WaitStep,
};
use crate::text::{
    char_index, is_char_index, is_white_space, lemma_char_index, lemma_trim_start_gap,
};

verus! {

/// The container at `i` is the first one with the name.
pub open spec fn is_first_named(containers: Seq<ContainerStatus>, name: Seq<char>, i: int) -> bool {
    &&& 0 <= i < containers.len()
    &&& containers[i].name@ == name
    &&& forall|k: int| 0 <= k < i ==> (#[trigger] containers[k]).name@ != name
}

proof fn lemma_state(containers: Seq<ContainerStatus>, name: Seq<char>, at: int)
    requires
        0 <= at <= containers.len(),
        forall|k: int| 0 <= k < at ==> (#[trigger] containers[k]).name@ != name,
    ensures
        ({
            let rest = state_of(container_views(containers).skip(at), name);
            &&& forall|i: int| #[trigger]
                is_first_named(containers, name, i) ==> rest == containers[i].state
            &&& rest is Some ==> exists|i: int| is_first_named(containers, name, i)
        }),
    decreases containers.len() - at,
{
    let views = container_views(containers).skip(at);
    if at < containers.len() {
        assert(views[0] == containers[at]@);
        assert(views.drop_first() =~= container_views(containers).skip(at + 1));
        if containers[at].name@ == name {
            assert(is_first_named(containers, name, at));
            assert forall|i: int| #[trigger] is_first_named(containers, name, i) implies state_of(
                views,
                name,
            ) == containers[i].state by {
                if i < at {
                    assert(containers[i].name@ != name);
                } else if i > at {
                    assert(containers[at].name@ != name);
                }
            }
        } else {
            lemma_state(containers, name, at + 1);
        }
    } else {
        assert(views.len() == 0);
        assert forall|i: int| #[trigger] is_first_named(containers, name, i) implies false by {
            assert(containers[i].name@ != name);
        }
    }
}

/// A wait is settled through the container that was asked for, and no other:
/// the first one with its name. It has ended where that is terminated, and is
/// ready where that is running; in any other case the pod is looked at again,
/// sixty times in all. A look that was refused for its credentials does not
/// count.
pub proof fn law_wait(
    attempt: u32,
    container: &str,
    reply: &Result<Vec<ContainerStatus>, KubeError>,
    r: WaitStep,
)
    requires
        call_ensures(wait_for_container_ready, (attempt, container, reply), r),
    ensures
        r == WaitStep::Done(WaitResult::AlreadyTerminated) <==> (reply matches Ok(all) && exists|
            i: int,
        | #[trigger]
            is_first_named(all@, container@, i) && all@[i].state is Some
                && all@[i].state->0.terminated),
        r == WaitStep::Done(WaitResult::Ready) <==> (reply matches Ok(all) && exists|i: int|
         #[trigger]
            is_first_named(all@, container@, i) && all@[i].state is Some
                && all@[i].state->0.running && !all@[i].state->0.terminated),
        r == WaitStep::Refresh <==> (reply matches Err(e) && e.code == Some(401u16)),
        r == WaitStep::Done(WaitResult::TimedOut) ==> attempt >= 59,
        r matches WaitStep::Again(n) ==> attempt < 59 && n == attempt + 1,
{
    if let Ok(all) = reply {
        lemma_state(all@, container@, 0);
        assert(container_views(all@).skip(0) =~= container_views(all@));
        if exists|i: int| is_first_named(all@, container@, i) {
            let i = choose|i: int| is_first_named(all@, container@, i);
            assert(is_first_named(all@, container@, i));
            assert(state_of(container_views(all@), container@) == all@[i].state);
        }
    }
}

/// Containers of other names do not change how a wait goes on: two pods that
/// agree on the container that was asked for are told apart by nothing.
pub proof fn law_wait_ignores_other_containers(
    attempt: u32,
    container: &str,
    one: &Result<Vec<ContainerStatus>, KubeError>,
    other: &Result<Vec<ContainerStatus>, KubeError>,
    i: int,
    j: int,
    r: WaitStep,
    s: WaitStep,
)
    requires
        call_ensures(wait_for_container_ready, (attempt, container, one), r),
        call_ensures(wait_for_container_ready, (attempt, container, other), s),
        one is Ok,
        other is Ok,
        is_first_named(one->Ok_0@, container@, i),
        is_first_named(other->Ok_0@, container@, j),
        one->Ok_0@[i].state == other->Ok_0@[j].state,
    ensures
        r == s,
{
    lemma_state(one->Ok_0@, container@, 0);
    lemma_state(other->Ok_0@, container@, 0);
    assert(container_views(one->Ok_0@).skip(0) =~= container_views(one->Ok_0@));
    assert(container_views(other->Ok_0@).skip(0) =~= container_views(other->Ok_0@));
}

/// A log is asked for by its container, with timestamps, and followed exactly
/// where the container is not over.
pub proof fn law_log_request(container: &str, already_terminated: bool, r: LogRequest)
    requires
        call_ensures(log_request, (container, already_terminated), r),
    ensures
        r.container@ == container@,
        r.follow != already_terminated,
        r.timestamps,
{
}

/// A log that cannot be opened is told of in one line and ends: credentials that
/// were refused are refreshed, and any other failure is quoted.
pub proof fn law_log_not_opened(e: &KubeError, r: LogAction)
    requires
        call_ensures(log_not_opened, (e,), r),
    ensures
        e.code == Some(401u16) <==> r is RefreshAndSendLast,
        e.code != Some(401u16) <==> r is SendLast,
        r matches LogAction::RefreshAndSendLast((stamp, line)) ==> stamp is None && line@
            == "log stream: refreshing credentials, retrying…"@,
        r matches LogAction::SendLast((stamp, line)) ==> stamp is None && line@
            == "log stream error: "@ + e.message@,
{
}

/// A character is a decimal digit.
pub open spec fn digit(c: char) -> bool {
    '0' <= c <= '9'
}

/// The word is written as an RFC 3339 timestamp west of UTC.
pub open spec fn west(w: Seq<char>) -> bool {
    let n = w.len();
    &&& n >= 25
    &&& forall|i: int|
        #![trigger w[i]]
        0 <= i < n ==> (if i == 4 || i == 7 || i == n - 6 {
            w[i] == '-'
        } else if i == 10 {
            w[i] == 'T'
        } else if i == 13 || i == 16 || i == n - 3 {
            w[i] == ':'
        } else if i == 19 && n > 25 {
            w[i] == '.'
        } else {
            digit(w[i])
        })
    &&& n != 26
}

/// The word is taken for a timestamp: at least twenty bytes, a `T`, and a `Z` at
/// the end, a `+`, or an offset west of UTC.
pub open spec fn stamps(w: Seq<char>) -> bool {
    &&& encode_utf8(w).len() >= 20
    &&& exists|i: int| 0 <= i < w.len() && w[i] == 'T'
    &&& (w[w.len() - 1] == 'Z' || (exists|i: int| 0 <= i < w.len() && w[i] == '+') || west(w))
}

/// A raw line is split exactly where its first word, up to the first space, is
/// taken for a timestamp: into that word, and what follows without the white
/// space in front. Any other line has no timestamp and stays as it is.
pub proof fn law_split_timestamp(raw: &str, i: int, r: (Option<String>, String))
    requires
        call_ensures(split_timestamp, (raw,), r),
    ensures
        (0 <= i < raw@.len() && raw@[i] == ' ' && (forall|k: int|
            0 <= k < i ==> (#[trigger] raw@[k]) != ' ') && stamps(raw@.take(i))) ==> (r.0 matches Some(
            ts,
        ) && ts@ == raw@.take(i) && r.1@.len() <= raw@.len() - i && r.1@ == raw@.skip(
            raw@.len() - r.1@.len(),
        ) && (forall|k: int|
            i <= k < raw@.len() - r.1@.len() ==> is_white_space(#[trigger] raw@[k])) && (r.1@.len()
            > 0 ==> !is_white_space(r.1@[0]))),
        r.0 matches Some(ts) ==> stamps(ts@) && ts@.len() < raw@.len() && ts@ == raw@.take(
            ts@.len() as int,
        ) && raw@[ts@.len() as int] == ' ' && !ts@.contains(' '),
        r.0 is None ==> r.1@ == raw@,
{
    let k = char_index(raw@, ' ');
    lemma_char_index(raw@, ' ');
    if 0 <= i < raw@.len() && raw@[i] == ' ' && (forall|k: int|
        0 <= k < i ==> (#[trigger] raw@[k]) != ' ') {
        assert(is_char_index(raw@, ' ', i));
    }
    if k < raw@.len() {
        let w = raw@.take(k);
        let rest = raw@.skip(k);
        lemma_west(w);
        lemma_trim_start_gap(rest);
        assert forall|m: int| k <= m < raw@.len() implies #[trigger] raw@[m] == rest[m - k] by {}
        if r.0 is Some {
            assert(r.1@ =~= raw@.skip(raw@.len() - r.1@.len()));
            assert(!w.contains(' '));
        }
    }
}

proof fn lemma_west(w: Seq<char>)
    ensures
        west(w) == is_west_of_utc(w),
{
    let n = w.len();
    if is_west_of_utc(w) {
        assert forall|i: int| #![trigger w[i]] 0 <= i < n implies (if i == 4 || i == 7 || i == n
            - 6 {
            w[i] == '-'
        } else if i == 10 {
            w[i] == 'T'
        } else if i == 13 || i == 16 || i == n - 3 {
            w[i] == ':'
        } else if i == 19 && n > 25 {
            w[i] == '.'
        } else {
            digit(w[i])
        }) by {
            if 19 < i < n - 6 {
                assert(is_digit(w[i]));
            }
        }
    }
    if west(w) {
        assert(digit(w[0]) && digit(w[1]) && digit(w[2]) && digit(w[3]) && w[4] == '-');
        assert(digit(w[5]) && digit(w[6]) && w[7] == '-' && digit(w[8]) && digit(w[9]));
        assert(w[10] == 'T' && digit(w[11]) && digit(w[12]) && w[13] == ':');
        assert(digit(w[14]) && digit(w[15]) && w[16] == ':' && digit(w[17]) && digit(w[18]));
        assert(w[n - 6] == '-' && digit(w[n - 5]) && digit(w[n - 4]) && w[n - 3] == ':');
        assert(digit(w[n - 2]) && digit(w[n - 1]));
        if n > 25 {
            assert(w[19] == '.');
            assert forall|i: int| 19 < i < n - 6 implies is_digit(#[trigger] w[i]) by {
                assert(digit(w[i]));
            }
        }
    }
}

/// Reading a log sends every line, split at its timestamp, stops at the end, and
/// tells of a failure in a last line.
pub proof fn law_log_is_read(
    read: Result<Option<String>, String>,
    raw: &str,
    split: (Option<String>, String),
    r: LogAction,
)
    requires
        call_ensures(stream_step_logs, (read,), r),
        call_ensures(split_timestamp, (raw,), split),
    ensures
        read matches Ok(Some(text)) ==> r is Send,
        (read matches Ok(Some(text)) && text@ == raw@) ==> line_view(r->Send_0) == line_view(split),
        read matches Ok(None) ==> r is Stop,
        read matches Err(e) ==> (r matches LogAction::SendLast((stamp, line)) && stamp is None
            && line@ == "log stream error: "@ + e@),
{
}

} // verus!
