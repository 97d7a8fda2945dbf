//! The log of a step's container: when it can be read, and what is made of it.
use vstd::prelude::*;
use vstd::string::*;
use vstd::utf8::*;

use crate::db::k8s_client::{is_unauthorized, KubeError, UNAUTHORIZED};
use crate::text::{
    cat, char_index, char_vec, find_char, is_white_space, lemma_char_index, lemma_trim_start_gap,
    same, trim_start, trim_start_of,
};

verus! {

/// How often a pod is looked at before its container is given up.
pub const MAX_READY_RETRIES: u32 = 60;

/// How long to wait before a pod is looked at again, in seconds.
pub const READY_POLL_SECS: u64 = 2;

// ---------------------------------------------------------------------------
// Waiting for a container
// ---------------------------------------------------------------------------

/// How the wait for a container ended.
#[derive(Debug, Clone, Copy, PartialEq, Eq, Structural)]
pub enum WaitResult {
    /// It is running: its log can be followed.
    Ready,
    /// It is over: its log can be read, and has an end.
    AlreadyTerminated,
    /// The pod or the container never showed up in time.
    TimedOut,
}

/// The state of a container. One that is neither running nor terminated is
/// waiting.
#[derive(Debug, Clone, Copy, PartialEq, Eq, Structural)]
pub struct ContainerState {
    pub running: bool,
    pub terminated: bool,
}

/// What a pod says of one of its containers.
#[derive(Debug)]
pub struct ContainerStatus {
    pub name: String,
    pub state: Option<ContainerState>,
}

/// The view of a `ContainerStatus`.
pub struct ContainerView {
    pub name: Seq<char>,
    pub state: Option<ContainerState>,
}

impl View for ContainerStatus {
    type V = ContainerView;

    open spec fn view(&self) -> ContainerView {
        ContainerView { name: self.name@, state: self.state }
    }
}

/// The views of a list of containers.
pub open spec fn container_views(v: Seq<ContainerStatus>) -> Seq<ContainerView> {
    v.map_values(|c: ContainerStatus| c@)
}

/// The state of the first container with the name.
pub open spec fn state_of(containers: Seq<ContainerView>, name: Seq<char>) -> Option<ContainerState>
    decreases containers.len(),
{
    if containers.len() == 0 {
        None
    } else if containers[0].name == name {
        containers[0].state
    } else {
        state_of(containers.drop_first(), name)
    }
}

/// What to do after a look at the pod.
#[derive(Debug, Clone, Copy, PartialEq, Eq, Structural)]
pub enum WaitStep {
    /// The wait is over.
    Done(WaitResult),
    /// Refresh the credentials and look again at once; this look did not
    /// count.
    Refresh,
    /// Wait a little and look again; this many looks have been counted.
    Again(u32),
}

/// A look that did not settle anything: it is counted, and the last one ends
/// the wait.
pub open spec fn look_counted(attempt: u32) -> WaitStep {
    if attempt + 1 >= MAX_READY_RETRIES {
        WaitStep::Done(WaitResult::TimedOut)
    } else {
        WaitStep::Again((attempt + 1) as u32)
    }
}

/// What follows a look at the pod, after `attempt` looks were counted. A pod
/// that says nothing of the container yet, or that cannot be read, is looked
/// at again; so is one whose container is still waiting.
pub open spec fn wait_step(
    attempt: u32,
    container: Seq<char>,
    reply: Result<Seq<ContainerView>, KubeError>,
) -> WaitStep {
    match reply {
        Ok(containers) => match state_of(containers, container) {
            Some(state) => if state.terminated {
                WaitStep::Done(WaitResult::AlreadyTerminated)
            } else if state.running {
                WaitStep::Done(WaitResult::Ready)
            } else {
                look_counted(attempt)
            },
            None => look_counted(attempt),
        },
        Err(e) => if e.code == Some(UNAUTHORIZED) {
            WaitStep::Refresh
        } else {
            look_counted(attempt)
        },
    }
}

/// The view of what a look at the pod gave.
pub open spec fn look_view(reply: Result<Vec<ContainerStatus>, KubeError>) -> Result<
    Seq<ContainerView>,
    KubeError,
> {
    match reply {
        Ok(v) => Ok(container_views(v@)),
        Err(e) => Err(e),
    }
}

/// The state of the first container with the name.
fn container_state(containers: &Vec<ContainerStatus>, name: &str) -> (r: Option<ContainerState>)
    ensures
        r == state_of(container_views(containers@), name@),
{
    let ghost all = container_views(containers@);
    let mut i: usize = 0;
    assert(all.skip(0) =~= all);
    while i < containers.len()
        invariant
            all == container_views(containers@),
            i <= containers@.len(),
            state_of(all, name@) == state_of(all.skip(i as int), name@),
        decreases containers@.len() - i,
    {
        assert(all.skip(i as int).drop_first() =~= all.skip(i + 1));
        if same(containers[i].name.as_str(), name) {
            return containers[i].state;
        }
        i = i + 1;
    }
    None
}

/// What follows a look at the pod, after `attempt` looks were counted.
pub fn wait_for_container_ready(
    attempt: u32,
    container: &str,
    reply: &Result<Vec<ContainerStatus>, KubeError>,
) -> (r: WaitStep)
    ensures
        r == wait_step(attempt, container@, look_view(*reply)),
{
    match reply {
        Ok(containers) => {
            if let Some(state) = container_state(containers, container) {
                if state.terminated {
                    return WaitStep::Done(WaitResult::AlreadyTerminated);
                }
                if state.running {
                    return WaitStep::Done(WaitResult::Ready);
                }
            }
        },
        Err(e) => {
            if is_unauthorized(e) {
                return WaitStep::Refresh;
            }
        },
    }
    if attempt >= MAX_READY_RETRIES - 1 {
        WaitStep::Done(WaitResult::TimedOut)
    } else {
        WaitStep::Again(attempt + 1)
    }
}

/// The wait ends: a look is counted, settles the wait, or failed for its
/// credentials; and no more looks are counted than there may be.
pub proof fn law_wait_ends(
    attempt: u32,
    container: Seq<char>,
    reply: Result<Seq<ContainerView>, KubeError>,
)
    ensures
        match wait_step(attempt, container, reply) {
            WaitStep::Done(_) => true,
            WaitStep::Refresh => reply matches Err(e) && e.code == Some(UNAUTHORIZED),
            WaitStep::Again(n) => n == attempt + 1 && n < MAX_READY_RETRIES,
        },
{
}

// ---------------------------------------------------------------------------
// Reading the log
// ---------------------------------------------------------------------------

/// How a container's log is asked for.
#[derive(Debug)]
pub struct LogRequest {
    pub container: String,
    /// Whether to wait for more once the end is reached.
    pub follow: bool,
    pub timestamps: bool,
}

/// How a container's log is asked for: with timestamps, and followed unless
/// the container is over already.
pub fn log_request(container: &str, already_terminated: bool) -> (r: LogRequest)
    ensures
        r.container@ == container@,
        r.follow == !already_terminated,
        r.timestamps,
{
    LogRequest { container: container.to_owned(), follow: !already_terminated, timestamps: true }
}

/// A line of a log, with its timestamp where it has one.
pub type Line = (Option<String>, String);

/// What to do while a log is read.
#[derive(Debug)]
pub enum LogAction {
    /// Send the line and read on.
    Send(Line),
    /// Send the line and stop.
    SendLast(Line),
    /// Refresh the credentials, send the line and stop.
    RefreshAndSendLast(Line),
    /// Stop.
    Stop,
}

pub const REFRESHING: &'static str = "log stream: refreshing credentials, retrying…";

/// What follows a log that could not be opened: the failure is sent as a line,
/// so that one container does not end the whole stream.
pub fn log_not_opened(e: &KubeError) -> (r: LogAction)
    ensures
        if e.code == Some(UNAUTHORIZED) {
            r matches LogAction::RefreshAndSendLast((None, line)) && line@ == REFRESHING@
        } else {
            r matches LogAction::SendLast((None, line)) && line@ == "log stream error: "@
                + e.message@
        },
{
    if is_unauthorized(e) {
        LogAction::RefreshAndSendLast((None, REFRESHING.to_owned()))
    } else {
        LogAction::SendLast((None, cat("log stream error: ", e.message.as_str())))
    }
}

/// What follows a read of a log: a line, the end, or a failure.
pub fn stream_step_logs(read: Result<Option<String>, String>) -> (r: LogAction)
    ensures
        match read {
            Ok(Some(raw)) => r matches LogAction::Send(line) && line_view(line) == stamped_of(raw@),
            Ok(None) => r == LogAction::Stop,
            Err(e) => r matches LogAction::SendLast((None, line)) && line@
                == "log stream error: "@ + e@,
        },
{
    match read {
        Ok(Some(raw)) => LogAction::Send(split_timestamp(raw.as_str())),
        Ok(None) => LogAction::Stop,
        Err(e) => LogAction::SendLast((None, cat("log stream error: ", e.as_str()))),
    }
}

/// The view of a line.
pub open spec fn line_view(line: Line) -> (Option<Seq<char>>, Seq<char>) {
    (
        match line.0 {
            Some(t) => Some(t@),
            None => None,
        },
        line.1@,
    )
}

/// A decimal digit.
pub open spec fn is_digit(c: char) -> bool {
    '0' <= c <= '9'
}

/// Whether a word begins with a date, a `T` and a time of day, as in
/// `2024-07-10T16:19:25`.
pub open spec fn begins_with_date_time(word: Seq<char>) -> bool {
    &&& word.len() >= 19
    &&& is_digit(word[0]) && is_digit(word[1]) && is_digit(word[2]) && is_digit(word[3])
    &&& word[4] == '-' && is_digit(word[5]) && is_digit(word[6])
    &&& word[7] == '-' && is_digit(word[8]) && is_digit(word[9])
    &&& word[10] == 'T' && is_digit(word[11]) && is_digit(word[12])
    &&& word[13] == ':' && is_digit(word[14]) && is_digit(word[15])
    &&& word[16] == ':' && is_digit(word[17]) && is_digit(word[18])
}

/// Whether a word ends with an offset to the west, as in `-05:00`.
pub open spec fn ends_with_negative_offset(word: Seq<char>) -> bool {
    let n = word.len();
    &&& n >= 6
    &&& word[n - 6] == '-' && is_digit(word[n - 5]) && is_digit(word[n - 4])
    &&& word[n - 3] == ':' && is_digit(word[n - 2]) && is_digit(word[n - 1])
}

/// Whether nothing stands from `from` up to `to`, or a fraction of a second: a
/// point and digits.
pub open spec fn is_fraction(word: Seq<char>, from: int, to: int) -> bool {
    ||| from == to
    ||| from + 1 < to && word[from] == '.' && forall|i: int|
        from < i < to ==> is_digit(#[trigger] word[i])
}

/// Whether a word is an RFC 3339 timestamp with an offset to the west.
pub open spec fn is_west_of_utc(word: Seq<char>) -> bool {
    &&& word.len() >= 25
    &&& begins_with_date_time(word)
    &&& is_fraction(word, 19, word.len() - 6)
    &&& ends_with_negative_offset(word)
}

/// Whether a word looks like an RFC 3339 timestamp: long enough, with a `T`
/// between date and time, and in UTC or with an offset. A `Z` at the end or a
/// `+` is enough to tell; a `-` is not, since names hold it too, so an offset
/// that is written with one has to stand behind a date and a time.
pub open spec fn looks_like_timestamp(word: Seq<char>) -> bool {
    &&& encode_utf8(word).len() >= 20
    &&& word.contains('T')
    &&& word.last() == 'Z' || word.contains('+') || is_west_of_utc(word)
}

/// A raw line's timestamp, which stands in front of its first space, and what
/// follows it; the whole line where it has none.
pub open spec fn stamped_of(raw: Seq<char>) -> (Option<Seq<char>>, Seq<char>) {
    let i = char_index(raw, ' ');
    if i < raw.len() && looks_like_timestamp(raw.take(i)) {
        (Some(raw.take(i)), trim_start_of(raw.skip(i)))
    } else {
        (None, raw)
    }
}

/// Whether a word holds a character.
fn holds_char(word: &Vec<char>, c: char) -> (r: bool)
    ensures
        r == word@.contains(c),
{
    let i: usize = find_char(word, c, 0);
    assert(word@.skip(0) =~= word@);
    if i < word.len() {
        assert(word@[i as int] == c);
        true
    } else {
        false
    }
}

/// Whether a character is a decimal digit.
fn digit(c: char) -> (r: bool)
    ensures
        r == is_digit(c),
{
    '0' <= c && c <= '9'
}

/// Whether a word is an RFC 3339 timestamp with an offset to the west.
fn west_of_utc(word: &Vec<char>) -> (r: bool)
    ensures
        r == is_west_of_utc(word@),
{
    let n: usize = word.len();
    if n < 25 {
        return false;
    }
    let date: bool = digit(word[0]) && digit(word[1]) && digit(word[2]) && digit(word[3])
        && word[4] == '-' && digit(word[5]) && digit(word[6]) && word[7] == '-' && digit(word[8])
        && digit(word[9]);
    let time: bool = word[10] == 'T' && digit(word[11]) && digit(word[12]) && word[13] == ':'
        && digit(word[14]) && digit(word[15]) && word[16] == ':' && digit(word[17]) && digit(
        word[18],
    );
    let offset: bool = word[n - 6] == '-' && digit(word[n - 5]) && digit(word[n - 4]) && word[n - 3]
        == ':' && digit(word[n - 2]) && digit(word[n - 1]);
    if !(date && time && offset) {
        return false;
    }
    if n == 25 {
        return true;
    }
    if n == 26 || word[19] != '.' {
        return false;
    }
    let mut i: usize = 20;
    while i < n - 6
        invariant
            n == word@.len(),
            26 < n,
            20 <= i <= n - 6,
            forall|j: int| 19 < j < i ==> is_digit(#[trigger] word@[j]),
        decreases n - i,
    {
        if !digit(word[i]) {
            return false;
        }
        i = i + 1;
    }
    true
}

/// Whether a word looks like an RFC 3339 timestamp.
fn is_timestamp(word: &str) -> (r: bool)
    ensures
        r == looks_like_timestamp(word@),
{
    if word.as_bytes().len() < 20 {
        return false;
    }
    let chars = char_vec(word);
    let n: usize = chars.len();
    assert(chars@.skip(0) =~= word@);
    let t: usize = find_char(&chars, 'T', 0);
    if t == n {
        return false;
    }
    assert(word@[t as int] == 'T');
    chars[n - 1] == 'Z' || holds_char(&chars, '+') || west_of_utc(&chars)
}

/// Splits a raw line into its timestamp and what follows it.
pub fn split_timestamp(raw: &str) -> (r: (Option<String>, String))
    ensures
        line_view(r) == stamped_of(raw@),
{
    let chars = char_vec(raw);
    let n: usize = chars.len();
    assert(raw@.skip(0) =~= raw@);
    let i: usize = find_char(&chars, ' ', 0);
    if i < n {
        let ts = raw.substring_char(0, i);
        assert(ts@ =~= raw@.take(i as int));
        if is_timestamp(ts) {
            let rest = raw.substring_char(i, n);
            assert(rest@ =~= raw@.skip(i as int));
            return (Some(ts.to_owned()), trim_start(rest).to_owned());
        }
    }
    (None, raw.to_owned())
}

/// Splitting a line loses nothing but the white space between the timestamp
/// and the text: a line without a timestamp is left as it is, and any other is
/// its timestamp, white space that begins with a space, and the text.
pub proof fn law_split_keeps_the_line(raw: Seq<char>)
    ensures
        match stamped_of(raw) {
            (None, line) => line == raw,
            (Some(ts), line) => {
                let gap = raw.subrange(ts.len() as int, raw.len() - line.len());
                &&& raw == ts + gap + line
                &&& gap.len() > 0
                &&& gap[0] == ' '
                &&& forall|k: int| 0 <= k < gap.len() ==> is_white_space(#[trigger] gap[k])
            },
        },
{
    let i = char_index(raw, ' ');
    lemma_char_index(raw, ' ');
    if i < raw.len() && looks_like_timestamp(raw.take(i)) {
        let rest = raw.skip(i);
        lemma_trim_start_gap(rest);
        let line = trim_start_of(rest);
        let gap = raw.subrange(i, raw.len() - line.len());
        assert(rest[0] == ' ');
        assert(gap.len() > 0) by {
            if gap.len() == 0 {
                assert(line =~= rest);
            }
        }
        assert forall|k: int| 0 <= k < gap.len() implies is_white_space(#[trigger] gap[k]) by {
            assert(gap[k] == rest[k]);
        }
        assert(raw =~= raw.take(i) + gap + line);
    }
}

} // verus!
