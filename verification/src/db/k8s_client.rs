//! What follows a refused request to the cluster: when credentials are
//! refreshed, and when the refresh hook may run.
use vstd::prelude::*;
use vstd::string::*;

use crate::text::{cat, cat3, char_vec, opt_text, text_or, text_or_default};

verus! {

/// The status code of a request whose credentials are not accepted.
pub const UNAUTHORIZED: u16 = 401;

/// The status code of a request for something that does not exist.
pub const NOT_FOUND: u16 = 404;

/// How long the refresh hook is left alone after a run, in seconds.
pub const AUTH_HOOK_COOLDOWN_SECS: u64 = 180;

/// How long the refresh hook is left alone after a run, in nanoseconds.
pub const AUTH_HOOK_COOLDOWN_NS: u64 = 180_000_000_000;

/// How long the refresh hook may run, in seconds.
pub const AUTH_HOOK_TIMEOUT_SECS: u64 = 30;

/// A request to the cluster that failed.
#[derive(Debug)]
pub struct KubeError {
    /// The status code, where the API server answered with one.
    pub code: Option<u16>,
    pub message: String,
}

impl KubeError {
    /// A copy.
    pub fn copy(&self) -> (r: KubeError)
        ensures
            r == *self,
    {
        KubeError { code: self.code, message: self.message.clone() }
    }
}

/// Whether the request failed because its credentials were not accepted.
pub fn is_unauthorized(e: &KubeError) -> (r: bool)
    ensures
        r == (e.code == Some(UNAUTHORIZED)),
{
    match e.code {
        Some(code) => code == UNAUTHORIZED,
        None => false,
    }
}

/// Whether the request failed because its object does not exist.
pub fn is_not_found(e: &KubeError) -> (r: bool)
    ensures
        r == (e.code == Some(NOT_FOUND)),
{
    match e.code {
        Some(code) => code == NOT_FOUND,
        None => false,
    }
}

/// Whether the refresh hook may run now: whether it never ran, or ran long
/// enough ago. Times are in nanoseconds, on a clock that does not go back.
pub open spec fn hook_due(last: Option<u64>, now: u64) -> bool {
    last matches Some(t) ==> now - t >= AUTH_HOOK_COOLDOWN_NS
}

/// Asks whether the refresh hook may run now, and takes note of it if so.
pub fn claim_hook(last: &mut Option<u64>, now: u64) -> (r: bool)
    ensures
        r == hook_due(*old(last), now),
        *final(last) == (if r {
            Some(now)
        } else {
            *old(last)
        }),
{
    let due: bool = match *last {
        None => true,
        Some(t) => now >= t && now - t >= AUTH_HOOK_COOLDOWN_NS,
    };
    if due {
        *last = Some(now);
    }
    due
}

/// The times at which the hook runs, of the times at which it is asked for;
/// and when it ran last.
pub open spec fn hook_runs(last: Option<u64>, asked: Seq<u64>) -> (Seq<u64>, Option<u64>)
    decreases asked.len(),
{
    if asked.len() == 0 {
        (Seq::empty(), last)
    } else {
        let (runs, then) = hook_runs(last, asked.drop_last());
        if hook_due(then, asked.last()) {
            (runs.push(asked.last()), Some(asked.last()))
        } else {
            (runs, then)
        }
    }
}

/// However often the hook is asked for, it never runs twice within the
/// cooldown.
pub proof fn law_hook_cooldown(last: Option<u64>, asked: Seq<u64>)
    ensures
        forall|i: int, j: int|
            0 <= i < j < hook_runs(last, asked).0.len() ==> #[trigger] hook_runs(last, asked).0[j]
                - #[trigger] hook_runs(last, asked).0[i] >= AUTH_HOOK_COOLDOWN_NS,
        hook_runs(last, asked).1 == (if hook_runs(last, asked).0.len() > 0 {
            Some(hook_runs(last, asked).0.last())
        } else {
            last
        }),
    decreases asked.len(),
{
    if asked.len() > 0 {
        let front = asked.drop_last();
        law_hook_cooldown(last, front);
        let (runs, then) = hook_runs(last, front);
        let (now, _) = hook_runs(last, asked);
        assert forall|i: int, j: int| 0 <= i < j < now.len() implies #[trigger] now[j]
            - #[trigger] now[i] >= AUTH_HOOK_COOLDOWN_NS by {
            assert(now[i] == runs[i]);
            if j < runs.len() {
                assert(now[j] == runs[j]);
            } else if i < runs.len() - 1 {
                assert(runs[runs.len() - 1] - runs[i] >= AUTH_HOOK_COOLDOWN_NS);
            }
        }
    }
}

/// Where the hook script is, below the home directory.
pub const HOOK_FILE: &'static str = ".ginger-society/hooks/k8-auth-refresh.sh";

/// Where the hook script is: below the home directory, which is `/root` where
/// none is set.
pub open spec fn hook_path_of(home: Option<Seq<char>>) -> Seq<char> {
    let base = text_or(home, "/root"@);
    if base.len() == 0 || base.last() == '/' {
        base + HOOK_FILE@
    } else {
        base + "/"@ + HOOK_FILE@
    }
}

/// Where the hook script is.
pub fn hook_path(home: Option<String>) -> (r: String)
    ensures
        r@ == hook_path_of(opt_text(home)),
{
    let base = text_or_default(home, "/root");
    let chars = char_vec(base.as_str());
    let n: usize = chars.len();
    if n == 0 || chars[n - 1] == '/' {
        cat(base.as_str(), HOOK_FILE)
    } else {
        cat3(base.as_str(), "/", HOOK_FILE)
    }
}

/// What to do with the hook script.
#[derive(Debug, Clone, Copy, PartialEq, Eq, Structural)]
pub enum HookAction {
    Run,
    /// There is no script.
    Missing,
    /// There is a script, but nobody may execute it.
    NotExecutable,
}

/// Whether a file mode lets its owner, its group or others execute the file.
pub open spec fn executable(mode: u32) -> bool {
    mode & 0o100 != 0 || mode & 0o010 != 0 || mode & 0o001 != 0
}

/// What to do with the hook script, given whether it exists and its file mode,
/// if that could be read.
pub fn hook_action(exists: bool, mode: Option<u32>) -> (r: HookAction)
    ensures
        r == (if !exists {
            HookAction::Missing
        } else if mode matches Some(m) && executable(m) {
            HookAction::Run
        } else {
            HookAction::NotExecutable
        }),
{
    if !exists {
        return HookAction::Missing;
    }
    match mode {
        Some(m) => {
            assert((m & 0o111 != 0) == (m & 0o100 != 0 || m & 0o010 != 0 || m & 0o001 != 0))
                by (bit_vector);
            if m & 0o111 != 0 {
                HookAction::Run
            } else {
                HookAction::NotExecutable
            }
        },
        None => HookAction::NotExecutable,
    }
}

} // verus!
