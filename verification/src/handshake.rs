//! Waiting for a replay to come up after the client was asked to watch it:
//! the decisions taken on each poll of the game process and the Replay
//! API, and the message shown for the outcome.
use vstd::prelude::*;
use crate::text::{decimal, decimal_vec, push_all, push_str, string_of};

verus! {

/// How a wait for the Replay API ended.
#[derive(Debug)]
pub enum WatchOutcome {
    /// The game process is up and the Replay API answers.
    Ready { pid: u32 },
    /// The game process appeared and died; the game log tail is attached.
    Crashed { log: String },
    /// Time ran out; what was seen and the game log tail are attached.
    Timeout { log: String },
}

/// The message shown for an outcome.
pub open spec fn outcome_text(out: WatchOutcome) -> Seq<char> {
    match out {
        WatchOutcome::Ready { pid } => "Replay API up (game pid "@ + decimal(pid as nat) + ")."@,
        WatchOutcome::Crashed { log } => "Game launched then died before the Replay API came up.\n"@
            + log@,
        WatchOutcome::Timeout { log } => "Timed out waiting for Replay API.\n"@ + log@,
    }
}

/// The message shown for an outcome.
pub fn format_outcome(out: &WatchOutcome) -> (s: String)
    ensures
        s@ == outcome_text(*out),
{
    let mut v: Vec<char> = Vec::new();
    match out {
        WatchOutcome::Ready { pid } => {
            push_str(&mut v, "Replay API up (game pid ");
            let d = decimal_vec(*pid as u64);
            push_all(&mut v, &d);
            push_str(&mut v, ").");
        },
        WatchOutcome::Crashed { log } => {
            push_str(&mut v, "Game launched then died before the Replay API came up.\n");
            push_str(&mut v, log.as_str());
        },
        WatchOutcome::Timeout { log } => {
            push_str(&mut v, "Timed out waiting for Replay API.\n");
            push_str(&mut v, log.as_str());
        },
    }
    string_of(&v)
}

/// What the waiter remembers between polls.
#[derive(Clone, Copy, Debug, PartialEq, Eq, Structural)]
pub struct WatchState {
    /// A game process was seen at some poll.
    pub saw_pid: bool,
    /// The last game process id seen (0 before any).
    pub last_pid: u32,
}

/// What to do after a poll.
#[derive(Clone, Copy, Debug, PartialEq, Eq, Structural)]
pub enum WatchStep {
    /// The replay is up: stop with `Ready`.
    Ready { pid: u32 },
    /// The game process went away after it had been seen: stop with `Crashed`.
    Crashed,
    /// Sleep and poll again.
    Wait,
}

/// The state before the first poll.
pub fn watch_start() -> (st: WatchState)
    ensures
        st == (WatchState { saw_pid: false, last_pid: 0 }),
{
    WatchState { saw_pid: false, last_pid: 0 }
}

/// The decision after a poll.
pub open spec fn poll_step(st: WatchState, pid: Option<u32>, api_up: bool) -> WatchStep {
    match pid {
        Some(p) => if api_up {
            WatchStep::Ready { pid: p }
        } else {
            WatchStep::Wait
        },
        None => if st.saw_pid {
            WatchStep::Crashed
        } else {
            WatchStep::Wait
        },
    }
}

/// The state after a poll.
pub open spec fn poll_state(st: WatchState, pid: Option<u32>) -> WatchState {
    match pid {
        Some(p) => WatchState { saw_pid: true, last_pid: p },
        None => st,
    }
}

/// One poll: `pid` is the game process found, if any, and `api_up`
/// whether the Replay API answered (it is only asked while a game process
/// runs).  A running game whose API answers is ready; a game that was seen
/// and is gone has crashed; otherwise the wait goes on.
pub fn watch_poll(st: &mut WatchState, pid: Option<u32>, api_up: bool) -> (step: WatchStep)
    ensures
        step == poll_step(*old(st), pid, api_up),
        *final(st) == poll_state(*old(st), pid),
{
    match pid {
        Some(p) => {
            st.saw_pid = true;
            st.last_pid = p;
            if api_up {
                WatchStep::Ready { pid: p }
            } else {
                WatchStep::Wait
            }
        },
        None => {
            if st.saw_pid {
                WatchStep::Crashed
            } else {
                WatchStep::Wait
            }
        },
    }
}

/// When time has run out: the game crashed if it had been seen and no
/// game process runs now; otherwise the wait timed out.
pub fn watch_crashed_at_deadline(st: &WatchState, pid_now: Option<u32>) -> (crashed: bool)
    ensures
        crashed == (st.saw_pid && pid_now is None),
{
    st.saw_pid && pid_now.is_none()
}

pub open spec fn bool_text(b: bool) -> Seq<char> {
    if b {
        "true"@
    } else {
        "false"@
    }
}

/// The first line of a timeout log:
/// `waited <secs>s (saw_game=<bool> last_pid=<pid>)` and a line feed.
pub fn timeout_header(secs: u64, st: &WatchState) -> (s: String)
    ensures
        s@ == "waited "@ + decimal(secs as nat) + "s (saw_game="@ + bool_text(st.saw_pid)
            + " last_pid="@ + decimal(st.last_pid as nat) + ")\n"@,
{
    let mut v: Vec<char> = Vec::new();
    push_str(&mut v, "waited ");
    let d = decimal_vec(secs);
    push_all(&mut v, &d);
    push_str(&mut v, "s (saw_game=");
    if st.saw_pid {
        push_str(&mut v, "true");
    } else {
        push_str(&mut v, "false");
    }
    push_str(&mut v, " last_pid=");
    let p = decimal_vec(st.last_pid as u64);
    push_all(&mut v, &p);
    push_str(&mut v, ")\n");
    string_of(&v)
}

/// A wait ends `Ready` only for a running game whose API answered, and
/// `Crashed` only when a game seen before is gone: a poll without a game
/// process never reports ready, and before any game was seen nothing
/// crashes.
pub proof fn lemma_watch_verdicts(st: WatchState, pid: Option<u32>, api_up: bool)
    ensures
        poll_step(st, pid, api_up) is Ready ==> pid is Some && api_up && poll_step(st, pid, api_up)->pid
            == pid->0,
        poll_step(st, pid, api_up) is Crashed ==> st.saw_pid && pid is None,
        !st.saw_pid ==> !(poll_step(st, pid, api_up) is Crashed),
        poll_state(st, pid).saw_pid == (st.saw_pid || pid is Some),
{
}

} // verus!
