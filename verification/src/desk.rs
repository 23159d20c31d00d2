//! Decisions of the director desk that do not depend on floating-point
//! state: the desk's view of its link to the game (updated on every poll
//! of the Replay API, when a watch request ends, and when the user
//! recovers after a recording), whether a recording may start, and which
//! keyframe the next and previous keys select.
use vstd::prelude::*;
use crate::handshake::WatchOutcome;

verus! {

/// Whether a clip may be started: the Replay API answers, nothing is
/// recording, no earlier encode is hung and no watch request is pending.
pub fn can_record(connected: bool, recording: bool, rec_blocked: bool, lcu_busy: bool) -> (ok: bool)
    ensures
        ok == (connected && !recording && !rec_blocked && !lcu_busy),
{
    connected && !recording && !rec_blocked && !lcu_busy
}

/// The keyframe selected after stepping through `n` keyframes (ordered by
/// time) from the current selection: one forward or back, wrapping around;
/// with nothing selected, the first when going forward and the last when
/// going back.
pub open spec fn step_spec(n: nat, current: Option<nat>, forward: bool) -> nat {
    match current {
        Some(i) => if forward {
            ((i + 1) % n) as nat
        } else {
            ((i + n - 1) as nat % n) as nat
        },
        None => if forward {
            0
        } else {
            (n - 1) as nat
        },
    }
}

/// The index of the keyframe to select next.
pub fn step_selection(n: usize, current: Option<usize>, forward: bool) -> (r: usize)
    requires
        n > 0,
        current matches Some(i) ==> i < n,
    ensures
        r < n,
        r as nat == step_spec(n as nat, match current {
            Some(i) => Some(i as nat),
            None => None,
        }, forward),
{
    proof {
        lemma_step_facts(n as nat);
    }
    match current {
        Some(i) => {
            if forward {
                if i + 1 == n {
                    0
                } else {
                    i + 1
                }
            } else {
                if i == 0 {
                    n - 1
                } else {
                    i - 1
                }
            }
        },
        None => {
            if forward {
                0
            } else {
                n - 1
            }
        },
    }
}

proof fn lemma_step_facts(n: nat)
    requires
        n > 0,
    ensures
        forall|i: nat| i < n ==> #[trigger] step_spec(n, Some(i), true) == if i + 1 == n {
            0
        } else {
            i + 1
        },
        forall|i: nat| i < n ==> #[trigger] step_spec(n, Some(i), false) == if i == 0 {
            n - 1
        } else {
            i - 1
        },
{
    assert forall|i: nat| i < n implies #[trigger] step_spec(n, Some(i), true) == if i + 1 == n {
        0
    } else {
        i + 1
    } by {
        if i + 1 == n {
            vstd::arithmetic::div_mod::lemma_mod_self_0(n as int);
        } else {
            vstd::arithmetic::div_mod::lemma_small_mod(i + 1, n);
        }
    }
    assert forall|i: nat| i < n implies #[trigger] step_spec(n, Some(i), false) == if i == 0 {
        n - 1
    } else {
        i - 1
    } by {
        if i == 0 {
            vstd::arithmetic::div_mod::lemma_small_mod((n - 1) as nat, n);
        } else {
            vstd::arithmetic::div_mod::lemma_mod_add_multiples_vanish(i - 1, n as int);
            vstd::arithmetic::div_mod::lemma_small_mod((i - 1) as nat, n);
        }
    }
}

/// Stepping forward and then back returns to the same keyframe.
pub proof fn lemma_step_round_trip(n: nat, i: nat)
    requires
        i < n,
    ensures
        step_spec(n, Some(step_spec(n, Some(i), true)), false) == i,
{
    lemma_step_facts(n);
    let j = step_spec(n, Some(i), true);
    assert(j < n);
}

/// What the desk knows of its link to the game.
#[derive(Debug, Clone, Copy, PartialEq, Eq, Structural)]
pub struct Link {
    /// The last poll of the Replay API was answered.
    pub connected: bool,
    /// The Replay API lamp.
    pub api_ok: bool,
    /// The game process lamp.
    pub game_ok: bool,
    /// The API went down after a recording; nothing may be recorded or
    /// watched until it answers again or the user recovers.
    pub rec_blocked: bool,
    /// A recording was running at the last poll.
    pub was_recording: bool,
    /// A watch request to the League client is pending.
    pub lcu_busy: bool,
}

/// What to do after a poll the Replay API answered.
#[derive(Debug, Clone, Copy, PartialEq, Eq, Structural)]
pub enum UpNext {
    /// The recording just ended: look for the capture and report it.
    FinishCapture,
    /// Show the playback time and camera mode.
    ShowConnected,
    /// Leave the status line as it is.
    Quiet,
}

/// What to do after a poll the Replay API did not answer.
#[derive(Debug, Clone, Copy, PartialEq, Eq, Structural)]
pub enum DownNext {
    /// The API went down during or after a recording: look for the
    /// capture, and block recording and watching.
    FinishAfterDown,
    /// A watch is pending and the game process is up.
    GameStarting,
    /// A watch is pending and there is no game process yet.
    WaitingForProcess,
    /// No watch is pending and the game process is up.
    GameUp,
    /// Nothing is running.
    Idle,
}

/// The link, and what to do, after a poll the API answered with
/// `recording_now` telling whether a recording runs.
pub open spec fn poll_up_spec(l: Link, recording_now: bool) -> (Link, UpNext) {
    let next = if l.was_recording && !recording_now {
        UpNext::FinishCapture
    } else if !recording_now && !l.lcu_busy {
        UpNext::ShowConnected
    } else {
        UpNext::Quiet
    };
    (Link { connected: true, api_ok: true, rec_blocked: false, was_recording: recording_now, ..l }, next)
}

/// The link, and what to do, after a poll the API did not answer, with
/// `game_up` telling whether the game process runs.
pub open spec fn poll_down_spec(l: Link, game_up: bool) -> (Link, DownNext) {
    let base = Link { connected: false, api_ok: false, game_ok: game_up, ..l };
    if l.was_recording || l.rec_blocked {
        (Link { rec_blocked: true, was_recording: false, ..base }, DownNext::FinishAfterDown)
    } else if l.lcu_busy {
        (base, if game_up {
            DownNext::GameStarting
        } else {
            DownNext::WaitingForProcess
        })
    } else {
        (base, if game_up {
            DownNext::GameUp
        } else {
            DownNext::Idle
        })
    }
}

/// The link after a watch request ended with `out`.
pub open spec fn watch_done_spec(l: Link, out: WatchOutcome) -> Link {
    match out {
        WatchOutcome::Ready { .. } => Link {
            lcu_busy: false,
            game_ok: true,
            api_ok: true,
            rec_blocked: false,
            ..l
        },
        WatchOutcome::Crashed { .. } => Link { lcu_busy: false, game_ok: false, api_ok: false, ..l },
        WatchOutcome::Timeout { .. } => Link { lcu_busy: false, ..l },
    }
}

/// Whether a recording may start on this link while `recording_now`
/// tells whether one runs.
pub open spec fn may_record(l: Link, recording_now: bool) -> bool {
    l.connected && !recording_now && !l.rec_blocked && !l.lcu_busy
}

impl Link {
    /// The link before the first poll: nothing known, nothing pending.
    pub fn new() -> (l: Link)
        ensures
            !l.connected && !l.api_ok && !l.game_ok && !l.rec_blocked && !l.was_recording
                && !l.lcu_busy,
    {
        Link {
            connected: false,
            api_ok: false,
            game_ok: false,
            rec_blocked: false,
            was_recording: false,
            lcu_busy: false,
        }
    }

    /// A poll the Replay API answered; `recording_now` is what it said of
    /// the recording.
    pub fn poll_up(&mut self, recording_now: bool) -> (next: UpNext)
        ensures
            (*final(self), next) == poll_up_spec(*old(self), recording_now),
    {
        let next = if self.was_recording && !recording_now {
            UpNext::FinishCapture
        } else if !recording_now && !self.lcu_busy {
            UpNext::ShowConnected
        } else {
            UpNext::Quiet
        };
        self.connected = true;
        self.api_ok = true;
        self.rec_blocked = false;
        self.was_recording = recording_now;
        next
    }

    /// A poll the Replay API did not answer; `game_up` tells whether the
    /// game process runs.
    pub fn poll_down(&mut self, game_up: bool) -> (next: DownNext)
        ensures
            (*final(self), next) == poll_down_spec(*old(self), game_up),
    {
        self.connected = false;
        self.api_ok = false;
        self.game_ok = game_up;
        if self.was_recording || self.rec_blocked {
            self.rec_blocked = true;
            self.was_recording = false;
            DownNext::FinishAfterDown
        } else if self.lcu_busy {
            if game_up {
                DownNext::GameStarting
            } else {
                DownNext::WaitingForProcess
            }
        } else if game_up {
            DownNext::GameUp
        } else {
            DownNext::Idle
        }
    }

    /// A watch request ended.
    pub fn watch_done(&mut self, out: &WatchOutcome)
        ensures
            *final(self) == watch_done_spec(*old(self), *out),
    {
        self.lcu_busy = false;
        match out {
            WatchOutcome::Ready { .. } => {
                self.game_ok = true;
                self.api_ok = true;
                self.rec_blocked = false;
            },
            WatchOutcome::Crashed { .. } => {
                self.game_ok = false;
                self.api_ok = false;
            },
            WatchOutcome::Timeout { .. } => {},
        }
    }

    /// Asks to watch a replay: refused while the link is blocked after a
    /// recording, else the request is pending.
    pub fn begin_watch(&mut self) -> (ok: bool)
        ensures
            ok == !old(self).rec_blocked,
            ok ==> *final(self) == (Link { lcu_busy: true, ..*old(self) }),
            !ok ==> *final(self) == *old(self),
    {
        if self.rec_blocked {
            false
        } else {
            self.lcu_busy = true;
            true
        }
    }

    /// Asks to start a recording while `recording_now` tells whether one
    /// runs: refused unless a recording may start, else the desk notes
    /// that one runs.
    pub fn begin_recording(&mut self, recording_now: bool) -> (ok: bool)
        ensures
            ok == may_record(*old(self), recording_now),
            ok ==> *final(self) == (Link { was_recording: true, ..*old(self) }),
            !ok ==> *final(self) == *old(self),
    {
        if can_record(self.connected, recording_now, self.rec_blocked, self.lcu_busy) {
            self.was_recording = true;
            true
        } else {
            false
        }
    }

    /// The user recovered after a recording: the block is lifted.
    pub fn recover(&mut self)
        ensures
            *final(self) == (Link { rec_blocked: false, was_recording: false, ..*old(self) }),
    {
        self.rec_blocked = false;
        self.was_recording = false;
    }
}

/// Once the API went down after a recording, only an answered poll, a
/// watch that brought the API up, or the user's recovery lifts the block:
/// an unanswered poll, a watch that ended otherwise, and a refused or
/// accepted request keep it.
pub proof fn lemma_block_holds(l: Link, game_up: bool, out: WatchOutcome, recording_now: bool)
    requires
        l.rec_blocked,
    ensures
        poll_down_spec(l, game_up).0.rec_blocked,
        !(out is Ready) ==> watch_done_spec(l, out).rec_blocked,
        !may_record(l, recording_now),
{
}

/// A poll that finds the API gone while a recording ran blocks recording
/// and watching, and asks for the capture to be looked for.
pub proof fn lemma_down_after_recording_blocks(l: Link, game_up: bool, recording_now: bool)
    requires
        l.was_recording,
    ensures
        poll_down_spec(l, game_up).1 == DownNext::FinishAfterDown,
        poll_down_spec(l, game_up).0.rec_blocked,
        !may_record(poll_down_spec(l, game_up).0, recording_now),
{
}

/// An answered poll always lifts the block and shows the link up.
pub proof fn lemma_up_clears(l: Link, recording_now: bool)
    ensures
        poll_up_spec(l, recording_now).0.connected,
        !poll_up_spec(l, recording_now).0.rec_blocked,
        may_record(poll_up_spec(l, recording_now).0, false) == !l.lcu_busy,
{
}

} // verus!
