//! Global hotkeys read while League is the frontmost app: the key states
//! are sampled every few milliseconds, and a hotkey fires on the sample in
//! which its key goes down.  The sampling thread hands the hotkeys over a
//! channel.
use vstd::prelude::*;
use crate::detect::{find_sub, find_sub_exec, to_lowercase, unicode_lowercase};
use crate::text::chars_of;
use crate::bindings::Action;

verus! {

/// A hotkey the desk reacts to while League is frontmost.
#[derive(Debug, Clone, Copy, PartialEq, Eq, Structural)]
pub enum Hotkey {
    PlayPause,
    SeekBack,
    SeekFwd,
    Keyframe,
    PlaySeq,
    Undo,
    Redo,
}

/// One sample of the keys the hotkeys use.
#[derive(Debug, Clone, Copy, PartialEq, Eq, Structural)]
pub struct KeySample {
    pub space: bool,
    pub k: bool,
    pub left: bool,
    pub right: bool,
    pub enter: bool,
    pub z: bool,
    pub y: bool,
    /// Either command key.
    pub cmd: bool,
    /// Either shift key.
    pub shift: bool,
}

/// The key states of the previous sample.
#[derive(Debug, Clone, Copy, PartialEq, Eq, Structural)]
pub struct KeyMemory {
    pub space: bool,
    pub k: bool,
    pub left: bool,
    pub right: bool,
    pub enter: bool,
    pub z: bool,
    pub y: bool,
}

/// What is remembered of a sample.
pub open spec fn remember(s: KeySample) -> KeyMemory {
    KeyMemory { space: s.space, k: s.k, left: s.left, right: s.right, enter: s.enter, z: s.z, y: s.y }
}

/// Appends `h` when `cond` holds.
pub open spec fn push_if(fired: Seq<Hotkey>, cond: bool, h: Hotkey) -> Seq<Hotkey> {
    if cond {
        fired.push(h)
    } else {
        fired
    }
}

/// The hotkeys a sample fires, in this order: play/pause on Space going
/// down; keyframe on K going down without Cmd; seek back and forward on
/// the arrows; play sequence on Enter; undo on Z going down with Cmd and
/// without Shift; redo on Cmd+Shift+Z or Cmd+Y unless the same
/// combination was already held.  Nothing fires while League is not
/// frontmost.
pub open spec fn fired_hotkeys(prev: KeyMemory, frontmost: bool, now: KeySample) -> Seq<Hotkey> {
    if !frontmost {
        seq![]
    } else {
        let f0 = push_if(seq![], now.space && !prev.space, Hotkey::PlayPause);
        let f1 = push_if(f0, now.k && !prev.k && !now.cmd, Hotkey::Keyframe);
        let f2 = push_if(f1, now.left && !prev.left, Hotkey::SeekBack);
        let f3 = push_if(f2, now.right && !prev.right, Hotkey::SeekFwd);
        let f4 = push_if(f3, now.enter && !prev.enter, Hotkey::PlaySeq);
        let f5 = push_if(f4, now.z && !prev.z && now.cmd && !now.shift, Hotkey::Undo);
        push_if(
            f5,
            ((now.z && now.cmd && now.shift) || (now.y && now.cmd)) && !(prev.z && now.cmd && now.shift)
                && !(prev.y && now.cmd),
            Hotkey::Redo,
        )
    }
}

/// One sample: the hotkeys fired and the memory for the next sample.
/// While League is not frontmost the keys are still remembered, so a key
/// held when League comes to the front does not fire.
pub fn hotkey_step(memory: &mut KeyMemory, frontmost: bool, now: KeySample) -> (fired: Vec<Hotkey>)
    ensures
        fired@ == fired_hotkeys(*old(memory), frontmost, now),
        *final(memory) == remember(now),
{
    let prev = *memory;
    let mut fired: Vec<Hotkey> = Vec::new();
    *memory = KeyMemory {
        space: now.space,
        k: now.k,
        left: now.left,
        right: now.right,
        enter: now.enter,
        z: now.z,
        y: now.y,
    };
    if !frontmost {
        assert(fired@ =~= seq![]);
        return fired;
    }
    let ghost f0 = push_if(seq![], now.space && !prev.space, Hotkey::PlayPause);
    if now.space && !prev.space {
        fired.push(Hotkey::PlayPause);
    }
    assert(fired@ =~= f0);
    if now.k && !prev.k && !now.cmd {
        fired.push(Hotkey::Keyframe);
    }
    if now.left && !prev.left {
        fired.push(Hotkey::SeekBack);
    }
    if now.right && !prev.right {
        fired.push(Hotkey::SeekFwd);
    }
    if now.enter && !prev.enter {
        fired.push(Hotkey::PlaySeq);
    }
    if now.z && !prev.z && now.cmd && !now.shift {
        fired.push(Hotkey::Undo);
    }
    if ((now.z && now.cmd && now.shift) || (now.y && now.cmd)) && !(prev.z && now.cmd && now.shift) && !(
    prev.y && now.cmd) {
        fired.push(Hotkey::Redo);
    }
    fired
}

/// Each hotkey fires exactly on the frontmost sample in which its keys go
/// down: Space plays or pauses, K (without Cmd) sets a keyframe, the Left
/// arrow seeks back and the Right arrow forward, Enter plays the sequence,
/// Cmd+Z (without Shift) undoes, and Cmd+Shift+Z or Cmd+Y redoes unless
/// that combination was already held.  No hotkey fires twice in a sample.
pub proof fn lemma_hotkeys_follow_their_keys(prev: KeyMemory, frontmost: bool, now: KeySample)
    ensures
        fired_hotkeys(prev, frontmost, now).contains(Hotkey::PlayPause) <==> frontmost && now.space
            && !prev.space,
        fired_hotkeys(prev, frontmost, now).contains(Hotkey::Keyframe) <==> frontmost && now.k && !prev.k
            && !now.cmd,
        fired_hotkeys(prev, frontmost, now).contains(Hotkey::SeekBack) <==> frontmost && now.left
            && !prev.left,
        fired_hotkeys(prev, frontmost, now).contains(Hotkey::SeekFwd) <==> frontmost && now.right
            && !prev.right,
        fired_hotkeys(prev, frontmost, now).contains(Hotkey::PlaySeq) <==> frontmost && now.enter
            && !prev.enter,
        fired_hotkeys(prev, frontmost, now).contains(Hotkey::Undo) <==> frontmost && now.cmd && now.z
            && !prev.z && !now.shift,
        fired_hotkeys(prev, frontmost, now).contains(Hotkey::Redo) <==> frontmost && now.cmd && ((now.z
            && now.shift) || now.y) && !(prev.z && now.shift) && !prev.y,
        fired_hotkeys(prev, frontmost, now).no_duplicates(),
{
    let f = fired_hotkeys(prev, frontmost, now);
    let hs = seq![
        Hotkey::PlayPause,
        Hotkey::Keyframe,
        Hotkey::SeekBack,
        Hotkey::SeekFwd,
        Hotkey::PlaySeq,
        Hotkey::Undo,
        Hotkey::Redo,
    ];
    let cs = seq![
        frontmost && now.space && !prev.space,
        frontmost && now.k && !prev.k && !now.cmd,
        frontmost && now.left && !prev.left,
        frontmost && now.right && !prev.right,
        frontmost && now.enter && !prev.enter,
        frontmost && now.z && !prev.z && now.cmd && !now.shift,
        frontmost && ((now.z && now.cmd && now.shift) || (now.y && now.cmd)) && !(prev.z && now.cmd
            && now.shift) && !(prev.y && now.cmd),
    ];
    lemma_fired_prefix(prev, frontmost, now, hs, cs, 7);
    assert forall|h: Hotkey| f.contains(h) <==> checked(hs, cs, 7, h) by {
        if f.contains(h) {
            let j = choose|j: int| 0 <= j < f.len() && f[j] == h;
            assert(checked(hs, cs, 7, f[j]));
        }
        if checked(hs, cs, 7, h) {
            let k = choose|k: int| 0 <= k < 7 && hs[k] == h && cs[k];
            assert(f.contains(hs[k]));
        }
    }
    assert(hs[0] == Hotkey::PlayPause && hs[1] == Hotkey::Keyframe && hs[2] == Hotkey::SeekBack);
    assert(hs[3] == Hotkey::SeekFwd && hs[4] == Hotkey::PlaySeq && hs[5] == Hotkey::Undo && hs[6]
        == Hotkey::Redo);
}

/// Whether `h` is the hotkey of one of the first `n` checks whose condition holds.
pub open spec fn checked(hs: Seq<Hotkey>, cs: Seq<bool>, n: nat, h: Hotkey) -> bool {
    exists|k: int| 0 <= k < n && hs[k] == h && cs[k]
}

/// The hotkeys of the first `n` checks, in order, each with its condition.
pub open spec fn fired_first(hs: Seq<Hotkey>, cs: Seq<bool>, n: nat) -> Seq<Hotkey>
    decreases n,
{
    if n == 0 {
        seq![]
    } else {
        push_if(fired_first(hs, cs, (n - 1) as nat), cs[n - 1], hs[n - 1])
    }
}

proof fn lemma_fired_first(hs: Seq<Hotkey>, cs: Seq<bool>, n: nat)
    requires
        n <= hs.len(),
        n <= cs.len(),
        forall|i: int, j: int| 0 <= i < j < hs.len() ==> hs[i] != hs[j],
    ensures
        forall|j: int| 0 <= j < fired_first(hs, cs, n).len() ==> checked(hs, cs, n, #[trigger] fired_first(hs, cs, n)[j]),
        forall|k: int| 0 <= k < n && cs[k] ==> fired_first(hs, cs, n).contains(#[trigger] hs[k]),
        fired_first(hs, cs, n).no_duplicates(),
        forall|j: int, k: int|
            0 <= j < fired_first(hs, cs, n).len() && n <= k < hs.len() ==> fired_first(hs, cs, n)[j]
                != hs[k],
    decreases n,
{
    if n > 0 {
        let m = (n - 1) as nat;
        lemma_fired_first(hs, cs, m);
        let p = fired_first(hs, cs, m);
        let f = fired_first(hs, cs, n);
        assert forall|j: int| 0 <= j < f.len() implies checked(hs, cs, n, #[trigger] f[j]) by {
            if j < p.len() {
                assert(f[j] == p[j]);
                assert(checked(hs, cs, m, p[j]));
                let k = choose|k: int| 0 <= k < m && hs[k] == p[j] && cs[k];
            } else {
                assert(f[j] == hs[m as int]);
            }
        }
        if cs[m as int] {
            assert(fired_first(hs, cs, n) == p.push(hs[m as int]));
            assert(fired_first(hs, cs, n)[p.len() as int] == hs[m as int]);
            assert forall|k: int| 0 <= k < n && cs[k] implies fired_first(hs, cs, n).contains(#[trigger] hs[k]) by {
                if k < m {
                    let j = choose|j: int| 0 <= j < p.len() && p[j] == hs[k];
                    assert(fired_first(hs, cs, n)[j] == hs[k]);
                }
            }
        }
    }
}

#[verifier::spinoff_prover]
proof fn lemma_fired_prefix(
    prev: KeyMemory,
    frontmost: bool,
    now: KeySample,
    hs: Seq<Hotkey>,
    cs: Seq<bool>,
    n: nat,
)
    requires
        n == 7,
        hs == seq![
            Hotkey::PlayPause,
            Hotkey::Keyframe,
            Hotkey::SeekBack,
            Hotkey::SeekFwd,
            Hotkey::PlaySeq,
            Hotkey::Undo,
            Hotkey::Redo,
        ],
        cs == seq![
            frontmost && now.space && !prev.space,
            frontmost && now.k && !prev.k && !now.cmd,
            frontmost && now.left && !prev.left,
            frontmost && now.right && !prev.right,
            frontmost && now.enter && !prev.enter,
            frontmost && now.z && !prev.z && now.cmd && !now.shift,
            frontmost && ((now.z && now.cmd && now.shift) || (now.y && now.cmd)) && !(prev.z
                && now.cmd && now.shift) && !(prev.y && now.cmd),
        ],
    ensures
        fired_hotkeys(prev, frontmost, now) == fired_first(hs, cs, n),
        forall|j: int| 0 <= j < fired_hotkeys(prev, frontmost, now).len() ==> checked(hs, cs, n, #[trigger] fired_hotkeys(prev, frontmost, now)[j]),
        forall|k: int| 0 <= k < n && cs[k] ==> fired_hotkeys(prev, frontmost, now).contains(#[trigger] hs[k]),
        fired_hotkeys(prev, frontmost, now).no_duplicates(),
{
    lemma_fired_first(hs, cs, n);
    assert(fired_first(hs, cs, 0) =~= Seq::<Hotkey>::empty());
    assert(fired_first(hs, cs, 1) == push_if(fired_first(hs, cs, 0), cs[0], hs[0]));
    assert(fired_first(hs, cs, 2) == push_if(fired_first(hs, cs, 1), cs[1], hs[1]));
    assert(fired_first(hs, cs, 3) == push_if(fired_first(hs, cs, 2), cs[2], hs[2]));
    assert(fired_first(hs, cs, 4) == push_if(fired_first(hs, cs, 3), cs[3], hs[3]));
    assert(fired_first(hs, cs, 5) == push_if(fired_first(hs, cs, 4), cs[4], hs[4]));
    assert(fired_first(hs, cs, 6) == push_if(fired_first(hs, cs, 5), cs[5], hs[5]));
    assert(fired_first(hs, cs, 7) == push_if(fired_first(hs, cs, 6), cs[6], hs[6]));
    if !frontmost {
        assert(fired_first(hs, cs, 1) =~= seq![]);
        assert(fired_first(hs, cs, 7) =~= seq![]);
    }
}

/// A key that stays down fires once: when the same keys are sampled twice
/// in a row, the second sample fires nothing.
pub proof fn lemma_held_keys_fire_once(now: KeySample, frontmost: bool)
    ensures
        fired_hotkeys(remember(now), frontmost, now) == Seq::<Hotkey>::empty(),
{
    assert(fired_hotkeys(remember(now), frontmost, now) =~= Seq::<Hotkey>::empty());
}

/// Nothing fires while League is not the frontmost app.
pub proof fn lemma_quiet_in_background(prev: KeyMemory, now: KeySample)
    ensures
        fired_hotkeys(prev, false, now) == Seq::<Hotkey>::empty(),
{
    assert(fired_hotkeys(prev, false, now) =~= Seq::<Hotkey>::empty());
}

/// Play/pause fires exactly on a frontmost sample in which Space goes down.
pub proof fn lemma_play_pause_on_press(prev: KeyMemory, frontmost: bool, now: KeySample)
    ensures
        fired_hotkeys(prev, frontmost, now).contains(Hotkey::PlayPause) <==> (frontmost && now.space
            && !prev.space),
{
    let f = fired_hotkeys(prev, frontmost, now);
    if frontmost && now.space && !prev.space {
        assert(f[0] == Hotkey::PlayPause);
    }
    if f.contains(Hotkey::PlayPause) {
        let i = choose|i: int| 0 <= i < f.len() && f[i] == Hotkey::PlayPause;
        if !(frontmost && now.space && !prev.space) {
            assert(f[i] != Hotkey::PlayPause);
        }
    }
}

/// `std::sync::mpsc::Receiver`, the receiving end of a channel.
#[verifier::external_type_specification]
#[verifier::external_body]
#[verifier::reject_recursive_types(T)]
pub struct ExReceiver<T>(std::sync::mpsc::Receiver<T>);

/// `std::sync::mpsc::TryRecvError`, why nothing was received.
#[verifier::external_type_specification]
#[verifier::external_body]
pub struct ExTryRecvError(std::sync::mpsc::TryRecvError);

/// `Receiver::try_recv`: the next hotkey sent, if one is waiting.  What it
/// returns depends on the sending thread, so nothing is stated of it.
#[verifier::external_body]
fn receiver_try_recv(rx: &std::sync::mpsc::Receiver<Hotkey>) -> (r: Result<
    Hotkey,
    std::sync::mpsc::TryRecvError,
>) {
    rx.try_recv()
}

/// The receiving end of the hotkey thread's channel.
pub struct HotkeyBus {
    rx: std::sync::mpsc::Receiver<Hotkey>,
}

impl HotkeyBus {
    /// The channel end the bus reads from.
    pub closed spec fn receiver(&self) -> std::sync::mpsc::Receiver<Hotkey> {
        self.rx
    }

    /// A bus reading from the given channel end.
    pub fn from_receiver(rx: std::sync::mpsc::Receiver<Hotkey>) -> (b: HotkeyBus)
        ensures
            b.receiver() == rx,
    {
        HotkeyBus { rx }
    }

    /// The next hotkey fired, if one is waiting; an empty or closed channel
    /// gives none.
    pub fn try_recv(&self) -> Option<Hotkey> {
        received(receiver_try_recv(&self.rx))
    }
}

/// What a receive attempt yields: the hotkey sent, or none when the
/// channel was empty or closed.
pub fn received(r: Result<Hotkey, std::sync::mpsc::TryRecvError>) -> (o: Option<Hotkey>)
    ensures
        o == match r {
            Ok(k) => Some(k),
            Err(_) => None::<Hotkey>,
        },
{
    match r {
        Ok(k) => Some(k),
        Err(_) => None,
    }
}

/// Whether the front application's description, lower-cased, names League.
pub open spec fn names_league(info: Seq<char>) -> bool {
    let l = unicode_lowercase(info);
    find_sub(l, "league of legends"@) is Some || find_sub(l, "leagueoflegends"@) is Some
}

/// Whether the description of the frontmost application (what
/// `lsappinfo info -only name front` prints) is League's.
pub fn league_in_front(info: &str) -> (b: bool)
    ensures
        b == names_league(info@),
{
    let l = to_lowercase(info);
    let lv = chars_of(l.as_str());
    let a = chars_of("league of legends");
    let b = chars_of("leagueoflegends");
    find_sub_exec(&lv, &a).is_some() || find_sub_exec(&lv, &b).is_some()
}

/// The desk action a global hotkey stands for.
pub open spec fn hotkey_action(h: Hotkey) -> Action {
    match h {
        Hotkey::PlayPause => Action::PlayPause,
        Hotkey::SeekBack => Action::SeekBack,
        Hotkey::SeekFwd => Action::SeekFwd,
        Hotkey::Keyframe => Action::Keyframe,
        Hotkey::PlaySeq => Action::PlaySeq,
        Hotkey::Undo => Action::Undo,
        Hotkey::Redo => Action::Redo,
    }
}

impl Hotkey {
    /// The desk action this hotkey stands for.
    pub fn action(self) -> (a: Action)
        ensures
            a == hotkey_action(self),
    {
        match self {
            Hotkey::PlayPause => Action::PlayPause,
            Hotkey::SeekBack => Action::SeekBack,
            Hotkey::SeekFwd => Action::SeekFwd,
            Hotkey::Keyframe => Action::Keyframe,
            Hotkey::PlaySeq => Action::PlaySeq,
            Hotkey::Undo => Action::Undo,
            Hotkey::Redo => Action::Redo,
        }
    }
}

} // verus!
