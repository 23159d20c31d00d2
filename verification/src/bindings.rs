//! Key bindings: the actions a key chord can trigger, their stable ids and
//! default chords, parsing of chord text such as `Cmd+Shift+Z` into a
//! macOS virtual key code with modifiers, and the user's binding table.
use vstd::prelude::*;
use crate::text::{
    chars_of, eq_chars, first_index, is_ws, lemma_first_index, lemma_first_index_bounds, lower, lower_vec,
    split_on, split_vec, trim, trim_vec,
};

verus! {

/// Something a key chord can trigger.
#[derive(Clone, Copy, Debug, PartialEq, Eq, Structural, Hash, PartialOrd, Ord)]
pub enum Action {
    PlayPause,
    SeekBack,
    SeekFwd,
    Keyframe,
    PlaySeq,
    Undo,
    Redo,
    ToggleHud,
    ToggleFow,
    ToggleAttach,
    TimeMinus5,
    TimePlus5,
    RecordToggle,
    Cinematic,
    Gameplay,
    NextKf,
    PrevKf,
    DeleteKf,
}

/// A key (macOS virtual key code) with the modifiers that must be held.
#[derive(Clone, Copy, Debug, PartialEq, Eq, Structural)]
pub struct Chord {
    pub key: u16,
    pub cmd: bool,
    pub shift: bool,
    pub alt: bool,
    pub ctrl: bool,
}

/// Every action, in the order the key desk lists them.
pub open spec fn all_actions() -> Seq<Action> {
    seq![
        Action::PlayPause,
        Action::SeekBack,
        Action::SeekFwd,
        Action::Keyframe,
        Action::PlaySeq,
        Action::Undo,
        Action::Redo,
        Action::ToggleHud,
        Action::ToggleFow,
        Action::ToggleAttach,
        Action::TimeMinus5,
        Action::TimePlus5,
        Action::RecordToggle,
        Action::Cinematic,
        Action::Gameplay,
        Action::NextKf,
        Action::PrevKf,
        Action::DeleteKf,
    ]
}

/// The id under which an action's chord is stored in the settings.
pub open spec fn action_id(a: Action) -> Seq<char> {
    match a {
        Action::PlayPause => "play_pause"@,
        Action::SeekBack => "seek_back"@,
        Action::SeekFwd => "seek_fwd"@,
        Action::Keyframe => "keyframe"@,
        Action::PlaySeq => "play_seq"@,
        Action::Undo => "undo"@,
        Action::Redo => "redo"@,
        Action::ToggleHud => "toggle_hud"@,
        Action::ToggleFow => "toggle_fow"@,
        Action::ToggleAttach => "toggle_attach"@,
        Action::TimeMinus5 => "time_minus_5"@,
        Action::TimePlus5 => "time_plus_5"@,
        Action::RecordToggle => "record_toggle"@,
        Action::Cinematic => "cinematic"@,
        Action::Gameplay => "gameplay"@,
        Action::NextKf => "next_kf"@,
        Action::PrevKf => "prev_kf"@,
        Action::DeleteKf => "delete_kf"@,
    }
}

/// The label the key desk shows for an action.
pub open spec fn action_label(a: Action) -> Seq<char> {
    match a {
        Action::PlayPause => "Play / Pause"@,
        Action::SeekBack => "Seek −5s"@,
        Action::SeekFwd => "Seek +5s"@,
        Action::Keyframe => "Camera keyframe"@,
        Action::PlaySeq => "Play sequence"@,
        Action::Undo => "Undo"@,
        Action::Redo => "Redo"@,
        Action::ToggleHud => "Toggle game HUD"@,
        Action::ToggleFow => "Toggle fog of war"@,
        Action::ToggleAttach => "Toggle camera attach"@,
        Action::TimeMinus5 => "Time −5s"@,
        Action::TimePlus5 => "Time +5s"@,
        Action::RecordToggle => "Start / stop record"@,
        Action::Cinematic => "Cinematic preset"@,
        Action::Gameplay => "Gameplay preset"@,
        Action::NextKf => "Next keyframe"@,
        Action::PrevKf => "Previous keyframe"@,
        Action::DeleteKf => "Delete selected keyframe"@,
    }
}

/// The chord an action has until the user remaps it.
pub open spec fn action_default_chord(a: Action) -> Seq<char> {
    match a {
        Action::PlayPause => "Space"@,
        Action::SeekBack => "Left"@,
        Action::SeekFwd => "Right"@,
        Action::Keyframe => "K"@,
        Action::PlaySeq => "Enter"@,
        Action::Undo => "Cmd+Z"@,
        Action::Redo => "Cmd+Shift+Z"@,
        Action::ToggleHud => "H"@,
        Action::ToggleFow => "F"@,
        Action::ToggleAttach => "A"@,
        Action::TimeMinus5 => "Shift+Left"@,
        Action::TimePlus5 => "Shift+Right"@,
        Action::RecordToggle => "R"@,
        Action::Cinematic => "Shift+C"@,
        Action::Gameplay => "Shift+G"@,
        Action::NextKf => "]"@,
        Action::PrevKf => "["@,
        Action::DeleteKf => "Delete"@,
    }
}

/// The first action of `acts` with the given id.
pub open spec fn find_action(acts: Seq<Action>, id: Seq<char>) -> Option<Action>
    decreases acts.len(),
{
    if acts.len() == 0 {
        None
    } else if action_id(acts[0]) == id {
        Some(acts[0])
    } else {
        find_action(acts.drop_first(), id)
    }
}

/// The macOS virtual key code of a lower-case key name.
pub open spec fn key_table(n: Seq<char>) -> Option<u16> {
    if key_table_0(n) is Some {
        key_table_0(n)
    }     else if key_table_1(n) is Some {
        key_table_1(n)
    }     else if key_table_2(n) is Some {
        key_table_2(n)
    }     else if key_table_3(n) is Some {
        key_table_3(n)
    }     else if key_table_4(n) is Some {
        key_table_4(n)
    }     else if key_table_5(n) is Some {
        key_table_5(n)
    } else {
        key_table_6(n)
    }
}

pub open spec fn key_table_0(n: Seq<char>) -> Option<u16> {
    if n == seq!['s', 'p', 'a', 'c', 'e'] {
        Some(49)
    }     else if n == seq!['e', 'n', 't', 'e', 'r'] {
        Some(36)
    }     else if n == seq!['r', 'e', 't', 'u', 'r', 'n'] {
        Some(36)
    }     else if n == seq!['l', 'e', 'f', 't'] {
        Some(123)
    }     else if n == seq!['a', 'r', 'r', 'o', 'w', 'l', 'e', 'f', 't'] {
        Some(123)
    }     else if n == seq!['r', 'i', 'g', 'h', 't'] {
        Some(124)
    }     else if n == seq!['a', 'r', 'r', 'o', 'w', 'r', 'i', 'g', 'h', 't'] {
        Some(124)
    }     else if n == seq!['d', 'o', 'w', 'n'] {
        Some(125)
    }     else if n == seq!['a', 'r', 'r', 'o', 'w', 'd', 'o', 'w', 'n'] {
        Some(125)
    }     else if n == seq!['u', 'p'] {
        Some(126)
    }     else if n == seq!['a', 'r', 'r', 'o', 'w', 'u', 'p'] {
        Some(126)
    }     else if n == seq!['d', 'e', 'l', 'e', 't', 'e'] {
        Some(51)
    } else {
        None
    }
}

pub open spec fn key_table_1(n: Seq<char>) -> Option<u16> {
    if n == seq!['b', 'a', 'c', 'k', 's', 'p', 'a', 'c', 'e'] {
        Some(51)
    }     else if n == seq!['f', 'w', 'd', 'd', 'e', 'l', 'e', 't', 'e'] {
        Some(117)
    }     else if n == seq!['f', 'o', 'r', 'w', 'a', 'r', 'd', 'd', 'e', 'l', 'e', 't', 'e'] {
        Some(117)
    }     else if n == seq!['e', 's', 'c', 'a', 'p', 'e'] {
        Some(53)
    }     else if n == seq!['e', 's', 'c'] {
        Some(53)
    }     else if n == seq!['t', 'a', 'b'] {
        Some(48)
    }     else if n == seq!['a'] {
        Some(0)
    }     else if n == seq!['s'] {
        Some(1)
    }     else if n == seq!['d'] {
        Some(2)
    }     else if n == seq!['f'] {
        Some(3)
    }     else if n == seq!['h'] {
        Some(4)
    }     else if n == seq!['g'] {
        Some(5)
    } else {
        None
    }
}

pub open spec fn key_table_2(n: Seq<char>) -> Option<u16> {
    if n == seq!['z'] {
        Some(6)
    }     else if n == seq!['x'] {
        Some(7)
    }     else if n == seq!['c'] {
        Some(8)
    }     else if n == seq!['v'] {
        Some(9)
    }     else if n == seq!['b'] {
        Some(11)
    }     else if n == seq!['q'] {
        Some(12)
    }     else if n == seq!['w'] {
        Some(13)
    }     else if n == seq!['e'] {
        Some(14)
    }     else if n == seq!['r'] {
        Some(15)
    }     else if n == seq!['y'] {
        Some(16)
    }     else if n == seq!['t'] {
        Some(17)
    }     else if n == seq!['1'] {
        Some(18)
    } else {
        None
    }
}

pub open spec fn key_table_3(n: Seq<char>) -> Option<u16> {
    if n == seq!['2'] {
        Some(19)
    }     else if n == seq!['3'] {
        Some(20)
    }     else if n == seq!['4'] {
        Some(21)
    }     else if n == seq!['6'] {
        Some(22)
    }     else if n == seq!['5'] {
        Some(23)
    }     else if n == seq!['='] {
        Some(24)
    }     else if n == seq!['e', 'q', 'u', 'a', 'l'] {
        Some(24)
    }     else if n == seq!['9'] {
        Some(25)
    }     else if n == seq!['7'] {
        Some(26)
    }     else if n == seq!['-'] {
        Some(27)
    }     else if n == seq!['m', 'i', 'n', 'u', 's'] {
        Some(27)
    }     else if n == seq!['8'] {
        Some(28)
    } else {
        None
    }
}

pub open spec fn key_table_4(n: Seq<char>) -> Option<u16> {
    if n == seq!['0'] {
        Some(29)
    }     else if n == seq![']'] {
        Some(30)
    }     else if n == seq!['r', 'i', 'g', 'h', 't', 'b', 'r', 'a', 'c', 'k', 'e', 't'] {
        Some(30)
    }     else if n == seq!['o'] {
        Some(31)
    }     else if n == seq!['u'] {
        Some(32)
    }     else if n == seq!['['] {
        Some(33)
    }     else if n == seq!['l', 'e', 'f', 't', 'b', 'r', 'a', 'c', 'k', 'e', 't'] {
        Some(33)
    }     else if n == seq!['i'] {
        Some(34)
    }     else if n == seq!['p'] {
        Some(35)
    }     else if n == seq!['l'] {
        Some(37)
    }     else if n == seq!['j'] {
        Some(38)
    }     else if n == seq!['\''] {
        Some(39)
    } else {
        None
    }
}

pub open spec fn key_table_5(n: Seq<char>) -> Option<u16> {
    if n == seq!['q', 'u', 'o', 't', 'e'] {
        Some(39)
    }     else if n == seq!['k'] {
        Some(40)
    }     else if n == seq![';'] {
        Some(41)
    }     else if n == seq!['s', 'e', 'm', 'i', 'c', 'o', 'l', 'o', 'n'] {
        Some(41)
    }     else if n == seq!['\\'] {
        Some(42)
    }     else if n == seq!['b', 'a', 'c', 'k', 's', 'l', 'a', 's', 'h'] {
        Some(42)
    }     else if n == seq![','] {
        Some(43)
    }     else if n == seq!['c', 'o', 'm', 'm', 'a'] {
        Some(43)
    }     else if n == seq!['/'] {
        Some(44)
    }     else if n == seq!['s', 'l', 'a', 's', 'h'] {
        Some(44)
    }     else if n == seq!['n'] {
        Some(45)
    }     else if n == seq!['m'] {
        Some(46)
    } else {
        None
    }
}

pub open spec fn key_table_6(n: Seq<char>) -> Option<u16> {
    if n == seq!['.'] {
        Some(47)
    }     else if n == seq!['p', 'e', 'r', 'i', 'o', 'd'] {
        Some(47)
    }     else if n == seq!['`'] {
        Some(50)
    }     else if n == seq!['b', 'a', 'c', 'k', 'q', 'u', 'o', 't', 'e'] {
        Some(50)
    } else {
        None
    }
}


/// The key code of a key name, in any ASCII case.
pub open spec fn key_code_of(name: Seq<char>) -> Option<u16> {
    key_table(lower(name))
}

/// The state of chord parsing after some of the `+`-separated parts.
#[derive(Clone, Copy)]
pub struct ChordAcc {
    pub key: Option<u16>,
    pub cmd: bool,
    pub shift: bool,
    pub alt: bool,
    pub ctrl: bool,
}

pub open spec fn is_cmd_name(p: Seq<char>) -> bool {
    p == seq!['c', 'm', 'd'] || p == seq!['c', 'o', 'm', 'm', 'a', 'n', 'd'] || p == seq!['s', 'u', 'p', 'e', 'r'] || p == seq!['m', 'e', 't', 'a']
}

pub open spec fn is_shift_name(p: Seq<char>) -> bool {
    p == seq!['s', 'h', 'i', 'f', 't']
}

pub open spec fn is_alt_name(p: Seq<char>) -> bool {
    p == seq!['a', 'l', 't'] || p == seq!['o', 'p', 't', 'i', 'o', 'n']
}

pub open spec fn is_ctrl_name(p: Seq<char>) -> bool {
    p == seq!['c', 't', 'r', 'l'] || p == seq!['c', 'o', 'n', 't', 'r', 'o', 'l']
}

/// One part of a chord: blank parts are skipped, modifier names set their
/// modifier, any other part must be a key name and sets the key.
pub open spec fn chord_part(acc: ChordAcc, part: Seq<char>) -> Option<ChordAcc> {
    let p = trim(part);
    if p.len() == 0 {
        Some(acc)
    } else {
        let lp = lower(p);
        if is_cmd_name(lp) {
            Some(ChordAcc { cmd: true, ..acc })
        } else if is_shift_name(lp) {
            Some(ChordAcc { shift: true, ..acc })
        } else if is_alt_name(lp) {
            Some(ChordAcc { alt: true, ..acc })
        } else if is_ctrl_name(lp) {
            Some(ChordAcc { ctrl: true, ..acc })
        } else {
            match key_code_of(lp) {
                Some(k) => Some(ChordAcc { key: Some(k), ..acc }),
                None => None,
            }
        }
    }
}

pub open spec fn chord_init() -> ChordAcc {
    ChordAcc { key: None, cmd: false, shift: false, alt: false, ctrl: false }
}

/// Chord parsing after the first `n` parts; `None` once a part is no key name.
pub open spec fn chord_fold(parts: Seq<Seq<char>>, n: nat) -> Option<ChordAcc>
    decreases n,
{
    if n == 0 {
        Some(chord_init())
    } else {
        match chord_fold(parts, (n - 1) as nat) {
            Some(acc) => chord_part(acc, parts[n - 1]),
            None => None,
        }
    }
}

/// The chord a text such as `Cmd+Shift+Z` denotes: parts separated by
/// `+`, modifiers in any order, and a key; the last key named wins.
pub open spec fn chord_of_text(raw: Seq<char>) -> Option<Chord> {
    let parts = split_on(raw, '+');
    match chord_fold(parts, parts.len()) {
        Some(acc) => match acc.key {
            Some(k) => Some(
                Chord { key: k, cmd: acc.cmd, shift: acc.shift, alt: acc.alt, ctrl: acc.ctrl },
            ),
            None => None,
        },
        None => None,
    }
}

impl Action {
    /// The id under which the action's chord is stored.
    pub fn id(self) -> (s: &'static str)
        ensures
            s@ == action_id(self),
    {
        match self {
            Action::PlayPause => "play_pause",
            Action::SeekBack => "seek_back",
            Action::SeekFwd => "seek_fwd",
            Action::Keyframe => "keyframe",
            Action::PlaySeq => "play_seq",
            Action::Undo => "undo",
            Action::Redo => "redo",
            Action::ToggleHud => "toggle_hud",
            Action::ToggleFow => "toggle_fow",
            Action::ToggleAttach => "toggle_attach",
            Action::TimeMinus5 => "time_minus_5",
            Action::TimePlus5 => "time_plus_5",
            Action::RecordToggle => "record_toggle",
            Action::Cinematic => "cinematic",
            Action::Gameplay => "gameplay",
            Action::NextKf => "next_kf",
            Action::PrevKf => "prev_kf",
            Action::DeleteKf => "delete_kf",
        }
    }

    /// The label the key desk shows.
    pub fn label(self) -> (s: &'static str)
        ensures
            s@ == action_label(self),
    {
        match self {
            Action::PlayPause => "Play / Pause",
            Action::SeekBack => "Seek −5s",
            Action::SeekFwd => "Seek +5s",
            Action::Keyframe => "Camera keyframe",
            Action::PlaySeq => "Play sequence",
            Action::Undo => "Undo",
            Action::Redo => "Redo",
            Action::ToggleHud => "Toggle game HUD",
            Action::ToggleFow => "Toggle fog of war",
            Action::ToggleAttach => "Toggle camera attach",
            Action::TimeMinus5 => "Time −5s",
            Action::TimePlus5 => "Time +5s",
            Action::RecordToggle => "Start / stop record",
            Action::Cinematic => "Cinematic preset",
            Action::Gameplay => "Gameplay preset",
            Action::NextKf => "Next keyframe",
            Action::PrevKf => "Previous keyframe",
            Action::DeleteKf => "Delete selected keyframe",
        }
    }

    /// The chord the action has until the user remaps it.
    pub fn default_chord(self) -> (s: &'static str)
        ensures
            s@ == action_default_chord(self),
    {
        match self {
            Action::PlayPause => "Space",
            Action::SeekBack => "Left",
            Action::SeekFwd => "Right",
            Action::Keyframe => "K",
            Action::PlaySeq => "Enter",
            Action::Undo => "Cmd+Z",
            Action::Redo => "Cmd+Shift+Z",
            Action::ToggleHud => "H",
            Action::ToggleFow => "F",
            Action::ToggleAttach => "A",
            Action::TimeMinus5 => "Shift+Left",
            Action::TimePlus5 => "Shift+Right",
            Action::RecordToggle => "R",
            Action::Cinematic => "Shift+C",
            Action::Gameplay => "Shift+G",
            Action::NextKf => "]",
            Action::PrevKf => "[",
            Action::DeleteKf => "Delete",
        }
    }

    /// Every action, in the order the key desk lists them.
    pub fn all() -> (v: Vec<Action>)
        ensures
            v@ == all_actions(),
    {
        let v = vec![
            Action::PlayPause,
            Action::SeekBack,
            Action::SeekFwd,
            Action::Keyframe,
            Action::PlaySeq,
            Action::Undo,
            Action::Redo,
            Action::ToggleHud,
            Action::ToggleFow,
            Action::ToggleAttach,
            Action::TimeMinus5,
            Action::TimePlus5,
            Action::RecordToggle,
            Action::Cinematic,
            Action::Gameplay,
            Action::NextKf,
            Action::PrevKf,
            Action::DeleteKf,
        ];
        assert(v@ =~= all_actions());
        v
    }

    /// The action stored under an id, if any.
    pub fn from_id(id: &str) -> (r: Option<Action>)
        ensures
            r == find_action(all_actions(), id@),
    {
        let all = Action::all();
        let idv = chars_of(id);
        let ghost acts = all_actions();
        assert(acts.skip(0) =~= acts);
        for i in 0..all.len()
            invariant
                all@ == acts,
                acts == all_actions(),
                idv@ == id@,
                find_action(acts, id@) == find_action(acts.skip(i as int), id@),
        {
            let a = all[i];
            let cand = chars_of(a.id());
            assert(acts.skip(i as int)[0] == a);
            assert(acts.skip(i as int).drop_first() =~= acts.skip(i + 1));
            if eq_chars(&cand, &idv) {
                return Some(a);
            }
        }
        assert(acts.skip(all.len() as int).len() == 0);
        None
    }
}

/// The key code of a lower-case key name.
fn key_table_exec(n: &Vec<char>) -> (r: Option<u16>)
    ensures
        r == key_table(n@),
{
    let r0 = key_table_exec_0(n);
    if r0.is_some() {
        return r0;
    }
    let r1 = key_table_exec_1(n);
    if r1.is_some() {
        return r1;
    }
    let r2 = key_table_exec_2(n);
    if r2.is_some() {
        return r2;
    }
    let r3 = key_table_exec_3(n);
    if r3.is_some() {
        return r3;
    }
    let r4 = key_table_exec_4(n);
    if r4.is_some() {
        return r4;
    }
    let r5 = key_table_exec_5(n);
    if r5.is_some() {
        return r5;
    }
    let r6 = key_table_exec_6(n);
    if r6.is_some() {
        return r6;
    }
    None
}

fn key_table_exec_0(n: &Vec<char>) -> (r: Option<u16>)
    ensures
        r == key_table_0(n@),
{
    let k0 = vec!['s', 'p', 'a', 'c', 'e'];
    assert(k0@ =~= seq!['s', 'p', 'a', 'c', 'e']);
    if eq_chars(n, &k0) {
        return Some(49);
    }
    let k1 = vec!['e', 'n', 't', 'e', 'r'];
    assert(k1@ =~= seq!['e', 'n', 't', 'e', 'r']);
    if eq_chars(n, &k1) {
        return Some(36);
    }
    let k2 = vec!['r', 'e', 't', 'u', 'r', 'n'];
    assert(k2@ =~= seq!['r', 'e', 't', 'u', 'r', 'n']);
    if eq_chars(n, &k2) {
        return Some(36);
    }
    let k3 = vec!['l', 'e', 'f', 't'];
    assert(k3@ =~= seq!['l', 'e', 'f', 't']);
    if eq_chars(n, &k3) {
        return Some(123);
    }
    let k4 = vec!['a', 'r', 'r', 'o', 'w', 'l', 'e', 'f', 't'];
    assert(k4@ =~= seq!['a', 'r', 'r', 'o', 'w', 'l', 'e', 'f', 't']);
    if eq_chars(n, &k4) {
        return Some(123);
    }
    let k5 = vec!['r', 'i', 'g', 'h', 't'];
    assert(k5@ =~= seq!['r', 'i', 'g', 'h', 't']);
    if eq_chars(n, &k5) {
        return Some(124);
    }
    let k6 = vec!['a', 'r', 'r', 'o', 'w', 'r', 'i', 'g', 'h', 't'];
    assert(k6@ =~= seq!['a', 'r', 'r', 'o', 'w', 'r', 'i', 'g', 'h', 't']);
    if eq_chars(n, &k6) {
        return Some(124);
    }
    let k7 = vec!['d', 'o', 'w', 'n'];
    assert(k7@ =~= seq!['d', 'o', 'w', 'n']);
    if eq_chars(n, &k7) {
        return Some(125);
    }
    let k8 = vec!['a', 'r', 'r', 'o', 'w', 'd', 'o', 'w', 'n'];
    assert(k8@ =~= seq!['a', 'r', 'r', 'o', 'w', 'd', 'o', 'w', 'n']);
    if eq_chars(n, &k8) {
        return Some(125);
    }
    let k9 = vec!['u', 'p'];
    assert(k9@ =~= seq!['u', 'p']);
    if eq_chars(n, &k9) {
        return Some(126);
    }
    let k10 = vec!['a', 'r', 'r', 'o', 'w', 'u', 'p'];
    assert(k10@ =~= seq!['a', 'r', 'r', 'o', 'w', 'u', 'p']);
    if eq_chars(n, &k10) {
        return Some(126);
    }
    let k11 = vec!['d', 'e', 'l', 'e', 't', 'e'];
    assert(k11@ =~= seq!['d', 'e', 'l', 'e', 't', 'e']);
    if eq_chars(n, &k11) {
        return Some(51);
    }
    None
}

fn key_table_exec_1(n: &Vec<char>) -> (r: Option<u16>)
    ensures
        r == key_table_1(n@),
{
    let k0 = vec!['b', 'a', 'c', 'k', 's', 'p', 'a', 'c', 'e'];
    assert(k0@ =~= seq!['b', 'a', 'c', 'k', 's', 'p', 'a', 'c', 'e']);
    if eq_chars(n, &k0) {
        return Some(51);
    }
    let k1 = vec!['f', 'w', 'd', 'd', 'e', 'l', 'e', 't', 'e'];
    assert(k1@ =~= seq!['f', 'w', 'd', 'd', 'e', 'l', 'e', 't', 'e']);
    if eq_chars(n, &k1) {
        return Some(117);
    }
    let k2 = vec!['f', 'o', 'r', 'w', 'a', 'r', 'd', 'd', 'e', 'l', 'e', 't', 'e'];
    assert(k2@ =~= seq!['f', 'o', 'r', 'w', 'a', 'r', 'd', 'd', 'e', 'l', 'e', 't', 'e']);
    if eq_chars(n, &k2) {
        return Some(117);
    }
    let k3 = vec!['e', 's', 'c', 'a', 'p', 'e'];
    assert(k3@ =~= seq!['e', 's', 'c', 'a', 'p', 'e']);
    if eq_chars(n, &k3) {
        return Some(53);
    }
    let k4 = vec!['e', 's', 'c'];
    assert(k4@ =~= seq!['e', 's', 'c']);
    if eq_chars(n, &k4) {
        return Some(53);
    }
    let k5 = vec!['t', 'a', 'b'];
    assert(k5@ =~= seq!['t', 'a', 'b']);
    if eq_chars(n, &k5) {
        return Some(48);
    }
    let k6 = vec!['a'];
    assert(k6@ =~= seq!['a']);
    if eq_chars(n, &k6) {
        return Some(0);
    }
    let k7 = vec!['s'];
    assert(k7@ =~= seq!['s']);
    if eq_chars(n, &k7) {
        return Some(1);
    }
    let k8 = vec!['d'];
    assert(k8@ =~= seq!['d']);
    if eq_chars(n, &k8) {
        return Some(2);
    }
    let k9 = vec!['f'];
    assert(k9@ =~= seq!['f']);
    if eq_chars(n, &k9) {
        return Some(3);
    }
    let k10 = vec!['h'];
    assert(k10@ =~= seq!['h']);
    if eq_chars(n, &k10) {
        return Some(4);
    }
    let k11 = vec!['g'];
    assert(k11@ =~= seq!['g']);
    if eq_chars(n, &k11) {
        return Some(5);
    }
    None
}

fn key_table_exec_2(n: &Vec<char>) -> (r: Option<u16>)
    ensures
        r == key_table_2(n@),
{
    let k0 = vec!['z'];
    assert(k0@ =~= seq!['z']);
    if eq_chars(n, &k0) {
        return Some(6);
    }
    let k1 = vec!['x'];
    assert(k1@ =~= seq!['x']);
    if eq_chars(n, &k1) {
        return Some(7);
    }
    let k2 = vec!['c'];
    assert(k2@ =~= seq!['c']);
    if eq_chars(n, &k2) {
        return Some(8);
    }
    let k3 = vec!['v'];
    assert(k3@ =~= seq!['v']);
    if eq_chars(n, &k3) {
        return Some(9);
    }
    let k4 = vec!['b'];
    assert(k4@ =~= seq!['b']);
    if eq_chars(n, &k4) {
        return Some(11);
    }
    let k5 = vec!['q'];
    assert(k5@ =~= seq!['q']);
    if eq_chars(n, &k5) {
        return Some(12);
    }
    let k6 = vec!['w'];
    assert(k6@ =~= seq!['w']);
    if eq_chars(n, &k6) {
        return Some(13);
    }
    let k7 = vec!['e'];
    assert(k7@ =~= seq!['e']);
    if eq_chars(n, &k7) {
        return Some(14);
    }
    let k8 = vec!['r'];
    assert(k8@ =~= seq!['r']);
    if eq_chars(n, &k8) {
        return Some(15);
    }
    let k9 = vec!['y'];
    assert(k9@ =~= seq!['y']);
    if eq_chars(n, &k9) {
        return Some(16);
    }
    let k10 = vec!['t'];
    assert(k10@ =~= seq!['t']);
    if eq_chars(n, &k10) {
        return Some(17);
    }
    let k11 = vec!['1'];
    assert(k11@ =~= seq!['1']);
    if eq_chars(n, &k11) {
        return Some(18);
    }
    None
}

fn key_table_exec_3(n: &Vec<char>) -> (r: Option<u16>)
    ensures
        r == key_table_3(n@),
{
    let k0 = vec!['2'];
    assert(k0@ =~= seq!['2']);
    if eq_chars(n, &k0) {
        return Some(19);
    }
    let k1 = vec!['3'];
    assert(k1@ =~= seq!['3']);
    if eq_chars(n, &k1) {
        return Some(20);
    }
    let k2 = vec!['4'];
    assert(k2@ =~= seq!['4']);
    if eq_chars(n, &k2) {
        return Some(21);
    }
    let k3 = vec!['6'];
    assert(k3@ =~= seq!['6']);
    if eq_chars(n, &k3) {
        return Some(22);
    }
    let k4 = vec!['5'];
    assert(k4@ =~= seq!['5']);
    if eq_chars(n, &k4) {
        return Some(23);
    }
    let k5 = vec!['='];
    assert(k5@ =~= seq!['=']);
    if eq_chars(n, &k5) {
        return Some(24);
    }
    let k6 = vec!['e', 'q', 'u', 'a', 'l'];
    assert(k6@ =~= seq!['e', 'q', 'u', 'a', 'l']);
    if eq_chars(n, &k6) {
        return Some(24);
    }
    let k7 = vec!['9'];
    assert(k7@ =~= seq!['9']);
    if eq_chars(n, &k7) {
        return Some(25);
    }
    let k8 = vec!['7'];
    assert(k8@ =~= seq!['7']);
    if eq_chars(n, &k8) {
        return Some(26);
    }
    let k9 = vec!['-'];
    assert(k9@ =~= seq!['-']);
    if eq_chars(n, &k9) {
        return Some(27);
    }
    let k10 = vec!['m', 'i', 'n', 'u', 's'];
    assert(k10@ =~= seq!['m', 'i', 'n', 'u', 's']);
    if eq_chars(n, &k10) {
        return Some(27);
    }
    let k11 = vec!['8'];
    assert(k11@ =~= seq!['8']);
    if eq_chars(n, &k11) {
        return Some(28);
    }
    None
}

fn key_table_exec_4(n: &Vec<char>) -> (r: Option<u16>)
    ensures
        r == key_table_4(n@),
{
    let k0 = vec!['0'];
    assert(k0@ =~= seq!['0']);
    if eq_chars(n, &k0) {
        return Some(29);
    }
    let k1 = vec![']'];
    assert(k1@ =~= seq![']']);
    if eq_chars(n, &k1) {
        return Some(30);
    }
    let k2 = vec!['r', 'i', 'g', 'h', 't', 'b', 'r', 'a', 'c', 'k', 'e', 't'];
    assert(k2@ =~= seq!['r', 'i', 'g', 'h', 't', 'b', 'r', 'a', 'c', 'k', 'e', 't']);
    if eq_chars(n, &k2) {
        return Some(30);
    }
    let k3 = vec!['o'];
    assert(k3@ =~= seq!['o']);
    if eq_chars(n, &k3) {
        return Some(31);
    }
    let k4 = vec!['u'];
    assert(k4@ =~= seq!['u']);
    if eq_chars(n, &k4) {
        return Some(32);
    }
    let k5 = vec!['['];
    assert(k5@ =~= seq!['[']);
    if eq_chars(n, &k5) {
        return Some(33);
    }
    let k6 = vec!['l', 'e', 'f', 't', 'b', 'r', 'a', 'c', 'k', 'e', 't'];
    assert(k6@ =~= seq!['l', 'e', 'f', 't', 'b', 'r', 'a', 'c', 'k', 'e', 't']);
    if eq_chars(n, &k6) {
        return Some(33);
    }
    let k7 = vec!['i'];
    assert(k7@ =~= seq!['i']);
    if eq_chars(n, &k7) {
        return Some(34);
    }
    let k8 = vec!['p'];
    assert(k8@ =~= seq!['p']);
    if eq_chars(n, &k8) {
        return Some(35);
    }
    let k9 = vec!['l'];
    assert(k9@ =~= seq!['l']);
    if eq_chars(n, &k9) {
        return Some(37);
    }
    let k10 = vec!['j'];
    assert(k10@ =~= seq!['j']);
    if eq_chars(n, &k10) {
        return Some(38);
    }
    let k11 = vec!['\''];
    assert(k11@ =~= seq!['\'']);
    if eq_chars(n, &k11) {
        return Some(39);
    }
    None
}

fn key_table_exec_5(n: &Vec<char>) -> (r: Option<u16>)
    ensures
        r == key_table_5(n@),
{
    let k0 = vec!['q', 'u', 'o', 't', 'e'];
    assert(k0@ =~= seq!['q', 'u', 'o', 't', 'e']);
    if eq_chars(n, &k0) {
        return Some(39);
    }
    let k1 = vec!['k'];
    assert(k1@ =~= seq!['k']);
    if eq_chars(n, &k1) {
        return Some(40);
    }
    let k2 = vec![';'];
    assert(k2@ =~= seq![';']);
    if eq_chars(n, &k2) {
        return Some(41);
    }
    let k3 = vec!['s', 'e', 'm', 'i', 'c', 'o', 'l', 'o', 'n'];
    assert(k3@ =~= seq!['s', 'e', 'm', 'i', 'c', 'o', 'l', 'o', 'n']);
    if eq_chars(n, &k3) {
        return Some(41);
    }
    let k4 = vec!['\\'];
    assert(k4@ =~= seq!['\\']);
    if eq_chars(n, &k4) {
        return Some(42);
    }
    let k5 = vec!['b', 'a', 'c', 'k', 's', 'l', 'a', 's', 'h'];
    assert(k5@ =~= seq!['b', 'a', 'c', 'k', 's', 'l', 'a', 's', 'h']);
    if eq_chars(n, &k5) {
        return Some(42);
    }
    let k6 = vec![','];
    assert(k6@ =~= seq![',']);
    if eq_chars(n, &k6) {
        return Some(43);
    }
    let k7 = vec!['c', 'o', 'm', 'm', 'a'];
    assert(k7@ =~= seq!['c', 'o', 'm', 'm', 'a']);
    if eq_chars(n, &k7) {
        return Some(43);
    }
    let k8 = vec!['/'];
    assert(k8@ =~= seq!['/']);
    if eq_chars(n, &k8) {
        return Some(44);
    }
    let k9 = vec!['s', 'l', 'a', 's', 'h'];
    assert(k9@ =~= seq!['s', 'l', 'a', 's', 'h']);
    if eq_chars(n, &k9) {
        return Some(44);
    }
    let k10 = vec!['n'];
    assert(k10@ =~= seq!['n']);
    if eq_chars(n, &k10) {
        return Some(45);
    }
    let k11 = vec!['m'];
    assert(k11@ =~= seq!['m']);
    if eq_chars(n, &k11) {
        return Some(46);
    }
    None
}

fn key_table_exec_6(n: &Vec<char>) -> (r: Option<u16>)
    ensures
        r == key_table_6(n@),
{
    let k0 = vec!['.'];
    assert(k0@ =~= seq!['.']);
    if eq_chars(n, &k0) {
        return Some(47);
    }
    let k1 = vec!['p', 'e', 'r', 'i', 'o', 'd'];
    assert(k1@ =~= seq!['p', 'e', 'r', 'i', 'o', 'd']);
    if eq_chars(n, &k1) {
        return Some(47);
    }
    let k2 = vec!['`'];
    assert(k2@ =~= seq!['`']);
    if eq_chars(n, &k2) {
        return Some(50);
    }
    let k3 = vec!['b', 'a', 'c', 'k', 'q', 'u', 'o', 't', 'e'];
    assert(k3@ =~= seq!['b', 'a', 'c', 'k', 'q', 'u', 'o', 't', 'e']);
    if eq_chars(n, &k3) {
        return Some(50);
    }
    None
}


/// The macOS virtual key code of a key name (`Space`, `Left`, `K`, `]`, ...),
/// in any ASCII case.
pub fn key_code(name: &str) -> (r: Option<u16>)
    ensures
        r == key_code_of(name@),
{
    let v = chars_of(name);
    let n = lower_vec(&v);
    key_table_exec(&n)
}

fn is_one_of(p: &Vec<char>, names: &Vec<Vec<char>>) -> (b: bool)
    ensures
        b == exists|i: int| 0 <= i < names.len() && p@ == names@[i]@,
{
    for i in 0..names.len()
        invariant
            forall|j: int| 0 <= j < i ==> p@ != names@[j]@,
    {
        if eq_chars(p, &names[i]) {
            return true;
        }
    }
    false
}

fn chord_part_exec(acc: ChordAcc, part: &Vec<char>) -> (r: Option<ChordAcc>)
    ensures
        r == chord_part(acc, part@),
{
    let p = trim_vec(part);
    if p.len() == 0 {
        return Some(acc);
    }
    let lp = lower_vec(&p);
    let cmd_names: Vec<Vec<char>> = vec![vec!['c', 'm', 'd'], vec!['c', 'o', 'm', 'm', 'a', 'n', 'd'], vec!['s', 'u', 'p', 'e', 'r'], vec!['m', 'e', 't', 'a']];
    let shift_names: Vec<Vec<char>> = vec![vec!['s', 'h', 'i', 'f', 't']];
    let alt_names: Vec<Vec<char>> = vec![vec!['a', 'l', 't'], vec!['o', 'p', 't', 'i', 'o', 'n']];
    let ctrl_names: Vec<Vec<char>> = vec![vec!['c', 't', 'r', 'l'], vec!['c', 'o', 'n', 't', 'r', 'o', 'l']];
    proof {
        assert(is_cmd_name(lp@) == exists|i: int| 0 <= i < cmd_names.len() && lp@ == cmd_names@[i]@) by {
            if is_cmd_name(lp@) {
                if lp@ == cmd_names@[0]@ {} else if lp@ == cmd_names@[1]@ {} else if lp@ == cmd_names@[2]@ {} else {
                    assert(lp@ == cmd_names@[3]@);
                }
            }
        }
        assert(is_shift_name(lp@) == exists|i: int| 0 <= i < shift_names.len() && lp@ == shift_names@[i]@) by {
            if is_shift_name(lp@) {
                assert(lp@ == shift_names@[0]@);
            }
        }
        assert(is_alt_name(lp@) == exists|i: int| 0 <= i < alt_names.len() && lp@ == alt_names@[i]@) by {
            if is_alt_name(lp@) {
                if lp@ == alt_names@[0]@ {} else {
                    assert(lp@ == alt_names@[1]@);
                }
            }
        }
        assert(is_ctrl_name(lp@) == exists|i: int| 0 <= i < ctrl_names.len() && lp@ == ctrl_names@[i]@) by {
            if is_ctrl_name(lp@) {
                if lp@ == ctrl_names@[0]@ {} else {
                    assert(lp@ == ctrl_names@[1]@);
                }
            }
        }
    }
    if is_one_of(&lp, &cmd_names) {
        Some(ChordAcc { cmd: true, ..acc })
    } else if is_one_of(&lp, &shift_names) {
        Some(ChordAcc { shift: true, ..acc })
    } else if is_one_of(&lp, &alt_names) {
        Some(ChordAcc { alt: true, ..acc })
    } else if is_one_of(&lp, &ctrl_names) {
        Some(ChordAcc { ctrl: true, ..acc })
    } else {
        let ll = lower_vec(&lp);
        proof {
            assert(ll@ =~= lower(lp@));
        }
        match key_table_exec(&ll) {
            Some(k) => Some(ChordAcc { key: Some(k), ..acc }),
            None => None,
        }
    }
}

/// Parses chord text such as `Cmd+Shift+Z`, `Shift+Left` or `]`: parts are
/// separated by `+` and trimmed, blank parts are skipped, `cmd`/`command`/
/// `super`/`meta`, `shift`, `alt`/`option` and `ctrl`/`control` (any case)
/// set modifiers, and any other part must be a key name.  `None` when a
/// part is no key name or no key is named.
pub fn parse_chord(raw: &str) -> (r: Option<Chord>)
    ensures
        r == chord_of_text(raw@),
{
    let v = chars_of(raw);
    let parts = split_vec(&v, '+');
    let ghost views = parts@.map_values(|p: Vec<char>| p@);
    let mut acc = ChordAcc { key: None, cmd: false, shift: false, alt: false, ctrl: false };
    for i in 0..parts.len()
        invariant
            views == parts@.map_values(|p: Vec<char>| p@),
            views == split_on(raw@, '+'),
            chord_fold(views, i as nat) == Some(acc),
    {
        assert(views[i as int] == parts@[i as int]@);
        match chord_part_exec(acc, &parts[i]) {
            Some(a) => {
                acc = a;
            },
            None => {
                proof {
                    lemma_chord_fold_none(views, (i + 1) as nat);
                }
                return None;
            },
        }
    }
    match acc.key {
        Some(k) => Some(Chord { key: k, cmd: acc.cmd, shift: acc.shift, alt: acc.alt, ctrl: acc.ctrl }),
        None => None,
    }
}

proof fn lemma_chord_fold_none(parts: Seq<Seq<char>>, n: nat)
    requires
        n <= parts.len(),
        chord_fold(parts, n) is None,
    ensures
        chord_fold(parts, parts.len()) is None,
    decreases parts.len() - n,
{
    if n < parts.len() {
        lemma_chord_fold_none(parts, n + 1);
    }
}

/// Two spellings of one key, such as `enter` and `return` or `up` and
/// `arrowup`.
pub open spec fn same_key_names(a: Seq<char>, b: Seq<char>) -> bool {
    (a == seq!['='] && b == seq!['e', 'q', 'u', 'a', 'l']) || (a == seq!['e', 'q', 'u', 'a', 'l'] && b == seq!['=']) ||
    (a == seq!['-'] && b == seq!['m', 'i', 'n', 'u', 's']) || (a == seq!['m', 'i', 'n', 'u', 's'] && b == seq!['-']) ||
    (a == seq![']'] && b == seq!['r', 'i', 'g', 'h', 't', 'b', 'r', 'a', 'c', 'k', 'e', 't']) || (a == seq!['r', 'i', 'g', 'h', 't', 'b', 'r', 'a', 'c', 'k', 'e', 't'] && b == seq![']']) ||
    (a == seq!['['] && b == seq!['l', 'e', 'f', 't', 'b', 'r', 'a', 'c', 'k', 'e', 't']) || (a == seq!['l', 'e', 'f', 't', 'b', 'r', 'a', 'c', 'k', 'e', 't'] && b == seq!['[']) ||
    (a == seq!['e', 'n', 't', 'e', 'r'] && b == seq!['r', 'e', 't', 'u', 'r', 'n']) || (a == seq!['r', 'e', 't', 'u', 'r', 'n'] && b == seq!['e', 'n', 't', 'e', 'r']) ||
    (a == seq!['\''] && b == seq!['q', 'u', 'o', 't', 'e']) || (a == seq!['q', 'u', 'o', 't', 'e'] && b == seq!['\'']) ||
    (a == seq![';'] && b == seq!['s', 'e', 'm', 'i', 'c', 'o', 'l', 'o', 'n']) || (a == seq!['s', 'e', 'm', 'i', 'c', 'o', 'l', 'o', 'n'] && b == seq![';']) ||
    (a == seq!['\\'] && b == seq!['b', 'a', 'c', 'k', 's', 'l', 'a', 's', 'h']) || (a == seq!['b', 'a', 'c', 'k', 's', 'l', 'a', 's', 'h'] && b == seq!['\\']) ||
    (a == seq![','] && b == seq!['c', 'o', 'm', 'm', 'a']) || (a == seq!['c', 'o', 'm', 'm', 'a'] && b == seq![',']) ||
    (a == seq!['/'] && b == seq!['s', 'l', 'a', 's', 'h']) || (a == seq!['s', 'l', 'a', 's', 'h'] && b == seq!['/']) ||
    (a == seq!['.'] && b == seq!['p', 'e', 'r', 'i', 'o', 'd']) || (a == seq!['p', 'e', 'r', 'i', 'o', 'd'] && b == seq!['.']) ||
    (a == seq!['`'] && b == seq!['b', 'a', 'c', 'k', 'q', 'u', 'o', 't', 'e']) || (a == seq!['b', 'a', 'c', 'k', 'q', 'u', 'o', 't', 'e'] && b == seq!['`']) ||
    (a == seq!['d', 'e', 'l', 'e', 't', 'e'] && b == seq!['b', 'a', 'c', 'k', 's', 'p', 'a', 'c', 'e']) || (a == seq!['b', 'a', 'c', 'k', 's', 'p', 'a', 'c', 'e'] && b == seq!['d', 'e', 'l', 'e', 't', 'e']) ||
    (a == seq!['e', 's', 'c', 'a', 'p', 'e'] && b == seq!['e', 's', 'c']) || (a == seq!['e', 's', 'c'] && b == seq!['e', 's', 'c', 'a', 'p', 'e']) ||
    (a == seq!['f', 'w', 'd', 'd', 'e', 'l', 'e', 't', 'e'] && b == seq!['f', 'o', 'r', 'w', 'a', 'r', 'd', 'd', 'e', 'l', 'e', 't', 'e']) || (a == seq!['f', 'o', 'r', 'w', 'a', 'r', 'd', 'd', 'e', 'l', 'e', 't', 'e'] && b == seq!['f', 'w', 'd', 'd', 'e', 'l', 'e', 't', 'e']) ||
    (a == seq!['l', 'e', 'f', 't'] && b == seq!['a', 'r', 'r', 'o', 'w', 'l', 'e', 'f', 't']) || (a == seq!['a', 'r', 'r', 'o', 'w', 'l', 'e', 'f', 't'] && b == seq!['l', 'e', 'f', 't']) ||
    (a == seq!['r', 'i', 'g', 'h', 't'] && b == seq!['a', 'r', 'r', 'o', 'w', 'r', 'i', 'g', 'h', 't']) || (a == seq!['a', 'r', 'r', 'o', 'w', 'r', 'i', 'g', 'h', 't'] && b == seq!['r', 'i', 'g', 'h', 't']) ||
    (a == seq!['d', 'o', 'w', 'n'] && b == seq!['a', 'r', 'r', 'o', 'w', 'd', 'o', 'w', 'n']) || (a == seq!['a', 'r', 'r', 'o', 'w', 'd', 'o', 'w', 'n'] && b == seq!['d', 'o', 'w', 'n']) ||
    (a == seq!['u', 'p'] && b == seq!['a', 'r', 'r', 'o', 'w', 'u', 'p']) || (a == seq!['a', 'r', 'r', 'o', 'w', 'u', 'p'] && b == seq!['u', 'p'])
}

/// The key names each key code is given to.
spec fn key_group(c: u16, x: Seq<char>) -> bool {
    (c == 49 && x == seq!['s', 'p', 'a', 'c', 'e']) ||
    (c == 36 && x == seq!['e', 'n', 't', 'e', 'r']) ||
    (c == 36 && x == seq!['r', 'e', 't', 'u', 'r', 'n']) ||
    (c == 123 && x == seq!['l', 'e', 'f', 't']) ||
    (c == 123 && x == seq!['a', 'r', 'r', 'o', 'w', 'l', 'e', 'f', 't']) ||
    (c == 124 && x == seq!['r', 'i', 'g', 'h', 't']) ||
    (c == 124 && x == seq!['a', 'r', 'r', 'o', 'w', 'r', 'i', 'g', 'h', 't']) ||
    (c == 125 && x == seq!['d', 'o', 'w', 'n']) ||
    (c == 125 && x == seq!['a', 'r', 'r', 'o', 'w', 'd', 'o', 'w', 'n']) ||
    (c == 126 && x == seq!['u', 'p']) ||
    (c == 126 && x == seq!['a', 'r', 'r', 'o', 'w', 'u', 'p']) ||
    (c == 51 && x == seq!['d', 'e', 'l', 'e', 't', 'e']) ||
    (c == 51 && x == seq!['b', 'a', 'c', 'k', 's', 'p', 'a', 'c', 'e']) ||
    (c == 117 && x == seq!['f', 'w', 'd', 'd', 'e', 'l', 'e', 't', 'e']) ||
    (c == 117 && x == seq!['f', 'o', 'r', 'w', 'a', 'r', 'd', 'd', 'e', 'l', 'e', 't', 'e']) ||
    (c == 53 && x == seq!['e', 's', 'c', 'a', 'p', 'e']) ||
    (c == 53 && x == seq!['e', 's', 'c']) ||
    (c == 48 && x == seq!['t', 'a', 'b']) ||
    (c == 0 && x == seq!['a']) ||
    (c == 1 && x == seq!['s']) ||
    (c == 2 && x == seq!['d']) ||
    (c == 3 && x == seq!['f']) ||
    (c == 4 && x == seq!['h']) ||
    (c == 5 && x == seq!['g']) ||
    (c == 6 && x == seq!['z']) ||
    (c == 7 && x == seq!['x']) ||
    (c == 8 && x == seq!['c']) ||
    (c == 9 && x == seq!['v']) ||
    (c == 11 && x == seq!['b']) ||
    (c == 12 && x == seq!['q']) ||
    (c == 13 && x == seq!['w']) ||
    (c == 14 && x == seq!['e']) ||
    (c == 15 && x == seq!['r']) ||
    (c == 16 && x == seq!['y']) ||
    (c == 17 && x == seq!['t']) ||
    (c == 18 && x == seq!['1']) ||
    (c == 19 && x == seq!['2']) ||
    (c == 20 && x == seq!['3']) ||
    (c == 21 && x == seq!['4']) ||
    (c == 22 && x == seq!['6']) ||
    (c == 23 && x == seq!['5']) ||
    (c == 24 && x == seq!['=']) ||
    (c == 24 && x == seq!['e', 'q', 'u', 'a', 'l']) ||
    (c == 25 && x == seq!['9']) ||
    (c == 26 && x == seq!['7']) ||
    (c == 27 && x == seq!['-']) ||
    (c == 27 && x == seq!['m', 'i', 'n', 'u', 's']) ||
    (c == 28 && x == seq!['8']) ||
    (c == 29 && x == seq!['0']) ||
    (c == 30 && x == seq![']']) ||
    (c == 30 && x == seq!['r', 'i', 'g', 'h', 't', 'b', 'r', 'a', 'c', 'k', 'e', 't']) ||
    (c == 31 && x == seq!['o']) ||
    (c == 32 && x == seq!['u']) ||
    (c == 33 && x == seq!['[']) ||
    (c == 33 && x == seq!['l', 'e', 'f', 't', 'b', 'r', 'a', 'c', 'k', 'e', 't']) ||
    (c == 34 && x == seq!['i']) ||
    (c == 35 && x == seq!['p']) ||
    (c == 37 && x == seq!['l']) ||
    (c == 38 && x == seq!['j']) ||
    (c == 39 && x == seq!['\'']) ||
    (c == 39 && x == seq!['q', 'u', 'o', 't', 'e']) ||
    (c == 40 && x == seq!['k']) ||
    (c == 41 && x == seq![';']) ||
    (c == 41 && x == seq!['s', 'e', 'm', 'i', 'c', 'o', 'l', 'o', 'n']) ||
    (c == 42 && x == seq!['\\']) ||
    (c == 42 && x == seq!['b', 'a', 'c', 'k', 's', 'l', 'a', 's', 'h']) ||
    (c == 43 && x == seq![',']) ||
    (c == 43 && x == seq!['c', 'o', 'm', 'm', 'a']) ||
    (c == 44 && x == seq!['/']) ||
    (c == 44 && x == seq!['s', 'l', 'a', 's', 'h']) ||
    (c == 45 && x == seq!['n']) ||
    (c == 46 && x == seq!['m']) ||
    (c == 47 && x == seq!['.']) ||
    (c == 47 && x == seq!['p', 'e', 'r', 'i', 'o', 'd']) ||
    (c == 50 && x == seq!['`']) ||
    (c == 50 && x == seq!['b', 'a', 'c', 'k', 'q', 'u', 'o', 't', 'e'])
}

proof fn lemma_key_table_0_group(x: Seq<char>)
    ensures
        key_table_0(x) matches Some(c) ==> key_group(c, x),
{
}

proof fn lemma_key_table_1_group(x: Seq<char>)
    ensures
        key_table_1(x) matches Some(c) ==> key_group(c, x),
{
}

proof fn lemma_key_table_2_group(x: Seq<char>)
    ensures
        key_table_2(x) matches Some(c) ==> key_group(c, x),
{
}

proof fn lemma_key_table_3_group(x: Seq<char>)
    ensures
        key_table_3(x) matches Some(c) ==> key_group(c, x),
{
}

proof fn lemma_key_table_4_group(x: Seq<char>)
    ensures
        key_table_4(x) matches Some(c) ==> key_group(c, x),
{
}

proof fn lemma_key_table_5_group(x: Seq<char>)
    ensures
        key_table_5(x) matches Some(c) ==> key_group(c, x),
{
}

proof fn lemma_key_table_6_group(x: Seq<char>)
    ensures
        key_table_6(x) matches Some(c) ==> key_group(c, x),
{
}

proof fn lemma_key_table_group(x: Seq<char>)
    ensures
        key_table(x) matches Some(c) ==> key_group(c, x),
{
    lemma_key_table_0_group(x);
    lemma_key_table_1_group(x);
    lemma_key_table_2_group(x);
    lemma_key_table_3_group(x);
    lemma_key_table_4_group(x);
    lemma_key_table_5_group(x);
    lemma_key_table_6_group(x);
}

/// Different keys get different codes: two key names share a code only
/// when they are the same name (in any ASCII case) or two spellings of
/// one key.
pub proof fn lemma_key_codes_distinct(n: Seq<char>, m: Seq<char>)
    requires
        key_code_of(n) is Some,
        key_code_of(n) == key_code_of(m),
    ensures
        lower(n) == lower(m) || same_key_names(lower(n), lower(m)),
{
    lemma_key_table_group(lower(n));
    lemma_key_table_group(lower(m));
}

/// Different actions have different ids.
pub proof fn lemma_ids_distinct(a: Action, b: Action)
    ensures
        action_id(a) == action_id(b) ==> a == b,
{
    reveal_strlit("play_pause");
    reveal_strlit("seek_back");
    reveal_strlit("seek_fwd");
    reveal_strlit("keyframe");
    reveal_strlit("play_seq");
    reveal_strlit("undo");
    reveal_strlit("redo");
    reveal_strlit("toggle_hud");
    reveal_strlit("toggle_fow");
    reveal_strlit("toggle_attach");
    reveal_strlit("time_minus_5");
    reveal_strlit("time_plus_5");
    reveal_strlit("record_toggle");
    reveal_strlit("cinematic");
    reveal_strlit("gameplay");
    reveal_strlit("next_kf");
    reveal_strlit("prev_kf");
    reveal_strlit("delete_kf");
    if action_id(a) == action_id(b) {
        assert(action_id(a).len() == action_id(b).len());
        assert(action_id(a)[0] == action_id(b)[0]);
        assert(action_id(a).last() == action_id(b).last());
    }
}

/// Every action is listed once among all actions.
pub proof fn lemma_all_actions(a: Action)
    ensures
        all_actions().contains(a),
        all_actions().no_duplicates(),
{
    match a {
        Action::PlayPause => assert(all_actions()[0] == a),
        Action::SeekBack => assert(all_actions()[1] == a),
        Action::SeekFwd => assert(all_actions()[2] == a),
        Action::Keyframe => assert(all_actions()[3] == a),
        Action::PlaySeq => assert(all_actions()[4] == a),
        Action::Undo => assert(all_actions()[5] == a),
        Action::Redo => assert(all_actions()[6] == a),
        Action::ToggleHud => assert(all_actions()[7] == a),
        Action::ToggleFow => assert(all_actions()[8] == a),
        Action::ToggleAttach => assert(all_actions()[9] == a),
        Action::TimeMinus5 => assert(all_actions()[10] == a),
        Action::TimePlus5 => assert(all_actions()[11] == a),
        Action::RecordToggle => assert(all_actions()[12] == a),
        Action::Cinematic => assert(all_actions()[13] == a),
        Action::Gameplay => assert(all_actions()[14] == a),
        Action::NextKf => assert(all_actions()[15] == a),
        Action::PrevKf => assert(all_actions()[16] == a),
        Action::DeleteKf => assert(all_actions()[17] == a),
    }
}

proof fn lemma_find_action(acts: Seq<Action>, a: Action)
    requires
        acts.contains(a),
    ensures
        find_action(acts, action_id(a)) == Some(a),
    decreases acts.len(),
{
    lemma_ids_distinct(acts[0], a);
    if acts[0] != a {
        let i = choose|i: int| 0 <= i < acts.len() && acts[i] == a;
        assert(acts.drop_first()[i - 1] == a);
        lemma_find_action(acts.drop_first(), a);
    }
}

/// Looking an action up by its own id gives the action back.
pub proof fn lemma_from_id_round_trip(a: Action)
    ensures
        find_action(all_actions(), action_id(a)) == Some(a),
{
    lemma_all_actions(a);
    lemma_find_action(all_actions(), a);
}

proof fn lemma_plain_part(p: Seq<char>)
    requires
        p.len() > 0,
        !is_ws(p[0]),
        !is_ws(p.last()),
    ensures
        trim(p) == p,
{
}

proof fn lemma_default_playpause()
    ensures
        chord_of_text(action_default_chord(Action::PlayPause)) == Some(Chord { key: 49, cmd: false, shift: false, alt: false, ctrl: false }),
{
    reveal_strlit("Space");
    let s: Seq<char> = seq!['S', 'p', 'a', 'c', 'e'];
    assert(action_default_chord(Action::PlayPause) =~= s);
    let parts: Seq<Seq<char>> = seq![seq!['S', 'p', 'a', 'c', 'e']];
    let r0: Seq<char> = seq!['S', 'p', 'a', 'c', 'e'];
    lemma_first_index(r0, '+', 5);
    assert(split_on(r0, '+') =~= parts.skip(0));
    assert(parts.skip(0) =~= parts);
    assert(chord_fold(parts, 0) == Some(chord_init()));
    assert(parts[0] == seq!['S', 'p', 'a', 'c', 'e']);
    lemma_plain_part(seq!['S', 'p', 'a', 'c', 'e']);
    assert(lower(seq!['S', 'p', 'a', 'c', 'e']) =~= seq!['s', 'p', 'a', 'c', 'e']);
    assert(seq!['s', 'p', 'a', 'c', 'e'][1] != seq!['s', 'u', 'p', 'e', 'r'][1]);
    assert(seq!['s', 'p', 'a', 'c', 'e'][1] != seq!['s', 'h', 'i', 'f', 't'][1]);
    assert(!is_cmd_name(seq!['s', 'p', 'a', 'c', 'e']) && !is_shift_name(seq!['s', 'p', 'a', 'c', 'e']) && !is_alt_name(seq!['s', 'p', 'a', 'c', 'e']) && !is_ctrl_name(seq!['s', 'p', 'a', 'c', 'e']));
    assert(lower(seq!['s', 'p', 'a', 'c', 'e']) =~= seq!['s', 'p', 'a', 'c', 'e']);
    assert(seq!['s', 'p', 'a', 'c', 'e'][0] == 's');
    assert(key_table(seq!['s', 'p', 'a', 'c', 'e']) == Some(49u16));
    assert(chord_fold(parts, 1) == Some(ChordAcc { key: Some(49u16), cmd: false, shift: false, alt: false, ctrl: false }));
}

proof fn lemma_default_seekback()
    ensures
        chord_of_text(action_default_chord(Action::SeekBack)) == Some(Chord { key: 123, cmd: false, shift: false, alt: false, ctrl: false }),
{
    reveal_strlit("Left");
    let s: Seq<char> = seq!['L', 'e', 'f', 't'];
    assert(action_default_chord(Action::SeekBack) =~= s);
    let parts: Seq<Seq<char>> = seq![seq!['L', 'e', 'f', 't']];
    let r0: Seq<char> = seq!['L', 'e', 'f', 't'];
    lemma_first_index(r0, '+', 4);
    assert(split_on(r0, '+') =~= parts.skip(0));
    assert(parts.skip(0) =~= parts);
    assert(chord_fold(parts, 0) == Some(chord_init()));
    assert(parts[0] == seq!['L', 'e', 'f', 't']);
    lemma_plain_part(seq!['L', 'e', 'f', 't']);
    assert(lower(seq!['L', 'e', 'f', 't']) =~= seq!['l', 'e', 'f', 't']);
    assert(seq!['l', 'e', 'f', 't'][0] != seq!['m', 'e', 't', 'a'][0]);
    assert(seq!['l', 'e', 'f', 't'][0] != seq!['c', 't', 'r', 'l'][0]);
    assert(!is_cmd_name(seq!['l', 'e', 'f', 't']) && !is_shift_name(seq!['l', 'e', 'f', 't']) && !is_alt_name(seq!['l', 'e', 'f', 't']) && !is_ctrl_name(seq!['l', 'e', 'f', 't']));
    assert(lower(seq!['l', 'e', 'f', 't']) =~= seq!['l', 'e', 'f', 't']);
    assert(seq!['l', 'e', 'f', 't'][0] == 'l');
    assert(key_table(seq!['l', 'e', 'f', 't']) == Some(123u16));
    assert(chord_fold(parts, 1) == Some(ChordAcc { key: Some(123u16), cmd: false, shift: false, alt: false, ctrl: false }));
}

proof fn lemma_default_seekfwd()
    ensures
        chord_of_text(action_default_chord(Action::SeekFwd)) == Some(Chord { key: 124, cmd: false, shift: false, alt: false, ctrl: false }),
{
    reveal_strlit("Right");
    let s: Seq<char> = seq!['R', 'i', 'g', 'h', 't'];
    assert(action_default_chord(Action::SeekFwd) =~= s);
    let parts: Seq<Seq<char>> = seq![seq!['R', 'i', 'g', 'h', 't']];
    let r0: Seq<char> = seq!['R', 'i', 'g', 'h', 't'];
    lemma_first_index(r0, '+', 5);
    assert(split_on(r0, '+') =~= parts.skip(0));
    assert(parts.skip(0) =~= parts);
    assert(chord_fold(parts, 0) == Some(chord_init()));
    assert(parts[0] == seq!['R', 'i', 'g', 'h', 't']);
    lemma_plain_part(seq!['R', 'i', 'g', 'h', 't']);
    assert(lower(seq!['R', 'i', 'g', 'h', 't']) =~= seq!['r', 'i', 'g', 'h', 't']);
    assert(seq!['r', 'i', 'g', 'h', 't'][0] != seq!['s', 'u', 'p', 'e', 'r'][0]);
    assert(seq!['r', 'i', 'g', 'h', 't'][0] != seq!['s', 'h', 'i', 'f', 't'][0]);
    assert(!is_cmd_name(seq!['r', 'i', 'g', 'h', 't']) && !is_shift_name(seq!['r', 'i', 'g', 'h', 't']) && !is_alt_name(seq!['r', 'i', 'g', 'h', 't']) && !is_ctrl_name(seq!['r', 'i', 'g', 'h', 't']));
    assert(lower(seq!['r', 'i', 'g', 'h', 't']) =~= seq!['r', 'i', 'g', 'h', 't']);
    assert(seq!['r', 'i', 'g', 'h', 't'][0] == 'r');
    assert(key_table(seq!['r', 'i', 'g', 'h', 't']) == Some(124u16));
    assert(chord_fold(parts, 1) == Some(ChordAcc { key: Some(124u16), cmd: false, shift: false, alt: false, ctrl: false }));
}

proof fn lemma_default_keyframe()
    ensures
        chord_of_text(action_default_chord(Action::Keyframe)) == Some(Chord { key: 40, cmd: false, shift: false, alt: false, ctrl: false }),
{
    reveal_strlit("K");
    let s: Seq<char> = seq!['K'];
    assert(action_default_chord(Action::Keyframe) =~= s);
    let parts: Seq<Seq<char>> = seq![seq!['K']];
    let r0: Seq<char> = seq!['K'];
    lemma_first_index(r0, '+', 1);
    assert(split_on(r0, '+') =~= parts.skip(0));
    assert(parts.skip(0) =~= parts);
    assert(chord_fold(parts, 0) == Some(chord_init()));
    assert(parts[0] == seq!['K']);
    lemma_plain_part(seq!['K']);
    assert(lower(seq!['K']) =~= seq!['k']);
    assert(!is_cmd_name(seq!['k']) && !is_shift_name(seq!['k']) && !is_alt_name(seq!['k']) && !is_ctrl_name(seq!['k']));
    assert(lower(seq!['k']) =~= seq!['k']);
    assert(seq!['k'][0] == 'k');
    assert(key_table(seq!['k']) == Some(40u16));
    assert(chord_fold(parts, 1) == Some(ChordAcc { key: Some(40u16), cmd: false, shift: false, alt: false, ctrl: false }));
}

proof fn lemma_default_playseq()
    ensures
        chord_of_text(action_default_chord(Action::PlaySeq)) == Some(Chord { key: 36, cmd: false, shift: false, alt: false, ctrl: false }),
{
    reveal_strlit("Enter");
    let s: Seq<char> = seq!['E', 'n', 't', 'e', 'r'];
    assert(action_default_chord(Action::PlaySeq) =~= s);
    let parts: Seq<Seq<char>> = seq![seq!['E', 'n', 't', 'e', 'r']];
    let r0: Seq<char> = seq!['E', 'n', 't', 'e', 'r'];
    lemma_first_index(r0, '+', 5);
    assert(split_on(r0, '+') =~= parts.skip(0));
    assert(parts.skip(0) =~= parts);
    assert(chord_fold(parts, 0) == Some(chord_init()));
    assert(parts[0] == seq!['E', 'n', 't', 'e', 'r']);
    lemma_plain_part(seq!['E', 'n', 't', 'e', 'r']);
    assert(lower(seq!['E', 'n', 't', 'e', 'r']) =~= seq!['e', 'n', 't', 'e', 'r']);
    assert(seq!['e', 'n', 't', 'e', 'r'][0] != seq!['s', 'u', 'p', 'e', 'r'][0]);
    assert(seq!['e', 'n', 't', 'e', 'r'][0] != seq!['s', 'h', 'i', 'f', 't'][0]);
    assert(!is_cmd_name(seq!['e', 'n', 't', 'e', 'r']) && !is_shift_name(seq!['e', 'n', 't', 'e', 'r']) && !is_alt_name(seq!['e', 'n', 't', 'e', 'r']) && !is_ctrl_name(seq!['e', 'n', 't', 'e', 'r']));
    assert(lower(seq!['e', 'n', 't', 'e', 'r']) =~= seq!['e', 'n', 't', 'e', 'r']);
    assert(seq!['e', 'n', 't', 'e', 'r'][0] == 'e');
    assert(key_table(seq!['e', 'n', 't', 'e', 'r']) == Some(36u16));
    assert(chord_fold(parts, 1) == Some(ChordAcc { key: Some(36u16), cmd: false, shift: false, alt: false, ctrl: false }));
}

proof fn lemma_default_undo()
    ensures
        chord_of_text(action_default_chord(Action::Undo)) == Some(Chord { key: 6, cmd: true, shift: false, alt: false, ctrl: false }),
{
    reveal_strlit("Cmd+Z");
    let s: Seq<char> = seq!['C', 'm', 'd', '+', 'Z'];
    assert(action_default_chord(Action::Undo) =~= s);
    let parts: Seq<Seq<char>> = seq![seq!['C', 'm', 'd'], seq!['Z']];
    let r0: Seq<char> = seq!['C', 'm', 'd', '+', 'Z'];
    lemma_first_index(r0, '+', 3);
    assert(r0.take(3) =~= seq!['C', 'm', 'd']);
    assert(r0.skip(4) =~= seq!['Z']);
    let r1: Seq<char> = seq!['Z'];
    lemma_first_index(r1, '+', 1);
    assert(split_on(r1, '+') =~= parts.skip(1));
    assert(split_on(r0, '+') =~= parts.skip(0));
    assert(parts.skip(0) =~= parts);
    assert(chord_fold(parts, 0) == Some(chord_init()));
    assert(parts[0] == seq!['C', 'm', 'd']);
    lemma_plain_part(seq!['C', 'm', 'd']);
    assert(lower(seq!['C', 'm', 'd']) =~= seq!['c', 'm', 'd']);
    assert(chord_fold(parts, 1) == Some(ChordAcc { key: None, cmd: true, shift: false, alt: false, ctrl: false }));
    assert(parts[1] == seq!['Z']);
    lemma_plain_part(seq!['Z']);
    assert(lower(seq!['Z']) =~= seq!['z']);
    assert(!is_cmd_name(seq!['z']) && !is_shift_name(seq!['z']) && !is_alt_name(seq!['z']) && !is_ctrl_name(seq!['z']));
    assert(lower(seq!['z']) =~= seq!['z']);
    assert(seq!['z'][0] == 'z');
    assert(key_table(seq!['z']) == Some(6u16));
    assert(chord_fold(parts, 2) == Some(ChordAcc { key: Some(6u16), cmd: true, shift: false, alt: false, ctrl: false }));
}

proof fn lemma_default_redo()
    ensures
        chord_of_text(action_default_chord(Action::Redo)) == Some(Chord { key: 6, cmd: true, shift: true, alt: false, ctrl: false }),
{
    reveal_strlit("Cmd+Shift+Z");
    let s: Seq<char> = seq!['C', 'm', 'd', '+', 'S', 'h', 'i', 'f', 't', '+', 'Z'];
    assert(action_default_chord(Action::Redo) =~= s);
    let parts: Seq<Seq<char>> = seq![seq!['C', 'm', 'd'], seq!['S', 'h', 'i', 'f', 't'], seq!['Z']];
    let r0: Seq<char> = seq!['C', 'm', 'd', '+', 'S', 'h', 'i', 'f', 't', '+', 'Z'];
    lemma_first_index(r0, '+', 3);
    assert(r0.take(3) =~= seq!['C', 'm', 'd']);
    assert(r0.skip(4) =~= seq!['S', 'h', 'i', 'f', 't', '+', 'Z']);
    let r1: Seq<char> = seq!['S', 'h', 'i', 'f', 't', '+', 'Z'];
    lemma_first_index(r1, '+', 5);
    assert(r1.take(5) =~= seq!['S', 'h', 'i', 'f', 't']);
    assert(r1.skip(6) =~= seq!['Z']);
    let r2: Seq<char> = seq!['Z'];
    lemma_first_index(r2, '+', 1);
    assert(split_on(r2, '+') =~= parts.skip(2));
    assert(split_on(r1, '+') =~= parts.skip(1));
    assert(split_on(r0, '+') =~= parts.skip(0));
    assert(parts.skip(0) =~= parts);
    assert(chord_fold(parts, 0) == Some(chord_init()));
    assert(parts[0] == seq!['C', 'm', 'd']);
    lemma_plain_part(seq!['C', 'm', 'd']);
    assert(lower(seq!['C', 'm', 'd']) =~= seq!['c', 'm', 'd']);
    assert(chord_fold(parts, 1) == Some(ChordAcc { key: None, cmd: true, shift: false, alt: false, ctrl: false }));
    assert(parts[1] == seq!['S', 'h', 'i', 'f', 't']);
    lemma_plain_part(seq!['S', 'h', 'i', 'f', 't']);
    assert(lower(seq!['S', 'h', 'i', 'f', 't']) =~= seq!['s', 'h', 'i', 'f', 't']);
    assert(chord_fold(parts, 2) == Some(ChordAcc { key: None, cmd: true, shift: true, alt: false, ctrl: false }));
    assert(parts[2] == seq!['Z']);
    lemma_plain_part(seq!['Z']);
    assert(lower(seq!['Z']) =~= seq!['z']);
    assert(!is_cmd_name(seq!['z']) && !is_shift_name(seq!['z']) && !is_alt_name(seq!['z']) && !is_ctrl_name(seq!['z']));
    assert(lower(seq!['z']) =~= seq!['z']);
    assert(seq!['z'][0] == 'z');
    assert(key_table(seq!['z']) == Some(6u16));
    assert(chord_fold(parts, 3) == Some(ChordAcc { key: Some(6u16), cmd: true, shift: true, alt: false, ctrl: false }));
}

proof fn lemma_default_togglehud()
    ensures
        chord_of_text(action_default_chord(Action::ToggleHud)) == Some(Chord { key: 4, cmd: false, shift: false, alt: false, ctrl: false }),
{
    reveal_strlit("H");
    let s: Seq<char> = seq!['H'];
    assert(action_default_chord(Action::ToggleHud) =~= s);
    let parts: Seq<Seq<char>> = seq![seq!['H']];
    let r0: Seq<char> = seq!['H'];
    lemma_first_index(r0, '+', 1);
    assert(split_on(r0, '+') =~= parts.skip(0));
    assert(parts.skip(0) =~= parts);
    assert(chord_fold(parts, 0) == Some(chord_init()));
    assert(parts[0] == seq!['H']);
    lemma_plain_part(seq!['H']);
    assert(lower(seq!['H']) =~= seq!['h']);
    assert(!is_cmd_name(seq!['h']) && !is_shift_name(seq!['h']) && !is_alt_name(seq!['h']) && !is_ctrl_name(seq!['h']));
    assert(lower(seq!['h']) =~= seq!['h']);
    assert(seq!['h'][0] == 'h');
    assert(key_table(seq!['h']) == Some(4u16));
    assert(chord_fold(parts, 1) == Some(ChordAcc { key: Some(4u16), cmd: false, shift: false, alt: false, ctrl: false }));
}

proof fn lemma_default_togglefow()
    ensures
        chord_of_text(action_default_chord(Action::ToggleFow)) == Some(Chord { key: 3, cmd: false, shift: false, alt: false, ctrl: false }),
{
    reveal_strlit("F");
    let s: Seq<char> = seq!['F'];
    assert(action_default_chord(Action::ToggleFow) =~= s);
    let parts: Seq<Seq<char>> = seq![seq!['F']];
    let r0: Seq<char> = seq!['F'];
    lemma_first_index(r0, '+', 1);
    assert(split_on(r0, '+') =~= parts.skip(0));
    assert(parts.skip(0) =~= parts);
    assert(chord_fold(parts, 0) == Some(chord_init()));
    assert(parts[0] == seq!['F']);
    lemma_plain_part(seq!['F']);
    assert(lower(seq!['F']) =~= seq!['f']);
    assert(!is_cmd_name(seq!['f']) && !is_shift_name(seq!['f']) && !is_alt_name(seq!['f']) && !is_ctrl_name(seq!['f']));
    assert(lower(seq!['f']) =~= seq!['f']);
    assert(seq!['f'][0] == 'f');
    assert(key_table(seq!['f']) == Some(3u16));
    assert(chord_fold(parts, 1) == Some(ChordAcc { key: Some(3u16), cmd: false, shift: false, alt: false, ctrl: false }));
}

proof fn lemma_default_toggleattach()
    ensures
        chord_of_text(action_default_chord(Action::ToggleAttach)) == Some(Chord { key: 0, cmd: false, shift: false, alt: false, ctrl: false }),
{
    reveal_strlit("A");
    let s: Seq<char> = seq!['A'];
    assert(action_default_chord(Action::ToggleAttach) =~= s);
    let parts: Seq<Seq<char>> = seq![seq!['A']];
    let r0: Seq<char> = seq!['A'];
    lemma_first_index(r0, '+', 1);
    assert(split_on(r0, '+') =~= parts.skip(0));
    assert(parts.skip(0) =~= parts);
    assert(chord_fold(parts, 0) == Some(chord_init()));
    assert(parts[0] == seq!['A']);
    lemma_plain_part(seq!['A']);
    assert(lower(seq!['A']) =~= seq!['a']);
    assert(!is_cmd_name(seq!['a']) && !is_shift_name(seq!['a']) && !is_alt_name(seq!['a']) && !is_ctrl_name(seq!['a']));
    assert(lower(seq!['a']) =~= seq!['a']);
    assert(seq!['a'][0] == 'a');
    assert(key_table(seq!['a']) == Some(0u16));
    assert(chord_fold(parts, 1) == Some(ChordAcc { key: Some(0u16), cmd: false, shift: false, alt: false, ctrl: false }));
}

proof fn lemma_default_timeminus5()
    ensures
        chord_of_text(action_default_chord(Action::TimeMinus5)) == Some(Chord { key: 123, cmd: false, shift: true, alt: false, ctrl: false }),
{
    reveal_strlit("Shift+Left");
    let s: Seq<char> = seq!['S', 'h', 'i', 'f', 't', '+', 'L', 'e', 'f', 't'];
    assert(action_default_chord(Action::TimeMinus5) =~= s);
    let parts: Seq<Seq<char>> = seq![seq!['S', 'h', 'i', 'f', 't'], seq!['L', 'e', 'f', 't']];
    let r0: Seq<char> = seq!['S', 'h', 'i', 'f', 't', '+', 'L', 'e', 'f', 't'];
    lemma_first_index(r0, '+', 5);
    assert(r0.take(5) =~= seq!['S', 'h', 'i', 'f', 't']);
    assert(r0.skip(6) =~= seq!['L', 'e', 'f', 't']);
    let r1: Seq<char> = seq!['L', 'e', 'f', 't'];
    lemma_first_index(r1, '+', 4);
    assert(split_on(r1, '+') =~= parts.skip(1));
    assert(split_on(r0, '+') =~= parts.skip(0));
    assert(parts.skip(0) =~= parts);
    assert(chord_fold(parts, 0) == Some(chord_init()));
    assert(parts[0] == seq!['S', 'h', 'i', 'f', 't']);
    lemma_plain_part(seq!['S', 'h', 'i', 'f', 't']);
    assert(lower(seq!['S', 'h', 'i', 'f', 't']) =~= seq!['s', 'h', 'i', 'f', 't']);
    assert(chord_fold(parts, 1) == Some(ChordAcc { key: None, cmd: false, shift: true, alt: false, ctrl: false }));
    assert(parts[1] == seq!['L', 'e', 'f', 't']);
    lemma_plain_part(seq!['L', 'e', 'f', 't']);
    assert(lower(seq!['L', 'e', 'f', 't']) =~= seq!['l', 'e', 'f', 't']);
    assert(seq!['l', 'e', 'f', 't'][0] != seq!['m', 'e', 't', 'a'][0]);
    assert(seq!['l', 'e', 'f', 't'][0] != seq!['c', 't', 'r', 'l'][0]);
    assert(!is_cmd_name(seq!['l', 'e', 'f', 't']) && !is_shift_name(seq!['l', 'e', 'f', 't']) && !is_alt_name(seq!['l', 'e', 'f', 't']) && !is_ctrl_name(seq!['l', 'e', 'f', 't']));
    assert(lower(seq!['l', 'e', 'f', 't']) =~= seq!['l', 'e', 'f', 't']);
    assert(seq!['l', 'e', 'f', 't'][0] == 'l');
    assert(key_table(seq!['l', 'e', 'f', 't']) == Some(123u16));
    assert(chord_fold(parts, 2) == Some(ChordAcc { key: Some(123u16), cmd: false, shift: true, alt: false, ctrl: false }));
}

proof fn lemma_default_timeplus5()
    ensures
        chord_of_text(action_default_chord(Action::TimePlus5)) == Some(Chord { key: 124, cmd: false, shift: true, alt: false, ctrl: false }),
{
    reveal_strlit("Shift+Right");
    let s: Seq<char> = seq!['S', 'h', 'i', 'f', 't', '+', 'R', 'i', 'g', 'h', 't'];
    assert(action_default_chord(Action::TimePlus5) =~= s);
    let parts: Seq<Seq<char>> = seq![seq!['S', 'h', 'i', 'f', 't'], seq!['R', 'i', 'g', 'h', 't']];
    let r0: Seq<char> = seq!['S', 'h', 'i', 'f', 't', '+', 'R', 'i', 'g', 'h', 't'];
    lemma_first_index(r0, '+', 5);
    assert(r0.take(5) =~= seq!['S', 'h', 'i', 'f', 't']);
    assert(r0.skip(6) =~= seq!['R', 'i', 'g', 'h', 't']);
    let r1: Seq<char> = seq!['R', 'i', 'g', 'h', 't'];
    lemma_first_index(r1, '+', 5);
    assert(split_on(r1, '+') =~= parts.skip(1));
    assert(split_on(r0, '+') =~= parts.skip(0));
    assert(parts.skip(0) =~= parts);
    assert(chord_fold(parts, 0) == Some(chord_init()));
    assert(parts[0] == seq!['S', 'h', 'i', 'f', 't']);
    lemma_plain_part(seq!['S', 'h', 'i', 'f', 't']);
    assert(lower(seq!['S', 'h', 'i', 'f', 't']) =~= seq!['s', 'h', 'i', 'f', 't']);
    assert(chord_fold(parts, 1) == Some(ChordAcc { key: None, cmd: false, shift: true, alt: false, ctrl: false }));
    assert(parts[1] == seq!['R', 'i', 'g', 'h', 't']);
    lemma_plain_part(seq!['R', 'i', 'g', 'h', 't']);
    assert(lower(seq!['R', 'i', 'g', 'h', 't']) =~= seq!['r', 'i', 'g', 'h', 't']);
    assert(seq!['r', 'i', 'g', 'h', 't'][0] != seq!['s', 'u', 'p', 'e', 'r'][0]);
    assert(seq!['r', 'i', 'g', 'h', 't'][0] != seq!['s', 'h', 'i', 'f', 't'][0]);
    assert(!is_cmd_name(seq!['r', 'i', 'g', 'h', 't']) && !is_shift_name(seq!['r', 'i', 'g', 'h', 't']) && !is_alt_name(seq!['r', 'i', 'g', 'h', 't']) && !is_ctrl_name(seq!['r', 'i', 'g', 'h', 't']));
    assert(lower(seq!['r', 'i', 'g', 'h', 't']) =~= seq!['r', 'i', 'g', 'h', 't']);
    assert(seq!['r', 'i', 'g', 'h', 't'][0] == 'r');
    assert(key_table(seq!['r', 'i', 'g', 'h', 't']) == Some(124u16));
    assert(chord_fold(parts, 2) == Some(ChordAcc { key: Some(124u16), cmd: false, shift: true, alt: false, ctrl: false }));
}

proof fn lemma_default_recordtoggle()
    ensures
        chord_of_text(action_default_chord(Action::RecordToggle)) == Some(Chord { key: 15, cmd: false, shift: false, alt: false, ctrl: false }),
{
    reveal_strlit("R");
    let s: Seq<char> = seq!['R'];
    assert(action_default_chord(Action::RecordToggle) =~= s);
    let parts: Seq<Seq<char>> = seq![seq!['R']];
    let r0: Seq<char> = seq!['R'];
    lemma_first_index(r0, '+', 1);
    assert(split_on(r0, '+') =~= parts.skip(0));
    assert(parts.skip(0) =~= parts);
    assert(chord_fold(parts, 0) == Some(chord_init()));
    assert(parts[0] == seq!['R']);
    lemma_plain_part(seq!['R']);
    assert(lower(seq!['R']) =~= seq!['r']);
    assert(!is_cmd_name(seq!['r']) && !is_shift_name(seq!['r']) && !is_alt_name(seq!['r']) && !is_ctrl_name(seq!['r']));
    assert(lower(seq!['r']) =~= seq!['r']);
    assert(seq!['r'][0] == 'r');
    assert(key_table(seq!['r']) == Some(15u16));
    assert(chord_fold(parts, 1) == Some(ChordAcc { key: Some(15u16), cmd: false, shift: false, alt: false, ctrl: false }));
}

proof fn lemma_default_cinematic()
    ensures
        chord_of_text(action_default_chord(Action::Cinematic)) == Some(Chord { key: 8, cmd: false, shift: true, alt: false, ctrl: false }),
{
    reveal_strlit("Shift+C");
    let s: Seq<char> = seq!['S', 'h', 'i', 'f', 't', '+', 'C'];
    assert(action_default_chord(Action::Cinematic) =~= s);
    let parts: Seq<Seq<char>> = seq![seq!['S', 'h', 'i', 'f', 't'], seq!['C']];
    let r0: Seq<char> = seq!['S', 'h', 'i', 'f', 't', '+', 'C'];
    lemma_first_index(r0, '+', 5);
    assert(r0.take(5) =~= seq!['S', 'h', 'i', 'f', 't']);
    assert(r0.skip(6) =~= seq!['C']);
    let r1: Seq<char> = seq!['C'];
    lemma_first_index(r1, '+', 1);
    assert(split_on(r1, '+') =~= parts.skip(1));
    assert(split_on(r0, '+') =~= parts.skip(0));
    assert(parts.skip(0) =~= parts);
    assert(chord_fold(parts, 0) == Some(chord_init()));
    assert(parts[0] == seq!['S', 'h', 'i', 'f', 't']);
    lemma_plain_part(seq!['S', 'h', 'i', 'f', 't']);
    assert(lower(seq!['S', 'h', 'i', 'f', 't']) =~= seq!['s', 'h', 'i', 'f', 't']);
    assert(chord_fold(parts, 1) == Some(ChordAcc { key: None, cmd: false, shift: true, alt: false, ctrl: false }));
    assert(parts[1] == seq!['C']);
    lemma_plain_part(seq!['C']);
    assert(lower(seq!['C']) =~= seq!['c']);
    assert(!is_cmd_name(seq!['c']) && !is_shift_name(seq!['c']) && !is_alt_name(seq!['c']) && !is_ctrl_name(seq!['c']));
    assert(lower(seq!['c']) =~= seq!['c']);
    assert(seq!['c'][0] == 'c');
    assert(key_table(seq!['c']) == Some(8u16));
    assert(chord_fold(parts, 2) == Some(ChordAcc { key: Some(8u16), cmd: false, shift: true, alt: false, ctrl: false }));
}

proof fn lemma_default_gameplay()
    ensures
        chord_of_text(action_default_chord(Action::Gameplay)) == Some(Chord { key: 5, cmd: false, shift: true, alt: false, ctrl: false }),
{
    reveal_strlit("Shift+G");
    let s: Seq<char> = seq!['S', 'h', 'i', 'f', 't', '+', 'G'];
    assert(action_default_chord(Action::Gameplay) =~= s);
    let parts: Seq<Seq<char>> = seq![seq!['S', 'h', 'i', 'f', 't'], seq!['G']];
    let r0: Seq<char> = seq!['S', 'h', 'i', 'f', 't', '+', 'G'];
    lemma_first_index(r0, '+', 5);
    assert(r0.take(5) =~= seq!['S', 'h', 'i', 'f', 't']);
    assert(r0.skip(6) =~= seq!['G']);
    let r1: Seq<char> = seq!['G'];
    lemma_first_index(r1, '+', 1);
    assert(split_on(r1, '+') =~= parts.skip(1));
    assert(split_on(r0, '+') =~= parts.skip(0));
    assert(parts.skip(0) =~= parts);
    assert(chord_fold(parts, 0) == Some(chord_init()));
    assert(parts[0] == seq!['S', 'h', 'i', 'f', 't']);
    lemma_plain_part(seq!['S', 'h', 'i', 'f', 't']);
    assert(lower(seq!['S', 'h', 'i', 'f', 't']) =~= seq!['s', 'h', 'i', 'f', 't']);
    assert(chord_fold(parts, 1) == Some(ChordAcc { key: None, cmd: false, shift: true, alt: false, ctrl: false }));
    assert(parts[1] == seq!['G']);
    lemma_plain_part(seq!['G']);
    assert(lower(seq!['G']) =~= seq!['g']);
    assert(!is_cmd_name(seq!['g']) && !is_shift_name(seq!['g']) && !is_alt_name(seq!['g']) && !is_ctrl_name(seq!['g']));
    assert(lower(seq!['g']) =~= seq!['g']);
    assert(seq!['g'][0] == 'g');
    assert(key_table(seq!['g']) == Some(5u16));
    assert(chord_fold(parts, 2) == Some(ChordAcc { key: Some(5u16), cmd: false, shift: true, alt: false, ctrl: false }));
}

proof fn lemma_default_nextkf()
    ensures
        chord_of_text(action_default_chord(Action::NextKf)) == Some(Chord { key: 30, cmd: false, shift: false, alt: false, ctrl: false }),
{
    reveal_strlit("]");
    let s: Seq<char> = seq![']'];
    assert(action_default_chord(Action::NextKf) =~= s);
    let parts: Seq<Seq<char>> = seq![seq![']']];
    let r0: Seq<char> = seq![']'];
    lemma_first_index(r0, '+', 1);
    assert(split_on(r0, '+') =~= parts.skip(0));
    assert(parts.skip(0) =~= parts);
    assert(chord_fold(parts, 0) == Some(chord_init()));
    assert(parts[0] == seq![']']);
    lemma_plain_part(seq![']']);
    assert(lower(seq![']']) =~= seq![']']);
    assert(!is_cmd_name(seq![']']) && !is_shift_name(seq![']']) && !is_alt_name(seq![']']) && !is_ctrl_name(seq![']']));
    assert(lower(seq![']']) =~= seq![']']);
    assert(seq![']'][0] == ']');
    assert(key_table(seq![']']) == Some(30u16));
    assert(chord_fold(parts, 1) == Some(ChordAcc { key: Some(30u16), cmd: false, shift: false, alt: false, ctrl: false }));
}

proof fn lemma_default_prevkf()
    ensures
        chord_of_text(action_default_chord(Action::PrevKf)) == Some(Chord { key: 33, cmd: false, shift: false, alt: false, ctrl: false }),
{
    reveal_strlit("[");
    let s: Seq<char> = seq!['['];
    assert(action_default_chord(Action::PrevKf) =~= s);
    let parts: Seq<Seq<char>> = seq![seq!['[']];
    let r0: Seq<char> = seq!['['];
    lemma_first_index(r0, '+', 1);
    assert(split_on(r0, '+') =~= parts.skip(0));
    assert(parts.skip(0) =~= parts);
    assert(chord_fold(parts, 0) == Some(chord_init()));
    assert(parts[0] == seq!['[']);
    lemma_plain_part(seq!['[']);
    assert(lower(seq!['[']) =~= seq!['[']);
    assert(!is_cmd_name(seq!['[']) && !is_shift_name(seq!['[']) && !is_alt_name(seq!['[']) && !is_ctrl_name(seq!['[']));
    assert(lower(seq!['[']) =~= seq!['[']);
    assert(seq!['['][0] == '[');
    assert(key_table(seq!['[']) == Some(33u16));
    assert(chord_fold(parts, 1) == Some(ChordAcc { key: Some(33u16), cmd: false, shift: false, alt: false, ctrl: false }));
}

proof fn lemma_default_deletekf()
    ensures
        chord_of_text(action_default_chord(Action::DeleteKf)) == Some(Chord { key: 51, cmd: false, shift: false, alt: false, ctrl: false }),
{
    reveal_strlit("Delete");
    let s: Seq<char> = seq!['D', 'e', 'l', 'e', 't', 'e'];
    assert(action_default_chord(Action::DeleteKf) =~= s);
    let parts: Seq<Seq<char>> = seq![seq!['D', 'e', 'l', 'e', 't', 'e']];
    let r0: Seq<char> = seq!['D', 'e', 'l', 'e', 't', 'e'];
    lemma_first_index(r0, '+', 6);
    assert(split_on(r0, '+') =~= parts.skip(0));
    assert(parts.skip(0) =~= parts);
    assert(chord_fold(parts, 0) == Some(chord_init()));
    assert(parts[0] == seq!['D', 'e', 'l', 'e', 't', 'e']);
    lemma_plain_part(seq!['D', 'e', 'l', 'e', 't', 'e']);
    assert(lower(seq!['D', 'e', 'l', 'e', 't', 'e']) =~= seq!['d', 'e', 'l', 'e', 't', 'e']);
    assert(seq!['d', 'e', 'l', 'e', 't', 'e'][0] != seq!['o', 'p', 't', 'i', 'o', 'n'][0]);
    assert(!is_cmd_name(seq!['d', 'e', 'l', 'e', 't', 'e']) && !is_shift_name(seq!['d', 'e', 'l', 'e', 't', 'e']) && !is_alt_name(seq!['d', 'e', 'l', 'e', 't', 'e']) && !is_ctrl_name(seq!['d', 'e', 'l', 'e', 't', 'e']));
    assert(lower(seq!['d', 'e', 'l', 'e', 't', 'e']) =~= seq!['d', 'e', 'l', 'e', 't', 'e']);
    assert(seq!['d', 'e', 'l', 'e', 't', 'e'][0] == 'd');
    assert(key_table(seq!['d', 'e', 'l', 'e', 't', 'e']) == Some(51u16));
    assert(chord_fold(parts, 1) == Some(ChordAcc { key: Some(51u16), cmd: false, shift: false, alt: false, ctrl: false }));
}

/// The chord each action's default text stands for.
pub open spec fn documented_chord(a: Action) -> Chord {
    match a {
        Action::PlayPause => Chord { key: 49, cmd: false, shift: false, alt: false, ctrl: false },
        Action::SeekBack => Chord { key: 123, cmd: false, shift: false, alt: false, ctrl: false },
        Action::SeekFwd => Chord { key: 124, cmd: false, shift: false, alt: false, ctrl: false },
        Action::Keyframe => Chord { key: 40, cmd: false, shift: false, alt: false, ctrl: false },
        Action::PlaySeq => Chord { key: 36, cmd: false, shift: false, alt: false, ctrl: false },
        Action::Undo => Chord { key: 6, cmd: true, shift: false, alt: false, ctrl: false },
        Action::Redo => Chord { key: 6, cmd: true, shift: true, alt: false, ctrl: false },
        Action::ToggleHud => Chord { key: 4, cmd: false, shift: false, alt: false, ctrl: false },
        Action::ToggleFow => Chord { key: 3, cmd: false, shift: false, alt: false, ctrl: false },
        Action::ToggleAttach => Chord { key: 0, cmd: false, shift: false, alt: false, ctrl: false },
        Action::TimeMinus5 => Chord { key: 123, cmd: false, shift: true, alt: false, ctrl: false },
        Action::TimePlus5 => Chord { key: 124, cmd: false, shift: true, alt: false, ctrl: false },
        Action::RecordToggle => Chord { key: 15, cmd: false, shift: false, alt: false, ctrl: false },
        Action::Cinematic => Chord { key: 8, cmd: false, shift: true, alt: false, ctrl: false },
        Action::Gameplay => Chord { key: 5, cmd: false, shift: true, alt: false, ctrl: false },
        Action::NextKf => Chord { key: 30, cmd: false, shift: false, alt: false, ctrl: false },
        Action::PrevKf => Chord { key: 33, cmd: false, shift: false, alt: false, ctrl: false },
        Action::DeleteKf => Chord { key: 51, cmd: false, shift: false, alt: false, ctrl: false },
    }
}

/// Every action's default chord parses, to the chord the key desk documents.
pub proof fn lemma_default_chords_parse(a: Action)
    ensures
        chord_of_text(action_default_chord(a)) == Some(documented_chord(a)),
{
    match a {
        Action::PlayPause => lemma_default_playpause(),
        Action::SeekBack => lemma_default_seekback(),
        Action::SeekFwd => lemma_default_seekfwd(),
        Action::Keyframe => lemma_default_keyframe(),
        Action::PlaySeq => lemma_default_playseq(),
        Action::Undo => lemma_default_undo(),
        Action::Redo => lemma_default_redo(),
        Action::ToggleHud => lemma_default_togglehud(),
        Action::ToggleFow => lemma_default_togglefow(),
        Action::ToggleAttach => lemma_default_toggleattach(),
        Action::TimeMinus5 => lemma_default_timeminus5(),
        Action::TimePlus5 => lemma_default_timeplus5(),
        Action::RecordToggle => lemma_default_recordtoggle(),
        Action::Cinematic => lemma_default_cinematic(),
        Action::Gameplay => lemma_default_gameplay(),
        Action::NextKf => lemma_default_nextkf(),
        Action::PrevKf => lemma_default_prevkf(),
        Action::DeleteKf => lemma_default_deletekf(),
    }
}

/// No two actions share a default chord.
pub proof fn lemma_default_chords_distinct(a: Action, b: Action)
    requires
        a != b,
    ensures
        chord_of_text(action_default_chord(a)) != chord_of_text(action_default_chord(b)),
{
    lemma_default_chords_parse(a);
    lemma_default_chords_parse(b);
    assert(documented_chord(a) != documented_chord(b));
}

proof fn lemma_split_append(raw: Seq<char>, m: Seq<char>)
    requires
        forall|j: int| 0 <= j < m.len() ==> m[j] != '+',
    ensures
        split_on(raw + seq!['+'] + m, '+') == split_on(raw, '+').push(m),
    decreases raw.len(),
{
    let t = raw + seq!['+'] + m;
    lemma_first_index(m, '+', m.len() as int);
    assert(split_on(m, '+') == seq![m]);
    lemma_first_index_bounds(raw, '+');
    let k = first_index(raw, '+') as int;
    assert forall|j: int| 0 <= j < k implies t[j] != '+' by {
        assert(t[j] == raw[j]);
    }
    if k >= raw.len() {
        assert(t[raw.len() as int] == '+');
        lemma_first_index(t, '+', raw.len() as int);
        assert(t.take(raw.len() as int) =~= raw);
        assert(t.skip((raw.len() + 1) as int) =~= m);
        assert(split_on(raw, '+') == seq![raw]);
        assert(split_on(t, '+') =~= seq![raw, m]);
    } else {
        assert(t[k] == '+');
        lemma_first_index(t, '+', k);
        let rest = raw.skip(k + 1);
        assert(t.take(k) =~= raw.take(k));
        assert(t.skip(k + 1) =~= rest + seq!['+'] + m);
        lemma_split_append(rest, m);
        assert(split_on(t, '+') =~= seq![raw.take(k)] + split_on(rest, '+').push(m));
        assert(split_on(raw, '+') == seq![raw.take(k)] + split_on(rest, '+'));
    }
}

proof fn lemma_fold_prefix(parts: Seq<Seq<char>>, x: Seq<char>, n: nat)
    requires
        n <= parts.len(),
    ensures
        chord_fold(parts.push(x), n) == chord_fold(parts, n),
    decreases n,
{
    if n > 0 {
        lemma_fold_prefix(parts, x, (n - 1) as nat);
        assert(parts.push(x)[n - 1] == parts[n - 1]);
    }
}

/// Adding a modifier name (any ASCII case, spaces allowed) after a chord
/// sets that modifier and keeps the rest of the chord: `cmd`, `command`,
/// `super` and `meta` set command, `shift` sets shift, `alt` and `option`
/// set alt, `ctrl` and `control` set control.
pub proof fn lemma_modifier_name_sets_modifier(raw: Seq<char>, m: Seq<char>)
    requires
        forall|j: int| 0 <= j < m.len() ==> m[j] != '+',
    ensures
        (lower(trim(m)) == seq!['c', 'm', 'd'] || lower(trim(m)) == seq!['c', 'o', 'm', 'm', 'a', 'n', 'd'] || lower(trim(m)) == seq!['s', 'u', 'p', 'e', 'r'] || lower(trim(m)) == seq!['m', 'e', 't', 'a']) ==> chord_of_text(raw + seq!['+'] + m) == (match chord_of_text(raw) {
            Some(c) => Some(Chord { cmd: true, ..c }),
            None => None,
        }),
        lower(trim(m)) == seq!['s', 'h', 'i', 'f', 't'] ==> chord_of_text(raw + seq!['+'] + m) == (match chord_of_text(raw) {
            Some(c) => Some(Chord { shift: true, ..c }),
            None => None,
        }),
        (lower(trim(m)) == seq!['a', 'l', 't'] || lower(trim(m)) == seq!['o', 'p', 't', 'i', 'o', 'n']) ==> chord_of_text(raw + seq!['+'] + m) == (match chord_of_text(raw) {
            Some(c) => Some(Chord { alt: true, ..c }),
            None => None,
        }),
        (lower(trim(m)) == seq!['c', 't', 'r', 'l'] || lower(trim(m)) == seq!['c', 'o', 'n', 't', 'r', 'o', 'l']) ==> chord_of_text(raw + seq!['+'] + m) == (match chord_of_text(raw) {
            Some(c) => Some(Chord { ctrl: true, ..c }),
            None => None,
        }),
{
    let parts = split_on(raw, '+');
    lemma_split_append(raw, m);
    lemma_fold_prefix(parts, m, parts.len());
    let t = raw + seq!['+'] + m;
    assert(split_on(t, '+') == parts.push(m));
    assert(parts.push(m)[parts.len() as int] == m);
    assert(chord_fold(parts.push(m), parts.len() + 1) == match chord_fold(parts, parts.len()) {
        Some(acc) => chord_part(acc, m),
        None => None,
    });
    let lp = lower(trim(m));
    if lp.len() > 0 {
        assert(trim(m).len() == lp.len());
    }
}

} // verus!
