//! The user's key-binding table: action id to chord text, as stored in the
//! settings file, with the defaults filled in for actions the user never
//! remapped.
use vstd::prelude::*;
use crate::bindings::{
    action_default_chord, action_id, chord_of_text, lemma_default_chords_parse, lemma_ids_distinct,
    parse_chord, Action, Chord,
};

verus! {

/// A table from keys to values, each key present once.
pub struct Bindings {
    entries: Vec<(String, String)>,
}

/// The map that a list of key/value entries denotes (a later entry of a key
/// wins, though a `Bindings` never holds a key twice).
pub open spec fn entries_map(es: Seq<(String, String)>) -> Map<Seq<char>, Seq<char>>
    decreases es.len(),
{
    if es.len() == 0 {
        Map::empty()
    } else {
        entries_map(es.drop_last()).insert(es.last().0@, es.last().1@)
    }
}

pub open spec fn keys_distinct(es: Seq<(String, String)>) -> bool {
    forall|i: int, j: int| 0 <= i < j < es.len() ==> es[i].0@ != es[j].0@
}

impl View for Bindings {
    type V = Map<Seq<char>, Seq<char>>;

    closed spec fn view(&self) -> Map<Seq<char>, Seq<char>> {
        entries_map(self.entries@)
    }
}

proof fn lemma_entries_lookup(es: Seq<(String, String)>)
    requires
        keys_distinct(es),
    ensures
        forall|i: int|
            0 <= i < es.len() ==> entries_map(es).contains_key(#[trigger] es[i].0@) && entries_map(
                es,
            )[es[i].0@] == es[i].1@,
        forall|k: Seq<char>|
            entries_map(es).contains_key(k) <==> exists|i: int| 0 <= i < es.len() && es[i].0@ == k,
    decreases es.len(),
{
    if es.len() > 0 {
        let init = es.drop_last();
        lemma_entries_lookup(init);
        assert forall|i: int| 0 <= i < es.len() implies entries_map(es).contains_key(
            #[trigger] es[i].0@,
        ) && entries_map(es)[es[i].0@] == es[i].1@ by {
            if i < es.len() - 1 {
                assert(init[i] == es[i]);
            }
        }
        assert forall|k: Seq<char>| entries_map(es).contains_key(k) implies exists|i: int|
            0 <= i < es.len() && es[i].0@ == k by {
            if k != es.last().0@ {
                assert(entries_map(init).contains_key(k));
                let i = choose|i: int| 0 <= i < init.len() && init[i].0@ == k;
                assert(es[i] == init[i]);
            } else {
                assert(es[es.len() - 1].0@ == k);
            }
        }
        assert forall|k: Seq<char>| (exists|i: int| 0 <= i < es.len() && es[i].0@ == k) implies entries_map(
            es,
        ).contains_key(k) by {
            let i = choose|i: int| 0 <= i < es.len() && es[i].0@ == k;
            if i < es.len() - 1 {
                assert(init[i] == es[i]);
            }
        }
    }
}

proof fn lemma_entries_update(es: Seq<(String, String)>, i: int, e: (String, String))
    requires
        keys_distinct(es),
        0 <= i < es.len(),
        es[i].0@ == e.0@,
    ensures
        entries_map(es.update(i, e)) == entries_map(es).insert(e.0@, e.1@),
        keys_distinct(es.update(i, e)),
    decreases es.len(),
{
    let up = es.update(i, e);
    if i == es.len() - 1 {
        assert(up.drop_last() =~= es.drop_last());
        assert(entries_map(up) =~= entries_map(es).insert(e.0@, e.1@));
    } else {
        lemma_entries_update(es.drop_last(), i, e);
        assert(up.drop_last() =~= es.drop_last().update(i, e));
        assert(up.last() == es.last());
        assert(es[i].0@ != es.last().0@);
        assert(entries_map(up) =~= entries_map(es).insert(e.0@, e.1@));
    }
    assert forall|a: int, b: int| 0 <= a < b < up.len() implies up[a].0@ != up[b].0@ by {
        if a == i {
            assert(es[b].0@ != es[i].0@);
        } else if b == i {
            assert(es[a].0@ != es[i].0@);
        }
    }
}

impl Bindings {
    #[verifier::type_invariant]
    closed spec fn wf(self) -> bool {
        keys_distinct(self.entries@)
    }

    /// An empty table.
    pub fn new() -> (b: Self)
        ensures
            b@ == Map::<Seq<char>, Seq<char>>::empty(),
    {
        Bindings { entries: Vec::new() }
    }

    fn index_of(&self, key: &String) -> (r: Option<usize>)
        ensures
            match r {
                Some(i) => i < self.entries.len() && self.entries@[i as int].0@ == key@,
                None => forall|i: int| 0 <= i < self.entries.len() ==> self.entries@[i].0@ != key@,
            },
    {
        for i in 0..self.entries.len()
            invariant
                forall|j: int| 0 <= j < i ==> self.entries@[j].0@ != key@,
        {
            if self.entries[i].0 == *key {
                return Some(i);
            }
        }
        None
    }

    /// Whether the table holds `key`.
    pub fn contains_key(&self, key: &str) -> (b: bool)
        ensures
            b == self@.contains_key(key@),
    {
        proof {
            use_type_invariant(self);
            lemma_entries_lookup(self.entries@);
        }
        let k = key.to_owned();
        self.index_of(&k).is_some()
    }

    /// The value stored under `key`.
    pub fn get(&self, key: &str) -> (r: Option<String>)
        ensures
            match r {
                Some(v) => self@.contains_key(key@) && v@ == self@[key@],
                None => !self@.contains_key(key@),
            },
    {
        proof {
            use_type_invariant(self);
            lemma_entries_lookup(self.entries@);
        }
        let k = key.to_owned();
        match self.index_of(&k) {
            Some(i) => Some(self.entries[i].1.clone()),
            None => None,
        }
    }

    /// Stores `value` under `key`, replacing what was there.
    pub fn insert(&mut self, key: String, value: String)
        ensures
            final(self)@ == old(self)@.insert(key@, value@),
    {
        proof {
            use_type_invariant(&*self);
        }
        let found = self.index_of(&key);
        let mut es: Vec<(String, String)> = Vec::new();
        std::mem::swap(&mut es, &mut self.entries);
        match found {
            Some(i) => {
                proof {
                    lemma_entries_update(es@, i as int, (key, value));
                }
                es.set(i, (key, value));
            },
            None => {
                let ghost before = es@;
                es.push((key, value));
                assert(es@.drop_last() =~= before);
                assert forall|a: int, b: int| 0 <= a < b < es@.len() implies es@[a].0@ != es@[b].0@ by {
                    if b == es@.len() - 1 {
                        assert(es@[a] == before[a]);
                    } else {
                        assert(es@[a] == before[a]);
                        assert(es@[b] == before[b]);
                    }
                }
            },
        }
        self.entries = es;
    }

    /// The entries as key/value pairs, each key once.
    pub fn to_pairs(&self) -> (r: Vec<(String, String)>)
        ensures
            forall|i: int| 0 <= i < r.len() ==> self@.contains_key(#[trigger] r@[i].0@) && self@[r@[i].0@] == r@[i].1@,
            forall|k: Seq<char>| self@.contains_key(k) ==> exists|i: int| 0 <= i < r.len() && r@[i].0@ == k,
            forall|i: int, j: int| 0 <= i < j < r.len() ==> r@[i].0@ != r@[j].0@,
    {
        proof {
            use_type_invariant(self);
            lemma_entries_lookup(self.entries@);
        }
        let mut r: Vec<(String, String)> = Vec::new();
        for i in 0..self.entries.len()
            invariant
                r.len() == i,
                forall|j: int| 0 <= j < i ==> r@[j].0@ == self.entries@[j].0@ && r@[j].1@ == self.entries@[j].1@,
        {
            r.push((self.entries[i].0.clone(), self.entries[i].1.clone()));
        }
        assert forall|k: Seq<char>| self@.contains_key(k) implies exists|i: int| 0 <= i < r.len() && r@[i].0@ == k by {
            let i = choose|i: int| 0 <= i < self.entries@.len() && self.entries@[i].0@ == k;
            assert(r@[i].0@ == k);
        }
        r
    }
}

/// The default table: every action's id mapped to its default chord.
pub open spec fn default_view() -> Map<Seq<char>, Seq<char>> {
    Map::new(
        |k: Seq<char>| exists|a: Action| action_id(a) == k,
        |k: Seq<char>| action_default_chord(choose|a: Action| action_id(a) == k),
    )
}

/// The chord text in force for an action: the user's, else the default.
pub open spec fn binding_text(m: Map<Seq<char>, Seq<char>>, a: Action) -> Seq<char> {
    if m.contains_key(action_id(a)) {
        m[action_id(a)]
    } else {
        action_default_chord(a)
    }
}

proof fn lemma_default_view_at(a: Action)
    ensures
        default_view().contains_key(action_id(a)),
        default_view()[action_id(a)] == action_default_chord(a),
{
    let b = choose|b: Action| action_id(b) == action_id(a);
    lemma_ids_distinct(a, b);
}

/// Adds the default chord of every action the table has no entry for; the
/// user's entries, known ids or not, are kept as they are.
pub fn merge_defaults(map: &mut Bindings)
    ensures
        final(map)@ == default_view().union_prefer_right(old(map)@),
{
    let mut m = Bindings::new();
    std::mem::swap(&mut m, map);
    let ghost start = m@;
    let all = Action::all();
    for i in 0..all.len()
        invariant
            all@ == crate::bindings::all_actions(),
            forall|k: Seq<char>| #[trigger] start.contains_key(k) ==> m@.contains_key(k) && m@[k] == start[k],
            forall|j: int|
                0 <= j < i ==> m@.contains_key(#[trigger] action_id(all@[j])) && (!start.contains_key(
                    action_id(all@[j]),
                ) ==> m@[action_id(all@[j])] == action_default_chord(all@[j])),
            forall|k: Seq<char>|
                #[trigger] m@.contains_key(k) ==> start.contains_key(k) || exists|j: int|
                    0 <= j < i && action_id(all@[j]) == k,
    {
        let a = all[i];
        if !m.contains_key(a.id()) {
            let ghost before = m@;
            m.insert(a.id().to_owned(), a.default_chord().to_owned());
            assert(m@ == before.insert(action_id(a), action_default_chord(a)));
            assert forall|k: Seq<char>| m@.contains_key(k) implies start.contains_key(k) || exists|j: int|
                0 <= j < i + 1 && action_id(all@[j]) == k by {
                if k != action_id(a) {
                    assert(before.contains_key(k));
                } else {
                    assert(action_id(all@[i as int]) == k);
                }
            }
        } else {
            proof {
                if !start.contains_key(action_id(a)) {
                    let j = choose|j: int| 0 <= j < i && action_id(all@[j]) == action_id(a);
                    lemma_ids_distinct(all@[j], a);
                }
            }
        }
    }
    proof {
        let target = default_view().union_prefer_right(start);
        assert forall|k: Seq<char>| m@.contains_key(k) <==> target.contains_key(k) by {
            if m@.contains_key(k) && !start.contains_key(k) {
                let j = choose|j: int| 0 <= j < all.len() && action_id(all@[j]) == k;
                lemma_default_view_at(all@[j]);
            }
            if target.contains_key(k) && !start.contains_key(k) {
                let a = choose|a: Action| action_id(a) == k;
                crate::bindings::lemma_all_actions(a);
                let j = choose|j: int| 0 <= j < all.len() && all@[j] == a;
                assert(m@.contains_key(action_id(all@[j])));
            }
        }
        assert forall|k: Seq<char>| #[trigger] m@.contains_key(k) implies m@[k] == target[k] by {
            if !start.contains_key(k) {
                let j = choose|j: int| 0 <= j < all.len() && action_id(all@[j]) == k;
                lemma_default_view_at(all@[j]);
            }
        }
        assert(m@ =~= target);
    }
    *map = m;
}

/// The default table.
pub fn default_map() -> (b: Bindings)
    ensures
        b@ == default_view(),
{
    let mut b = Bindings::new();
    merge_defaults(&mut b);
    assert(default_view().union_prefer_right(Map::<Seq<char>, Seq<char>>::empty()) =~= default_view());
    b
}

/// The chord in force for an action: the user's chord text when it parses,
/// else the action's default chord.
pub fn chord_of(map: &Bindings, action: Action) -> (c: Chord)
    ensures
        c == match chord_of_text(binding_text(map@, action)) {
            Some(user) => user,
            None => chord_of_text(action_default_chord(action)).unwrap(),
        },
{
    let text: String = match map.get(action.id()) {
        Some(s) => s,
        None => action.default_chord().to_owned(),
    };
    match parse_chord(text.as_str()) {
        Some(c) => c,
        None => {
            proof {
                lemma_default_chords_parse(action);
            }
            parse_chord(action.default_chord()).unwrap()
        },
    }
}

/// Filling in the defaults twice changes nothing after the first time.
pub proof fn lemma_merge_idempotent(m: Map<Seq<char>, Seq<char>>)
    ensures
        default_view().union_prefer_right(default_view().union_prefer_right(m))
            == default_view().union_prefer_right(m),
{
    assert(default_view().union_prefer_right(default_view().union_prefer_right(m))
        =~= default_view().union_prefer_right(m));
}

/// With the defaults filled in, every action's chord is its user chord when
/// that parses and its default chord otherwise; an action the user never
/// remapped gets its default chord.
pub proof fn lemma_unmapped_action_gets_default(m: Map<Seq<char>, Seq<char>>, a: Action)
    requires
        !m.contains_key(action_id(a)),
    ensures
        binding_text(default_view().union_prefer_right(m), a) == action_default_chord(a),
{
    lemma_default_view_at(a);
}

/// Whether the modifier keys held match a chord: each of command, shift
/// and alt held exactly when the chord has it; control held when the chord
/// has it and command is not, and not held (or standing for command) when
/// the chord lacks it.
pub open spec fn mods_match(c: Chord, command: bool, shift: bool, alt: bool, ctrl: bool) -> bool {
    &&& (if c.cmd { command } else { !command })
    &&& (if c.shift { shift } else { !shift })
    &&& (if c.alt { alt } else { !alt })
    &&& (if c.ctrl { ctrl && !command } else { !ctrl || command })
}

/// Whether a chord fires this frame: its key went down and the modifiers
/// held match it.
pub fn chord_pressed(
    c: Chord,
    command: bool,
    shift: bool,
    alt: bool,
    ctrl: bool,
    key_pressed: bool,
) -> (b: bool)
    ensures
        b == (mods_match(c, command, shift, alt, ctrl) && key_pressed),
{
    let cmd_ok = if c.cmd { command } else { !command };
    let shift_ok = if c.shift { shift } else { !shift };
    let alt_ok = if c.alt { alt } else { !alt };
    let ctrl_ok = if c.ctrl { ctrl && !command } else { !ctrl || command };
    cmd_ok && shift_ok && alt_ok && ctrl_ok && key_pressed
}

/// A chord fires only with its own modifiers: command, shift and alt held
/// exactly when the chord has them; a chord with control needs control
/// held and command not; a chord without control refuses control held on
/// its own.  Holding exactly the chord's modifiers fires it, unless it
/// asks for command and control together, which never fires.
pub proof fn lemma_chord_needs_its_modifiers(c: Chord, command: bool, shift: bool, alt: bool, ctrl: bool)
    ensures
        mods_match(c, command, shift, alt, ctrl) ==> command == c.cmd && shift == c.shift && alt
            == c.alt,
        c.ctrl && !ctrl ==> !mods_match(c, command, shift, alt, ctrl),
        c.ctrl && command ==> !mods_match(c, command, shift, alt, ctrl),
        !c.ctrl && ctrl && !command ==> !mods_match(c, command, shift, alt, ctrl),
        command == c.cmd && shift == c.shift && alt == c.alt && ctrl == c.ctrl && !(c.cmd && c.ctrl)
            ==> mods_match(c, command, shift, alt, ctrl),
{
}

} // verus!
