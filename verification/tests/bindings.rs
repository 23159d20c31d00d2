use league_director::binding_map::{chord_of, chord_pressed, default_map, merge_defaults, Bindings};
use league_director::bindings::{key_code, parse_chord, Action, Chord};

#[test]
fn parses_cmd_shift_z() {
    let c = parse_chord("Cmd+Shift+Z").unwrap();
    assert!(c.cmd && c.shift && !c.alt && c.key == 6);
}

#[test]
fn parses_brackets() {
    assert_eq!(parse_chord("]").unwrap().key, 30);
    assert_eq!(parse_chord("[").unwrap().key, 33);
}

#[test]
fn parses_spaced_modifier_names() {
    let c = parse_chord(" ctrl + Option + k ").unwrap();
    assert_eq!(c, Chord { key: 40, cmd: false, shift: false, alt: true, ctrl: true });
}

#[test]
fn chord_without_key_is_refused() {
    assert!(parse_chord("Cmd+").is_none());
    assert!(parse_chord("").is_none());
    assert!(parse_chord("Cmd+Nope").is_none());
}

#[test]
fn later_key_wins() {
    assert_eq!(parse_chord("Q+W").unwrap().key, 13);
}

#[test]
fn key_codes_ignore_case() {
    assert_eq!(key_code("Space"), Some(49));
    assert_eq!(key_code("RETURN"), Some(36));
    assert_eq!(key_code("backquote"), Some(50));
    assert_eq!(key_code("F13"), None);
}

#[test]
fn action_ids_round_trip() {
    let all = Action::all();
    assert_eq!(all.len(), 18);
    for a in all {
        assert_eq!(Action::from_id(a.id()), Some(a));
    }
    assert_eq!(Action::from_id("nope"), None);
    assert_eq!(Action::Undo.id(), "undo");
    assert_eq!(Action::SeekBack.label(), "Seek −5s");
    assert_eq!(Action::NextKf.default_chord(), "]");
}

#[test]
fn every_default_chord_parses() {
    for a in Action::all() {
        assert!(parse_chord(a.default_chord()).is_some());
    }
}

#[test]
fn default_map_holds_every_action() {
    let m = default_map();
    assert_eq!(m.to_pairs().len(), 18);
    assert_eq!(m.get("redo"), Some("Cmd+Shift+Z".to_string()));
    assert!(m.contains_key("delete_kf"));
    assert!(!m.contains_key("nope"));
}

#[test]
fn merge_keeps_user_chords_and_fills_the_rest() {
    let mut m = Bindings::new();
    m.insert("undo".to_string(), "Cmd+U".to_string());
    m.insert("custom".to_string(), "X".to_string());
    merge_defaults(&mut m);
    assert_eq!(m.get("undo"), Some("Cmd+U".to_string()));
    assert_eq!(m.get("custom"), Some("X".to_string()));
    assert_eq!(m.get("play_pause"), Some("Space".to_string()));
    assert_eq!(m.to_pairs().len(), 19);
    let before = m.to_pairs();
    merge_defaults(&mut m);
    assert_eq!(m.to_pairs(), before);
}

#[test]
fn insert_replaces() {
    let mut m = Bindings::new();
    m.insert("a".to_string(), "1".to_string());
    m.insert("a".to_string(), "2".to_string());
    assert_eq!(m.to_pairs(), vec![("a".to_string(), "2".to_string())]);
}

#[test]
fn chord_of_falls_back_to_default() {
    let mut m = Bindings::new();
    m.insert("undo".to_string(), "garbage".to_string());
    m.insert("redo".to_string(), "Cmd+Y".to_string());
    let undo = chord_of(&m, Action::Undo);
    assert_eq!(undo, Chord { key: 6, cmd: true, shift: false, alt: false, ctrl: false });
    let redo = chord_of(&m, Action::Redo);
    assert_eq!(redo, Chord { key: 16, cmd: true, shift: false, alt: false, ctrl: false });
    let play = chord_of(&m, Action::PlayPause);
    assert_eq!(play.key, 49);
}

#[test]
fn chord_pressed_checks_modifiers() {
    let c = Chord { key: 6, cmd: true, shift: false, alt: false, ctrl: false };
    assert!(chord_pressed(c, true, false, false, false, true));
    assert!(!chord_pressed(c, true, true, false, false, true));
    assert!(!chord_pressed(c, true, false, false, false, false));
    assert!(chord_pressed(c, true, false, false, true, true));
    let k = Chord { key: 40, cmd: false, shift: false, alt: false, ctrl: true };
    assert!(chord_pressed(k, false, false, false, true, true));
    assert!(!chord_pressed(k, true, false, false, true, true));
}

#[test]
fn default_chords_are_distinct() {
    let all = Action::all();
    for a in &all {
        for b in &all {
            if a != b {
                assert_ne!(parse_chord(a.default_chord()), parse_chord(b.default_chord()));
            }
        }
    }
}
