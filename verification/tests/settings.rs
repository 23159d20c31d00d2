use league_director::binding_map::{default_map, Bindings};
use league_director::settings::{config_dir_for, record_dir_from, Settings, MAX_CLIPS};

#[test]
fn config_folder() {
    assert_eq!(config_dir_for(Some("/Users/me")), "/Users/me/Documents/LeagueDirector");
    assert_eq!(config_dir_for(Some("/Users/me/")), "/Users/me/Documents/LeagueDirector");
    assert_eq!(config_dir_for(None), ".");
}

#[test]
fn fresh_settings() {
    let s = Settings::with_dirs("/rec".to_string(), "/seq".to_string());
    assert_eq!(s.record_dir, "/rec");
    assert_eq!(s.sequence_dir, "/seq");
    assert_eq!(s.last_tab, 0);
    assert!(s.show_hud);
    assert!(s.clips.is_empty());
    assert_eq!(s.bindings.to_pairs(), default_map().to_pairs());
}

#[test]
fn remembered_clips_come_first_once() {
    let mut s = Settings::with_dirs("/rec".to_string(), "/seq".to_string());
    s.remember_clip("/c/a.webm");
    s.remember_clip("/c/b.webm");
    s.remember_clip("/c/a.webm");
    assert_eq!(s.clips, vec!["/c/a.webm".to_string(), "/c/b.webm".to_string()]);
}

#[test]
fn at_most_the_cap_is_kept() {
    let mut s = Settings::with_dirs("/rec".to_string(), "/seq".to_string());
    for i in 0..30 {
        s.remember_clip(&format!("/c/{i}.webm"));
    }
    assert_eq!(s.clips.len(), MAX_CLIPS);
    assert_eq!(s.clips[0], "/c/29.webm");
    assert_eq!(s.clips[23], "/c/6.webm");
}

#[test]
fn loading_fills_gaps() {
    let mut s = Settings::with_dirs("/rec".to_string(), "  ".to_string());
    s.bindings = Bindings::new();
    s.bindings.insert("undo".to_string(), "Cmd+U".to_string());
    s.complete_loaded("/docs/sequences".to_string());
    assert_eq!(s.sequence_dir, "/docs/sequences");
    assert_eq!(s.bindings.get("undo"), Some("Cmd+U".to_string()));
    assert_eq!(s.bindings.get("redo"), Some("Cmd+Shift+Z".to_string()));
    let mut t = Settings::with_dirs("/rec".to_string(), "/mine".to_string());
    t.complete_loaded("/docs/sequences".to_string());
    assert_eq!(t.sequence_dir, "/mine");
}

#[test]
fn recordings_folder() {
    assert_eq!(record_dir_from(Some("/b/LoL/Replays")), "/b/LoL/Replays/director-captures");
    assert!(record_dir_from(None).ends_with("recordings"));
}
