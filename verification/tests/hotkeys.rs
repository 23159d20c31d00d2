use league_director::bindings::Action;
use league_director::hotkeys::{
    hotkey_step, league_in_front, received, Hotkey, HotkeyBus, KeyMemory, KeySample,
};
use std::sync::mpsc;

fn none() -> KeySample {
    KeySample { space: false, k: false, left: false, right: false, enter: false, z: false, y: false, cmd: false, shift: false }
}

fn idle() -> KeyMemory {
    KeyMemory { space: false, k: false, left: false, right: false, enter: false, z: false, y: false }
}

#[test]
fn keys_fire_on_the_way_down_only() {
    let mut m = idle();
    let press = KeySample { space: true, ..none() };
    assert_eq!(hotkey_step(&mut m, true, press), vec![Hotkey::PlayPause]);
    assert_eq!(hotkey_step(&mut m, true, press), vec![]);
    assert_eq!(hotkey_step(&mut m, true, none()), vec![]);
    assert_eq!(hotkey_step(&mut m, true, press), vec![Hotkey::PlayPause]);
}

#[test]
fn nothing_fires_in_the_background() {
    let mut m = idle();
    let press = KeySample { space: true, left: true, ..none() };
    assert_eq!(hotkey_step(&mut m, false, press), vec![]);
    assert!(m.space && m.left);
    assert_eq!(hotkey_step(&mut m, true, press), vec![]);
}

#[test]
fn undo_redo_and_keyframe_chords() {
    let mut m = idle();
    assert_eq!(hotkey_step(&mut m, true, KeySample { z: true, cmd: true, ..none() }), vec![Hotkey::Undo]);
    let mut m = idle();
    assert_eq!(hotkey_step(&mut m, true, KeySample { z: true, cmd: true, shift: true, ..none() }), vec![Hotkey::Redo]);
    let mut m = idle();
    assert_eq!(hotkey_step(&mut m, true, KeySample { y: true, cmd: true, ..none() }), vec![Hotkey::Redo]);
    let mut m = idle();
    assert_eq!(hotkey_step(&mut m, true, KeySample { k: true, cmd: true, ..none() }), vec![]);
    let mut m = idle();
    let all = KeySample { space: true, k: true, left: true, right: true, enter: true, ..none() };
    assert_eq!(
        hotkey_step(&mut m, true, all),
        vec![Hotkey::PlayPause, Hotkey::Keyframe, Hotkey::SeekBack, Hotkey::SeekFwd, Hotkey::PlaySeq]
    );
}

#[test]
fn front_app_names() {
    assert!(league_in_front("\"LSDisplayName\"=\"League Of Legends\""));
    assert!(league_in_front("\"LSDisplayName\"=\"LeagueofLegends\""));
    assert!(!league_in_front("\"LSDisplayName\"=\"Finder\""));
    assert!(!league_in_front(""));
}

#[test]
fn receive_results() {
    assert_eq!(received(Ok(Hotkey::Undo)), Some(Hotkey::Undo));
    assert_eq!(received(Err(mpsc::TryRecvError::Empty)), None);
    assert_eq!(received(Err(mpsc::TryRecvError::Disconnected)), None);
}

#[test]
fn bus_hands_over_hotkeys() {
    let (tx, rx) = mpsc::channel();
    let bus = HotkeyBus::from_receiver(rx);
    assert_eq!(bus.try_recv(), None);
    tx.send(Hotkey::SeekFwd).unwrap();
    assert_eq!(bus.try_recv(), Some(Hotkey::SeekFwd));
    drop(tx);
    assert_eq!(bus.try_recv(), None);
}

#[test]
fn hotkeys_stand_for_desk_actions() {
    assert_eq!(Hotkey::PlayPause.action(), Action::PlayPause);
    assert_eq!(Hotkey::Redo.action(), Action::Redo);
    assert_eq!(Hotkey::PlaySeq.action(), Action::PlaySeq);
}
