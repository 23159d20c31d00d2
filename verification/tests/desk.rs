use league_director::api::default_blend;
use league_director::desk::{can_record, step_selection, DownNext, Link, UpNext};
use league_director::handshake::WatchOutcome;

#[test]
fn stepping_wraps_around() {
    assert_eq!(step_selection(3, Some(2), true), 0);
    assert_eq!(step_selection(3, Some(0), false), 2);
    assert_eq!(step_selection(3, Some(1), true), 2);
    assert_eq!(step_selection(3, None, true), 0);
    assert_eq!(step_selection(3, None, false), 2);
    assert_eq!(step_selection(1, Some(0), true), 0);
}

#[test]
fn recording_needs_a_free_link() {
    assert!(can_record(true, false, false, false));
    assert!(!can_record(false, false, false, false));
    assert!(!can_record(true, true, false, false));
    assert!(!can_record(true, false, true, false));
    assert!(!can_record(true, false, false, true));
}

#[test]
fn api_down_after_recording_blocks_until_recovery() {
    let mut l = Link::new();
    assert_eq!(l.poll_up(false), UpNext::ShowConnected);
    assert!(l.begin_recording(false));
    assert!(l.was_recording);
    assert_eq!(l.poll_up(true), UpNext::Quiet);
    assert_eq!(l.poll_down(true), DownNext::FinishAfterDown);
    assert!(l.rec_blocked && !l.connected);
    assert!(!l.begin_watch());
    assert!(!l.begin_recording(false));
    assert_eq!(l.poll_down(false), DownNext::FinishAfterDown);
    l.recover();
    assert!(!l.rec_blocked);
    assert!(l.begin_watch());
    assert!(l.lcu_busy);
}

#[test]
fn recording_end_is_noticed() {
    let mut l = Link::new();
    l.poll_up(true);
    assert_eq!(l.poll_up(false), UpNext::FinishCapture);
    assert_eq!(l.poll_up(false), UpNext::ShowConnected);
}

#[test]
fn watch_outcomes_update_the_lamps() {
    let mut l = Link::new();
    assert!(l.begin_watch());
    assert_eq!(l.poll_down(false), DownNext::WaitingForProcess);
    assert_eq!(l.poll_down(true), DownNext::GameStarting);
    l.watch_done(&WatchOutcome::Crashed { log: String::new() });
    assert!(!l.lcu_busy && !l.game_ok && !l.api_ok);
    assert_eq!(l.poll_down(true), DownNext::GameUp);
    assert_eq!(l.poll_down(false), DownNext::Idle);
    l.begin_watch();
    l.watch_done(&WatchOutcome::Ready { pid: 3 });
    assert!(!l.lcu_busy && l.game_ok && l.api_ok && !l.rec_blocked);
    l.begin_watch();
    l.watch_done(&WatchOutcome::Timeout { log: String::new() });
    assert!(!l.lcu_busy && l.game_ok);
}

#[test]
fn pending_watch_keeps_status_quiet() {
    let mut l = Link::new();
    l.begin_watch();
    assert_eq!(l.poll_up(false), UpNext::Quiet);
}

#[test]
fn keyframes_default_to_linear() {
    assert_eq!(default_blend(), "linear");
}

#[test]
fn stepping_forward_then_back_returns() {
    for n in 1..6usize {
        for i in 0..n {
            let j = step_selection(n, Some(i), true);
            assert_eq!(step_selection(n, Some(j), false), i);
        }
    }
}
