use league_director::handshake::{
    format_outcome, timeout_header, watch_crashed_at_deadline, watch_poll, watch_start, WatchOutcome,
    WatchState, WatchStep,
};

#[test]
fn outcome_messages() {
    assert_eq!(format_outcome(&WatchOutcome::Ready { pid: 42 }), "Replay API up (game pid 42).");
    assert_eq!(
        format_outcome(&WatchOutcome::Crashed { log: "tail".to_string() }),
        "Game launched then died before the Replay API came up.\ntail"
    );
    assert_eq!(
        format_outcome(&WatchOutcome::Timeout { log: "".to_string() }),
        "Timed out waiting for Replay API.\n"
    );
}

#[test]
fn wait_then_ready() {
    let mut st = watch_start();
    assert_eq!(watch_poll(&mut st, None, false), WatchStep::Wait);
    assert_eq!(watch_poll(&mut st, Some(7), false), WatchStep::Wait);
    assert_eq!(st, WatchState { saw_pid: true, last_pid: 7 });
    assert_eq!(watch_poll(&mut st, Some(7), true), WatchStep::Ready { pid: 7 });
}

#[test]
fn seen_then_gone_is_a_crash() {
    let mut st = watch_start();
    watch_poll(&mut st, Some(9), false);
    assert_eq!(watch_poll(&mut st, None, false), WatchStep::Crashed);
    assert!(watch_crashed_at_deadline(&st, None));
    assert!(!watch_crashed_at_deadline(&st, Some(9)));
    assert!(!watch_crashed_at_deadline(&watch_start(), None));
}

#[test]
fn timeout_first_line() {
    let st = WatchState { saw_pid: true, last_pid: 7 };
    assert_eq!(timeout_header(30, &st), "waited 30s (saw_game=true last_pid=7)\n");
    assert_eq!(timeout_header(0, &watch_start()), "waited 0s (saw_game=false last_pid=0)\n");
}
