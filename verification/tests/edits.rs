use league_director::edits::{EditStack, MAX_UNDO};

#[test]
fn undo_then_redo_restores() {
    let mut h: EditStack<u32> = EditStack::new();
    assert!(!h.can_undo() && !h.can_redo());
    h.push(1);
    h.push(2);
    let back = h.undo(3);
    assert_eq!(back, 2);
    assert!(h.can_redo());
    let fwd = h.redo(back);
    assert_eq!(fwd, 3);
    assert!(!h.can_redo());
}

#[test]
fn empty_history_returns_the_current_state() {
    let mut h: EditStack<u32> = EditStack::new();
    assert_eq!(h.undo(5), 5);
    assert_eq!(h.redo(6), 6);
    assert!(!h.can_undo() && !h.can_redo());
}

#[test]
fn a_new_edit_drops_redo() {
    let mut h: EditStack<u32> = EditStack::new();
    h.push(1);
    h.push_redo(9);
    assert!(h.can_redo());
    h.push(2);
    assert!(!h.can_redo());
    assert_eq!(h.pop_redo(), None);
    assert_eq!(h.pop_undo(), Some(2));
    assert_eq!(h.pop_undo(), Some(1));
    assert_eq!(h.pop_undo(), None);
}

#[test]
fn history_is_capped() {
    let mut h: EditStack<usize> = EditStack::new();
    for i in 0..(MAX_UNDO + 5) {
        h.push(i);
    }
    let mut n = 0;
    let mut last = None;
    while let Some(e) = h.pop_undo() {
        n += 1;
        last = Some(e);
    }
    assert_eq!(n, 80);
    assert_eq!(last, Some(5));
}
