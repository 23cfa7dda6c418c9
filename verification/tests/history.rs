use boxdoc::history::{History, MAX_HISTORY};

#[test]
fn empty_history_has_nothing_to_undo() {
    let mut h: History<u64> = History::new();
    assert_eq!(h.len(), 0);
    assert!(!h.can_undo());
    assert!(!h.can_redo());
    assert_eq!(h.undo(), None);
    assert_eq!(h.redo(), None);
}

#[test]
fn init_holds_exactly_the_start_state() {
    let mut h: History<u64> = History::new();
    h.push(7);
    h.push(8);
    h.init(1);
    assert_eq!(h.len(), 1);
    assert!(!h.can_undo());
    assert!(!h.can_redo());
}

#[test]
fn undo_and_redo_walk_the_snapshots() {
    let mut h: History<u64> = History::new();
    h.init(10);
    h.push(11);
    h.push(12);
    assert_eq!(h.len(), 3);
    assert!(h.can_undo());
    assert!(!h.can_redo());
    assert_eq!(h.undo().copied(), Some(11));
    assert_eq!(h.undo().copied(), Some(10));
    assert_eq!(h.undo(), None);
    assert!(h.can_redo());
    assert_eq!(h.redo().copied(), Some(11));
    assert_eq!(h.redo().copied(), Some(12));
    assert_eq!(h.redo(), None);
}

#[test]
fn push_after_undo_discards_the_redo_states() {
    let mut h: History<u64> = History::new();
    h.init(0);
    h.push(1);
    h.push(2);
    h.push(3);
    assert_eq!(h.undo().copied(), Some(2));
    assert_eq!(h.undo().copied(), Some(1));
    h.push(9);
    assert!(!h.can_redo());
    assert_eq!(h.len(), 3);
    assert_eq!(h.undo().copied(), Some(1));
    assert_eq!(h.redo().copied(), Some(9));
}

#[test]
fn history_is_bounded_and_drops_the_oldest() {
    let mut h: History<u64> = History::new();
    h.init(0);
    for i in 1..=250u64 {
        h.push(i);
    }
    assert_eq!(MAX_HISTORY, 200);
    assert_eq!(h.len(), 200);
    let mut last = 250;
    let mut steps = 0;
    while let Some(v) = h.undo().copied() {
        assert_eq!(v, last - 1);
        last = v;
        steps += 1;
    }
    assert_eq!(steps, 199);
    assert_eq!(last, 51);
}

#[test]
fn redo_takes_back_undo() {
    let mut h: History<u64> = History::new();
    h.init(5);
    h.push(6);
    let before = h.len();
    assert_eq!(h.undo().copied(), Some(5));
    assert_eq!(h.redo().copied(), Some(6));
    assert_eq!(h.len(), before);
    assert!(!h.can_redo());
    assert!(h.can_undo());
}
