use rust64::probe::{
    ByteWatch, EdgeWatch, FlagWatch, HangWatch, HoldWatch, StuckWatch, Tally, Trail, WordWatch,
};

#[test]
fn tally_stops_at_its_limit() {
    let mut t = Tally { hits: 0 };
    let mut n = 0;
    for i in 0..100 {
        n += t.note(7, i % 2 == 0) as u32;
    }
    assert_eq!(n, 7);
    assert_eq!(t.hits, 7);
}

#[test]
fn byte_watch_tells_changes() {
    let mut w = ByteWatch { last: 0xFF, hits: 0 };
    assert!(w.note(3, true, 0));
    assert!(!w.note(3, true, 0));
    assert!(!w.note(3, false, 1));
    assert!(w.note(3, true, 1));
    assert!(w.note(3, true, 2));
    assert!(!w.note(3, true, 3));
    assert_eq!(w, ByteWatch { last: 2, hits: 3 });
}

#[test]
fn first_look_is_worth_a_report() {
    let mut w = ByteWatch { last: 0xFF, hits: 0 };
    assert!(w.note_first(10, true, 0xFF));
    assert!(!w.note_first(10, true, 0xFF));
    assert!(w.note_first(10, true, 0xFE));
}

#[test]
fn word_and_flag_watches_tell_changes() {
    let mut w = WordWatch { last: 0xFFFF, hits: 0 };
    assert!(w.note(2, true, 0xEC00));
    assert!(!w.note(2, true, 0xEC00));
    assert!(w.note(2, true, 0xEC01));
    assert!(!w.note(2, true, 0xEC02));
    let mut f = FlagWatch { last: false, hits: 0 };
    assert!(!f.note(9, true, false));
    assert!(f.note(9, true, true));
    assert!(f.note(9, true, false));
}

#[test]
fn edge_watch_tells_one_edge() {
    let mut w = EdgeWatch { last: false, hits: 0 };
    assert!(w.note(5, true, true, true, true));
    assert!(!w.note(5, true, true, true, true));
    assert!(!w.note(5, true, true, false, true));
    assert!(w.note(5, true, true, true, true));
    // What is not seen is not followed.
    assert!(!w.note(5, false, false, false, true));
    assert!(!w.note(5, true, true, true, true));
}

#[test]
fn trail_comes_to_its_end() {
    let mut t = Trail { left: 0, last: 0 };
    assert!(!t.note(5));
    t.start(2);
    assert!(t.note(5));
    assert!(!t.note(5));
    assert!(t.note(6));
    assert!(!t.note(7));
    t.start(3);
    assert!(t.note_cycle(5));
    assert!(!t.note_cycle(5));
    assert!(t.note_cycle(6));
    assert!(!t.note_cycle(7));
}

#[test]
fn stuck_processor_is_told_once() {
    let mut w = StuckWatch { cycles: 0, reported: false };
    assert!(!w.note(3, true));
    assert!(!w.note(3, true));
    assert!(w.note(3, true));
    assert!(!w.note(3, true));
    assert!(!w.note(3, false));
    assert_eq!(w, StuckWatch { cycles: 0, reported: false });
}

#[test]
fn hang_is_told_once_for_all() {
    let mut w = HangWatch { cycles: 0, reported: false };
    assert!(!w.note(2, true));
    assert!(!w.note(2, true));
    assert!(w.note(2, true));
    assert!(!w.note(2, false));
    assert_eq!(w, HangWatch { cycles: 3, reported: true });
    for _ in 0..10 {
        assert!(!w.note(2, true));
    }
    let mut w = HangWatch { cycles: 0, reported: false };
    w.note(2, true);
    w.note(2, false);
    assert_eq!(w.cycles, 0);
}

#[test]
fn hold_is_timed() {
    let mut w = HoldWatch { active: false, start: 0, long_reported: false, hits: 0 };
    assert_eq!(w.note(40, 100, 10, true), (false, false));
    assert_eq!(w.note(40, 100, 109, true), (false, false));
    assert_eq!(w.note(40, 100, 110, true), (false, true));
    assert_eq!(w.note(40, 100, 200, true), (false, false));
    assert_eq!(w.note(40, 100, 201, false), (true, false));
    assert_eq!(w.note(40, 100, 202, false), (false, false));
    assert_eq!(w.hits, 2);
}
