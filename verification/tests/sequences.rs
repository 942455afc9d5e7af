use keyd_live_graph::Sequence;

fn segments(s: &Sequence) -> Vec<(String, u64, u64)> {
    s.segments().iter().map(|g| (g.key.clone(), g.start, g.end)).collect()
}

fn taps(s: &Sequence) -> Vec<(String, u64)> {
    s.taps().iter().map(|t| (t.key.clone(), t.at)).collect()
}

#[test]
fn new_sequence_is_empty() {
    assert!(Sequence::default().row_order().is_empty());
    let s = Sequence::new();
    assert_eq!(s.now_ms(), 0);
    assert!(s.row_order().is_empty());
    assert!(!s.has_holds());
    assert!(segments(&s).is_empty());
    assert!(taps(&s).is_empty());
    assert_eq!(*s.idle_start(), None);
}

#[test]
fn rows_follow_first_appearance() {
    let mut s = Sequence::new();
    assert_eq!(s.ensure_row("b"), 0);
    assert_eq!(s.ensure_row("a"), 1);
    assert_eq!(s.ensure_row("b"), 0);
    s.on_up("c");
    s.on_down("a");
    assert_eq!(*s.row_order(), vec!["b".to_string(), "a".to_string(), "c".to_string()]);
    assert_eq!(s.row_of("c"), Some(2));
    assert_eq!(s.row_of("d"), None);
}

#[test]
fn hold_becomes_segment() {
    let mut s = Sequence::new();
    s.advance(10);
    s.on_down("a");
    assert_eq!(s.held_since("a"), Some(10));
    s.advance(5);
    s.on_up("a");
    assert_eq!(segments(&s), vec![("a".to_string(), 10, 15)]);
    assert!(taps(&s).is_empty());
    assert_eq!(s.held_since("a"), None);
    assert_eq!(*s.idle_start(), Some((15, "a".to_string())));
}

#[test]
fn instant_press_is_tap() {
    let mut s = Sequence::new();
    s.on_down("a");
    s.on_up("a");
    assert_eq!(taps(&s), vec![("a".to_string(), 0)]);
    assert!(segments(&s).is_empty());
}

#[test]
fn unmatched_release_is_tap() {
    let mut s = Sequence::new();
    s.advance(3);
    s.on_up("a");
    assert_eq!(taps(&s), vec![("a".to_string(), 3)]);
    assert_eq!(*s.idle_start(), Some((3, "a".to_string())));
}

#[test]
fn second_press_restarts_the_hold() {
    let mut s = Sequence::new();
    s.on_down("a");
    s.advance(4);
    s.on_down("a");
    s.advance(4);
    s.on_up("a");
    assert_eq!(segments(&s), vec![("a".to_string(), 4, 8)]);
}

#[test]
fn idle_starts_with_the_last_release() {
    let mut s = Sequence::new();
    s.on_down("a");
    s.on_down("b");
    s.advance(1);
    s.on_up("a");
    assert_eq!(*s.idle_start(), None);
    assert!(s.has_holds());
    s.advance(1);
    s.on_up("b");
    assert_eq!(*s.idle_start(), Some((2, "b".to_string())));
    assert!(!s.has_holds());
    s.on_down("a");
    assert_eq!(*s.idle_start(), Some((2, "b".to_string())));
}

#[test]
fn time_saturates() {
    let mut s = Sequence::new();
    s.advance(u64::MAX);
    s.on_down("a");
    s.advance(1);
    s.on_up("a");
    assert_eq!(s.now_ms(), u64::MAX);
    assert_eq!(taps(&s), vec![("a".to_string(), u64::MAX)]);
}
