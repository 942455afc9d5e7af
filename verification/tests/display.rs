use keyd_live_graph::frame::{AxisScale, HoldBar, SegmentBar, TapDot};
use keyd_live_graph::graph::Arrival;
use keyd_live_graph::{AppState, Event, Kind};

const MS: u128 = 1_000_000;

fn arrival(delta_ms: u64, key: &str, kind: Kind, at_ms: u128) -> Arrival {
    Arrival { event: Event { delta_ms, key: key.to_string(), kind }, at_ns: at_ms * MS }
}

#[test]
fn nothing_to_draw_at_first() {
    let mut state = AppState::new(1000);
    assert_eq!(state.gap_ms(), 1000);
    let picture = state.update(&vec![], 5 * MS);
    assert!(!picture.recording);
    assert!(picture.frame.is_none());
}

#[test]
fn live_sequence_is_drawn() {
    let mut state = AppState::new(1000);
    let events = vec![
        arrival(999, "a", Kind::Down, 0),
        arrival(10, "b", Kind::Up, 10),
        arrival(20, "a", Kind::Up, 30),
        arrival(5, "c", Kind::Down, 35),
        arrival(5, "b", Kind::Down, 40),
    ];
    let picture = state.update(&events, 50 * MS + 1);
    assert!(picture.recording);
    let frame = picture.frame.unwrap();
    assert_eq!(frame.rows, vec!["a".to_string(), "b".to_string(), "c".to_string()]);
    assert_eq!(frame.lanes, 3);
    assert_eq!(frame.axis, AxisScale::Fixed { tmax_ms: 50 });
    assert_eq!(
        frame.segments,
        vec![SegmentBar { row: 0, start_ms: 0, end_ms: 30, dur_ms: 30 }]
    );
    assert_eq!(frame.taps, vec![TapDot { row: 1, at_ms: 10 }]);
    assert_eq!(
        frame.holds,
        vec![
            HoldBar { row: 1, start_ms: 40, end_ms: 50 },
            HoldBar { row: 2, start_ms: 35, end_ms: 50 },
        ]
    );
}

#[test]
fn gap_ends_the_sequence() {
    let mut state = AppState::new(100);
    let events = vec![arrival(0, "a", Kind::Down, 0), arrival(40, "a", Kind::Up, 40)];
    assert!(state.update(&events, 40 * MS).recording);
    assert!(state.update(&vec![], 140 * MS - 1).recording);
    let picture = state.update(&vec![], 140 * MS);
    assert!(!picture.recording);
    let frame = picture.frame.unwrap();
    assert_eq!(
        frame.axis,
        AxisScale::Shrinking { from_ms: 140, to_ms: 40, elapsed_ms: 0, dur_ms: 220 }
    );
    assert_eq!(frame.segments.len(), 1);
}

#[test]
fn held_key_keeps_the_sequence() {
    let mut state = AppState::new(100);
    state.update(&vec![arrival(0, "a", Kind::Down, 0)], 0);
    let picture = state.update(&vec![], 10_000 * MS);
    assert!(picture.recording);
    assert_eq!(picture.frame.unwrap().axis, AxisScale::Fixed { tmax_ms: 10_000 });
}

#[test]
fn axis_settles_after_shrinking() {
    let mut state = AppState::new(0);
    state.update(&vec![arrival(0, "a", Kind::Up, 0)], 0);
    let axis = |state: &mut AppState, at: u128| state.update(&vec![], at).frame.unwrap().axis;
    assert_eq!(
        axis(&mut state, 219 * MS),
        AxisScale::Shrinking { from_ms: 1, to_ms: 1, elapsed_ms: 219, dur_ms: 220 }
    );
    assert_eq!(
        axis(&mut state, 220 * MS),
        AxisScale::Shrinking { from_ms: 1, to_ms: 1, elapsed_ms: 220, dur_ms: 220 }
    );
    assert_eq!(axis(&mut state, 221 * MS), AxisScale::Fixed { tmax_ms: 1 });
}

#[test]
fn next_event_starts_afresh() {
    let mut state = AppState::new(10);
    state.update(&vec![arrival(0, "a", Kind::Up, 0)], 10 * MS);
    let picture = state.update(&vec![arrival(5000, "b", Kind::Down, 5000)], 5000 * MS);
    assert!(picture.recording);
    let frame = picture.frame.unwrap();
    assert_eq!(frame.rows, vec!["b".to_string()]);
    assert_eq!(frame.holds, vec![HoldBar { row: 0, start_ms: 0, end_ms: 0 }]);
    assert_eq!(frame.axis, AxisScale::Fixed { tmax_ms: 1 });
}

#[test]
fn batches_do_not_matter() {
    let events = vec![
        arrival(3, "a", Kind::Down, 0),
        arrival(4, "b", Kind::Down, 4),
        arrival(5, "a", Kind::Up, 9),
    ];
    let mut together = AppState::new(1000);
    together.ingest(&events);
    let mut apart = AppState::new(1000);
    for event in events {
        apart.ingest(&vec![event]);
    }
    let one = together.take_picture(20 * MS).unwrap();
    let other = apart.take_picture(20 * MS).unwrap();
    assert_eq!(one.rows, other.rows);
    assert_eq!(one.segments, other.segments);
    assert_eq!(one.segments, vec![SegmentBar { row: 0, start_ms: 0, end_ms: 9, dur_ms: 9 }]);
    assert_eq!(one.holds, other.holds);
    assert_eq!(one.axis, other.axis);
}

#[test]
fn clock_that_runs_backwards_shows_no_idle_time() {
    let mut state = AppState::new(1);
    state.update(&vec![arrival(0, "a", Kind::Up, 50)], 50 * MS);
    let picture = state.update(&vec![], 20 * MS);
    assert!(picture.recording);
    assert_eq!(picture.frame.unwrap().axis, AxisScale::Fixed { tmax_ms: 1 });
}

#[test]
fn sequence_reflects_its_events() {
    let mut state = AppState::new(1000);
    state.ingest(&vec![
        arrival(900, "a", Kind::Down, 0),
        arrival(1, "b", Kind::Up, 1),
        arrival(2, "a", Kind::Up, 3),
        arrival(4, "a", Kind::Up, 7),
        arrival(8, "c", Kind::Down, 15),
    ]);
    let frame = state.take_picture(15 * MS).unwrap();
    assert_eq!(frame.rows, vec!["a".to_string(), "b".to_string(), "c".to_string()]);
    assert_eq!(frame.segments.len() + frame.taps.len(), 3);
    assert_eq!(frame.axis, AxisScale::Fixed { tmax_ms: 15 });
}

#[test]
fn finalize_reports_recording() {
    let mut state = AppState::new(10);
    assert!(!state.finalize(0));
    state.ingest_one(&arrival(0, "a", Kind::Up, 0));
    assert!(state.finalize(9 * MS));
    assert!(!state.finalize(10 * MS));
    assert!(!state.finalize(11 * MS));
}
