use evdev::{AttributeSet, EventType, KeyCode, RelativeAxisCode};
use keyd_live_graph::clock::EventTime;
use keyd_live_graph::dir_watch::{self, devices_changed, may_change_devices, DirEvent};
use keyd_live_graph::evdev_reader::{
    keycode_label, label_of_name, KeyReader, RawEvent, EV_KEY, KEY_INSERT,
};
use keyd_live_graph::kbd::{
    collect_devices, detect_type, has_alpha_letters, has_keyboard_keys, keyboard_score, Candidate,
    DeviceType, REL_X,
};
use keyd_live_graph::Kind;
use std::path::PathBuf;

fn key_set(codes: &[u16]) -> AttributeSet<KeyCode> {
    let mut set = AttributeSet::new();
    for code in codes {
        set.insert(KeyCode::new(*code));
    }
    set
}

fn axis_set(codes: &[RelativeAxisCode]) -> AttributeSet<RelativeAxisCode> {
    let mut set = AttributeSet::new();
    for code in codes {
        set.insert(*code);
    }
    set
}

fn event_set(codes: &[EventType]) -> AttributeSet<EventType> {
    let mut set = AttributeSet::new();
    for code in codes {
        set.insert(*code);
    }
    set
}

fn candidate<'a>(
    path: &str,
    name: Option<&str>,
    events: &'a AttributeSet<EventType>,
    keys: Option<&'a AttributeSet<KeyCode>>,
    axes: Option<&'a AttributeSet<RelativeAxisCode>>,
) -> Candidate<'a> {
    Candidate {
        path: PathBuf::from(path),
        name: name.map(|n| n.to_string()),
        vendor: 1,
        product: 2,
        events,
        keys: keys.map(|k| &**k),
        axes: axes.map(|a| &**a),
    }
}

#[test]
fn codes_are_those_of_the_kernel() {
    assert_eq!(EV_KEY, EventType::KEY.0);
    assert_eq!(KEY_INSERT, KeyCode::KEY_INSERT.0);
    assert_eq!(REL_X, RelativeAxisCode::REL_X.0);
    assert_eq!(dir_watch::CREATE, inotify::EventMask::CREATE.bits());
    assert_eq!(dir_watch::DELETE, inotify::EventMask::DELETE.bits());
    assert_eq!(dir_watch::MOVED_TO, inotify::EventMask::MOVED_TO.bits());
    assert_eq!(dir_watch::MOVED_FROM, inotify::EventMask::MOVED_FROM.bits());
}

#[test]
fn letters_are_those_of_the_alphabet() {
    let letters = [
        KeyCode::KEY_A, KeyCode::KEY_B, KeyCode::KEY_C, KeyCode::KEY_D, KeyCode::KEY_E,
        KeyCode::KEY_F, KeyCode::KEY_G, KeyCode::KEY_H, KeyCode::KEY_I, KeyCode::KEY_J,
        KeyCode::KEY_K, KeyCode::KEY_L, KeyCode::KEY_M, KeyCode::KEY_N, KeyCode::KEY_O,
        KeyCode::KEY_P, KeyCode::KEY_Q, KeyCode::KEY_R, KeyCode::KEY_S, KeyCode::KEY_T,
        KeyCode::KEY_U, KeyCode::KEY_V, KeyCode::KEY_W, KeyCode::KEY_X, KeyCode::KEY_Y,
        KeyCode::KEY_Z,
    ];
    for code in 0..0x2ff_u16 {
        let expected = letters.contains(&KeyCode::new(code));
        assert_eq!(has_alpha_letters(&key_set(&[code])), expected, "{}", code);
    }
}

#[test]
fn ordinary_keys_end_before_the_power_button() {
    assert!(!has_keyboard_keys(&key_set(&[])));
    assert!(!has_keyboard_keys(&key_set(&[0, 116, 272])));
    assert!(has_keyboard_keys(&key_set(&[1])));
    assert!(has_keyboard_keys(&key_set(&[0, 115])));
}

#[test]
fn device_types_are_told_apart() {
    let events = event_set(&[EventType::KEY]);
    let letters = key_set(&[30]);
    let digits = key_set(&[2, 3]);
    let moves = axis_set(&[RelativeAxisCode::REL_X]);
    let wheel = axis_set(&[RelativeAxisCode::REL_WHEEL]);
    let of = |keys, axes| detect_type(&candidate("/dev/input/event0", None, &events, keys, axes));
    assert_eq!(of(Some(&letters), None), DeviceType::Keyboard);
    assert_eq!(of(Some(&letters), Some(&wheel)), DeviceType::Keyboard);
    assert_eq!(of(Some(&letters), Some(&moves)), DeviceType::KeyboardMouse);
    assert_eq!(of(Some(&digits), Some(&moves)), DeviceType::Mouse);
    assert_eq!(of(Some(&digits), None), DeviceType::Other);
    assert_eq!(of(None, None), DeviceType::Other);
}

#[test]
fn score_counts_ordinary_keys() {
    let events = event_set(&[EventType::KEY]);
    let keys = key_set(&[0, 1, 30, 115, 116]);
    let device = candidate("/dev/input/event0", None, &events, Some(&keys), None);
    assert_eq!(keyboard_score(&device, DeviceType::Keyboard), 1003);
    assert_eq!(keyboard_score(&device, DeviceType::KeyboardMouse), 903);
    assert_eq!(keyboard_score(&device, DeviceType::Mouse), 3);
    let bare = candidate("/dev/input/event0", None, &events, None, None);
    assert_eq!(keyboard_score(&bare, DeviceType::Other), 0);
}

#[test]
fn best_interface_of_each_keyboard_is_kept() {
    let events = event_set(&[EventType::KEY]);
    let silent = event_set(&[EventType::RELATIVE]);
    let one = key_set(&[30]);
    let two = key_set(&[30, 31]);
    let digits = key_set(&[2]);
    let moves = axis_set(&[RelativeAxisCode::REL_X]);
    let devices = vec![
        candidate("/e0", Some("a"), &events, Some(&one), None),
        candidate("/e1", None, &events, Some(&one), None),
        candidate("/e2", Some("a"), &events, Some(&two), None),
        candidate("/e3", Some("a"), &events, Some(&two), None),
        candidate("/e4", Some("a"), &events, Some(&two), Some(&moves)),
        candidate("/e5", Some("b"), &silent, Some(&two), None),
        candidate("/e6", Some("c"), &events, Some(&digits), None),
        candidate("/e7", Some("kanata"), &events, Some(&two), None),
    ];
    let infos = collect_devices(&devices);
    let found: Vec<(String, String)> = infos
        .iter()
        .map(|i| (i.path.display().to_string(), i.name.clone()))
        .collect();
    assert_eq!(
        found,
        vec![
            ("/e2".to_string(), "a".to_string()),
            ("/e1".to_string(), "Unknown".to_string()),
            ("/e7".to_string(), "kanata".to_string()),
        ]
    );
    assert_eq!(infos[0].vendor, Some(1));
    assert_eq!(infos[0].product, Some(2));
}

#[test]
fn different_ids_are_different_keyboards() {
    let events = event_set(&[EventType::KEY]);
    let keys = key_set(&[30]);
    let first = candidate("/e0", Some("a"), &events, Some(&keys), None);
    let mut second = candidate("/e1", Some("a"), &events, Some(&keys), None);
    second.vendor = 9;
    let mut third = candidate("/e2", Some("a"), &events, Some(&keys), None);
    third.product = 9;
    assert_eq!(collect_devices(&vec![first, second, third]).len(), 3);
    assert!(collect_devices(&vec![]).is_empty());
}

#[test]
fn labels_are_short_names() {
    assert_eq!(keycode_label(KeyCode::KEY_A.0), "a");
    assert_eq!(keycode_label(KeyCode::KEY_LEFTSHIFT.0), "leftshift");
    assert_eq!(keycode_label(KeyCode::BTN_LEFT.0), "btn_left");
    assert_eq!(keycode_label(0x2fe), "unknown key: 766");
    assert_eq!(label_of_name("KEY_KEY_Q"), "q");
    assert_eq!(label_of_name("key_Q"), "key_q");
}

fn raw(kind: u16, code: u16, value: i32, micros: u64) -> RawEvent {
    let time = EventTime::SinceEpoch {
        secs: micros / 1_000_000,
        nanos: (micros % 1_000_000) as u32 * 1000,
    };
    RawEvent { kind, code, value, time }
}

#[test]
fn key_events_are_read() {
    let mut reader = KeyReader::new();
    let first = reader.on_event(&raw(1, 30, 1, 5_000_000)).unwrap();
    assert_eq!((first.delta_ms, first.key.as_str(), first.kind), (0, "a", Kind::Down));
    let second = reader.on_event(&raw(1, 30, 0, 5_012_999)).unwrap();
    assert_eq!((second.delta_ms, second.key.as_str(), second.kind), (12, "a", Kind::Up));
    let third = reader.on_event(&raw(1, 48, -1, 6_112_999)).unwrap();
    assert_eq!((third.delta_ms, third.key.as_str(), third.kind), (1100, "b", Kind::Down));
}

#[test]
fn other_events_leave_no_trace() {
    let mut reader = KeyReader::new();
    reader.on_event(&raw(1, 30, 1, 1_000_000));
    assert!(reader.on_event(&raw(1, 30, 2, 2_000_000)).is_none());
    assert!(reader.on_event(&raw(1, KEY_INSERT, 1, 3_000_000)).is_none());
    assert!(reader.on_event(&raw(0, 0, 0, 4_000_000)).is_none());
    assert!(reader.on_event(&raw(2, 30, 1, 4_000_000)).is_none());
    assert!(reader.on_event(&raw(0x7777, 30, 1, 4_000_000)).is_none());
    assert_eq!(reader.on_event(&raw(1, 30, 0, 5_000_000)).unwrap().delta_ms, 4000);
}

#[test]
fn clock_set_back_gives_no_delta() {
    let mut reader = KeyReader::new();
    reader.on_event(&raw(1, 30, 1, 9_000_000));
    assert_eq!(reader.on_event(&raw(1, 30, 0, 8_000_000)).unwrap().delta_ms, 0);
    assert_eq!(reader.on_event(&raw(1, 30, 1, 8_500_000)).unwrap().delta_ms, 500);
}

#[test]
fn deltas_span_the_epoch() {
    let before = EventTime::BeforeEpoch { secs: 1, nanos: 500_000_000 };
    let after = EventTime::SinceEpoch { secs: 0, nanos: 250_000_000 };
    assert_eq!(after.ms_since(&before), 1750);
    assert_eq!(before.ms_since(&after), 0);
    let far = EventTime::SinceEpoch { secs: u64::MAX, nanos: 0 };
    let start = EventTime::SinceEpoch { secs: 0, nanos: 0 };
    assert_eq!(far.ms_since(&start), (u64::MAX as u128 * 1000) as u64);
}

#[test]
fn device_nodes_are_watched() {
    let of = |name: Option<&str>, mask: inotify::EventMask| {
        may_change_devices(&DirEvent { name: name.map(|n| n.to_string()), mask: mask.bits() })
    };
    assert!(of(Some("event3"), inotify::EventMask::CREATE));
    assert!(of(Some("event3"), inotify::EventMask::DELETE));
    assert!(of(Some("event"), inotify::EventMask::MOVED_TO));
    assert!(of(Some("event3"), inotify::EventMask::MOVED_FROM | inotify::EventMask::ISDIR));
    assert!(!of(Some("event3"), inotify::EventMask::ATTRIB));
    assert!(!of(Some("mouse0"), inotify::EventMask::CREATE));
    assert!(!of(Some("even"), inotify::EventMask::CREATE));
    assert!(!of(None, inotify::EventMask::CREATE));
}

#[test]
fn one_device_node_is_enough() {
    let event = |name: &str| DirEvent {
        name: Some(name.to_string()),
        mask: inotify::EventMask::CREATE.bits(),
    };
    assert!(!devices_changed(&vec![]));
    assert!(!devices_changed(&vec![event("mouse0"), event("js0")]));
    assert!(devices_changed(&vec![event("mouse0"), event("event7"), event("js0")]));
}

#[test]
fn mouse_with_a_hundred_keys_more_wins() {
    let events = event_set(&[EventType::KEY]);
    let moves = axis_set(&[RelativeAxisCode::REL_X]);
    let few = key_set(&[30]);
    let all: Vec<u16> = (1..=115).collect();
    let fewer_than_all: Vec<u16> = (1..=100).collect();
    let many = key_set(&all);
    let some = key_set(&fewer_than_all);
    let pure = || candidate("/pure", Some("a"), &events, Some(&few), None);
    let both = candidate("/both", Some("a"), &events, Some(&many), Some(&moves));
    let less = candidate("/less", Some("a"), &events, Some(&some), Some(&moves));
    assert_eq!(collect_devices(&vec![pure(), both])[0].path, PathBuf::from("/both"));
    assert_eq!(collect_devices(&vec![less, pure()])[0].path, PathBuf::from("/pure"));
}
