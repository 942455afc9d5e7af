//! Key events read from an input device.

use vstd::prelude::*;

use crate::clock::EventTime;
use crate::event::{Event, EventView, Kind};
use crate::text::{chars_of, string_of, strip_prefixes, to_lower};

verus! {

/// `PathBuf` of the standard library; paths are only carried through.
#[verifier::external_type_specification]
#[verifier::external_body]
pub struct ExPathBuf(std::path::PathBuf);

/// `clone` of `PathBuf` of the standard library gives an equal path.
pub assume_specification[ <std::path::PathBuf as Clone>::clone ](
    path: &std::path::PathBuf,
) -> (copy: std::path::PathBuf)
    ensures
        copy == *path,
;

/// An input device that can be listened to.
#[derive(Debug, Clone)]
pub struct DeviceInfo {
    pub path: std::path::PathBuf,
    pub name: String,
    pub vendor: Option<u16>,
    pub product: Option<u16>,
}

/// The type of key events.
pub const EV_KEY: u16 = 0x01;

/// The code of the Insert key.
pub const KEY_INSERT: u16 = 110;

/// The value of a key event that the keyboard repeats.
pub const VALUE_REPEAT: i32 = 2;

/// The code and value of an event of type `kind`, if it is a key event.
/// `InputEvent::destructure` of the evdev crate gives the variant `Key`, with
/// the event's own code and value, exactly for events of the type `KEY`.
#[verifier::external_body]
fn as_key_event(kind: u16, code: u16, value: i32) -> (key: Option<(u16, i32)>)
    ensures
        key == if kind == 0x01 {
            Some((code, value))
        } else {
            None
        },
{
    match evdev::InputEvent::new(kind, code, value).destructure() {
        evdev::EventSummary::Key(_, code, value) => Some((code.0, value)),
        _ => None,
    }
}

/// The name of the key with code `code`, as the `Debug` impl of `KeyCode` in
/// the evdev crate writes it.
pub uninterp spec fn keycode_name(code: u16) -> Seq<char>;

/// The `Debug` impl of `KeyCode` of the evdev crate, which looks the code up in
/// a fixed table of names: the text depends on the code alone.
#[verifier::external_body]
fn keycode_debug(code: u16) -> (name: String)
    ensures
        name@ == keycode_name(code),
{
    format!("{:?}", evdev::KeyCode::new(code))
}

/// The label of a key with the name `name`: the name in lower case, without the
/// `KEY_` in front.
pub open spec fn label(name: Seq<char>) -> Seq<char> {
    crate::text::without_prefixes(name, "KEY_"@).map_values(|c: char| crate::text::lower(c))
}

/// A key named `KEY_` and something else is labelled with the something else in
/// lower case.
pub proof fn law_label_drops_key(rest: Seq<char>)
    requires
        !"KEY_"@.is_prefix_of(rest),
    ensures
        label("KEY_"@ + rest) == rest.map_values(|c: char| crate::text::lower(c)),
{
    let name = "KEY_"@ + rest;
    reveal_strlit("KEY_");
    assert("KEY_"@ == name.subrange(0, 4));
    assert(name.skip(4) == rest);
    assert(crate::text::without_prefixes(rest, "KEY_"@) == rest);
}

/// The label of a key with the name `name`.
pub fn label_of_name(name: &str) -> (out: String)
    ensures
        out@ == label(name@),
{
    let bare: Vec<char> = strip_prefixes(&chars_of(name), &chars_of("KEY_"));
    string_of(&to_lower(&bare))
}

/// The label of the key with code `code`.
pub fn keycode_label(code: u16) -> (out: String)
    ensures
        out@ == label(keycode_name(code)),
{
    label_of_name(keycode_debug(code).as_str())
}

/// An event as the device reports it.
#[derive(Debug, Clone, Copy)]
pub struct RawEvent {
    pub kind: u16,
    pub code: u16,
    pub value: i32,
    pub time: EventTime,
}

/// Turns the events of one device into key events. Remembers the time of the
/// last one.
#[derive(Debug, Clone)]
pub struct KeyReader {
    pub last_ts: Option<EventTime>,
}

/// Whether a key event is passed on: repeats and the Insert key are not.
pub open spec fn counts(code: u16, value: i32) -> bool {
    value != 2 && code != 110
}

impl KeyReader {
    /// The key event that the reader makes of a press or release.
    pub open spec fn key_event(
        self,
        value: i32,
        time: EventTime,
        label: Seq<char>,
    ) -> EventView {
        EventView {
            delta_ms: match self.last_ts {
                Some(last) => time.millis_since(last),
                None => 0,
            },
            key: label,
            kind: if value != 0 {
                Kind::Down
            } else {
                Kind::Up
            },
        }
    }

    /// A reader that has seen no event.
    pub fn new() -> (reader: KeyReader)
        ensures
            reader.last_ts is None,
    {
        KeyReader { last_ts: None }
    }

    /// Takes a key event whose key has the label `label`.
    pub fn on_key(&mut self, code: u16, value: i32, time: EventTime, label: String) -> (event:
        Option<Event>)
        ensures
            match event {
                Some(event) => {
                    &&& counts(code, value)
                    &&& event@ == old(self).key_event(value, time, label@)
                    &&& final(self).last_ts == Some(time)
                },
                None => !counts(code, value) && *final(self) == *old(self),
            },
            event is Some <==> value != VALUE_REPEAT && code != KEY_INSERT,
            event matches Some(event) ==> event.key == label && (event.kind == Kind::Up <==> value
                == 0),
    {
        if value == VALUE_REPEAT || code == KEY_INSERT {
            return None;
        }
        let delta_ms: u64 = match &self.last_ts {
            Some(last) => time.ms_since(last),
            None => 0,
        };
        let kind: Kind = if value != 0 {
            Kind::Down
        } else {
            Kind::Up
        };
        self.last_ts = Some(time);
        Some(Event { delta_ms, key: label, kind })
    }

    /// Takes an event of the device. Events that are not key events are passed
    /// over.
    pub fn on_event(&mut self, raw: &RawEvent) -> (event: Option<Event>)
        ensures
            match event {
                Some(event) => {
                    &&& raw.kind == EV_KEY
                    &&& counts(raw.code, raw.value)
                    &&& event@ == old(self).key_event(
                        raw.value,
                        raw.time,
                        label(keycode_name(raw.code)),
                    )
                    &&& final(self).last_ts == Some(raw.time)
                },
                None => {
                    &&& raw.kind != EV_KEY || !counts(raw.code, raw.value)
                    &&& *final(self) == *old(self)
                },
            },
            event is Some <==> raw.kind == EV_KEY && raw.value != VALUE_REPEAT && raw.code
                != KEY_INSERT,
            event matches Some(event) ==> (event.kind == Kind::Up <==> raw.value == 0),
    {
        match as_key_event(raw.kind, raw.code, raw.value) {
            Some((code, value)) => self.on_key(code, value, raw.time, keycode_label(code)),
            None => None,
        }
    }
}

/// Of the key events only repeats, which have the value 2, and those of the
/// Insert key, which has the code 110, are dropped.
pub proof fn law_only_repeats_and_insert_are_dropped(code: u16, value: i32)
    ensures
        counts(code, value) <==> value != 2 && code != 110,
        VALUE_REPEAT == 2,
        KEY_INSERT == 110,
        EV_KEY == 1,
{
}

/// A key event keeps its label; the value zero is a release and any other a
/// press.
pub proof fn law_value_zero_is_a_release(
    reader: KeyReader,
    value: i32,
    time: EventTime,
    label: Seq<char>,
)
    ensures
        reader.key_event(value, time, label).key == label,
        value == 0 ==> reader.key_event(value, time, label).kind == Kind::Up,
        value != 0 ==> reader.key_event(value, time, label).kind == Kind::Down,
{
}

/// The first key event has no delta. A further one has the most whole
/// milliseconds that fit between the last one and it, as far as 64 bits hold
/// them, or none when the clock was set back.
pub proof fn law_delta_since_the_last_key_event(
    reader: KeyReader,
    value: i32,
    time: EventTime,
    label: Seq<char>,
)
    ensures
        ({
            let delta = reader.key_event(value, time, label).delta_ms;
            match reader.last_ts {
                None => delta == 0,
                Some(last) => {
                    let gap = time.nanos() - last.nanos();
                    &&& gap < 0 ==> delta == 0
                    &&& gap >= 0 ==> delta as int == (gap / 1_000_000) % 0x1_0000_0000_0000_0000
                },
            }
        }),
{
    if let Some(last) = reader.last_ts {
        crate::clock::law_deltas(last, time);
    }
}

/// A name is labelled like what stands behind a `KEY_` in front of it; without
/// one, each capital A to Z becomes the small letter 32 places on, and all other
/// characters stay.
pub proof fn law_labels(name: Seq<char>)
    ensures
        label(seq!['K', 'E', 'Y', '_'] + name) == label(name),
        !(name.len() >= 4 && name.take(4) == seq!['K', 'E', 'Y', '_']) ==> {
            &&& label(name).len() == name.len()
            &&& forall|i: int|
                0 <= i < name.len() ==> (#[trigger] label(name)[i]) as int == if 65
                    <= name[i] as int <= 90 {
                    name[i] as int + 32
                } else {
                    name[i] as int
                }
        },
{
    let prefix = seq!['K', 'E', 'Y', '_'];
    reveal_strlit("KEY_");
    assert("KEY_"@ =~= prefix);
    crate::text::law_prefixes_go_one_by_one(prefix, name);
    if !(name.len() >= 4 && name.take(4) == prefix) {
        if prefix.is_prefix_of(name) {
            assert(name.take(4) =~= prefix);
        }
        assert forall|i: int| 0 <= i < name.len() implies (#[trigger] label(name)[i]) as int == if 65
            <= name[i] as int <= 90 {
            name[i] as int + 32
        } else {
            name[i] as int
        } by {
            crate::text::law_lower_moves_capitals_only(name[i]);
        }
    }
}

} // verus!
