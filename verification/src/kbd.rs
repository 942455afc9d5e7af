//! Which input devices are keyboards, and which of several interfaces of one
//! keyboard to listen to.

use evdev::{AttributeSetRef, EventType, KeyCode, RelativeAxisCode};
use vstd::prelude::*;

use crate::evdev_reader::DeviceInfo;

verus! {

/// `AttributeSetRef` of the evdev crate, a set of codes.
#[verifier::external_type_specification]
#[verifier::external_body]
#[verifier::reject_recursive_types(T)]
pub struct ExAttributeSetRef<T>(AttributeSetRef<T>);

/// `KeyCode` of the evdev crate.
#[verifier::external_type_specification]
#[verifier::external_body]
pub struct ExKeyCode(KeyCode);

/// `RelativeAxisCode` of the evdev crate.
#[verifier::external_type_specification]
#[verifier::external_body]
pub struct ExRelativeAxisCode(RelativeAxisCode);

/// `EventType` of the evdev crate.
#[verifier::external_type_specification]
#[verifier::external_body]
pub struct ExEventType(EventType);

/// The codes in a set of keys.
pub uninterp spec fn key_codes(keys: &AttributeSetRef<KeyCode>) -> Set<u16>;

/// `AttributeSetRef::contains` of the evdev crate on a set of keys: whether the
/// code is in the set.
#[verifier::external_body]
fn key_set_contains(keys: &AttributeSetRef<KeyCode>, code: u16) -> (found: bool)
    ensures
        found == key_codes(keys).contains(code),
{
    keys.contains(KeyCode::new(code))
}

/// The codes in a set of relative axes.
pub uninterp spec fn axis_codes(axes: &AttributeSetRef<RelativeAxisCode>) -> Set<u16>;

/// `AttributeSetRef::contains` of the evdev crate on a set of relative axes:
/// whether the code is in the set.
#[verifier::external_body]
fn axis_set_contains(axes: &AttributeSetRef<RelativeAxisCode>, code: u16) -> (found: bool)
    ensures
        found == axis_codes(axes).contains(code),
{
    axes.contains(RelativeAxisCode(code))
}

/// The codes in a set of event types.
pub uninterp spec fn event_codes(events: &AttributeSetRef<EventType>) -> Set<u16>;

/// `AttributeSetRef::contains` of the evdev crate on a set of event types:
/// whether the type is in the set.
#[verifier::external_body]
fn event_set_contains(events: &AttributeSetRef<EventType>, code: u16) -> (found: bool)
    ensures
        found == event_codes(events).contains(code),
{
    events.contains(EventType(code))
}

/// The code of horizontal movement.
pub const REL_X: u16 = 0x00;

/// What a device is used for.
#[derive(Debug, Clone, Copy, PartialEq, Eq, Structural)]
pub enum DeviceType {
    Keyboard,
    Mouse,
    KeyboardMouse,
    Other,
}

/// Whether `code` lies among the codes of ordinary keys, which end before the
/// power button.
pub open spec fn is_ordinary_key(code: u16) -> bool {
    1 <= code <= 115
}

/// Whether `code` is that of a letter A to Z: the letters stand in three runs,
/// one for each row of the keyboard.
pub open spec fn is_letter_key(code: u16) -> bool {
    ||| 16 <= code <= 25
    ||| 30 <= code <= 38
    ||| 44 <= code <= 50
}

/// Whether an ordinary key is among `codes`.
pub open spec fn any_ordinary_key(codes: Set<u16>) -> bool {
    exists|code: u16| #[trigger] codes.contains(code) && is_ordinary_key(code)
}

/// Whether a letter is among `codes`.
pub open spec fn any_letter_key(codes: Set<u16>) -> bool {
    exists|code: u16| #[trigger] codes.contains(code) && is_letter_key(code)
}

/// Whether a set of keys has an ordinary one.
pub fn has_keyboard_keys(keys: &AttributeSetRef<KeyCode>) -> (found: bool)
    ensures
        found == any_ordinary_key(key_codes(keys)),
{
    has_key_between(keys, 1, 115)
}

/// Whether a set of keys has one with a code from `first` to `last`.
fn has_key_between(keys: &AttributeSetRef<KeyCode>, first: u16, last: u16) -> (found: bool)
    requires
        first <= last < u16::MAX,
    ensures
        found == exists|code: u16| #[trigger]
            key_codes(keys).contains(code) && first <= code <= last,
{
    for code in first..last + 1
        invariant
            forall|other: u16|
                first <= other < code ==> !(#[trigger] key_codes(keys).contains(other)),
    {
        if key_set_contains(keys, code) {
            return true;
        }
    }
    false
}

/// Whether a set of keys has a letter.
pub fn has_alpha_letters(keys: &AttributeSetRef<KeyCode>) -> (found: bool)
    ensures
        found == any_letter_key(key_codes(keys)),
{
    has_key_between(keys, 16, 25) || has_key_between(keys, 30, 38) || has_key_between(keys, 44, 50)
}

/// An input device as it was found, with what it says it can do.
pub struct Candidate<'a> {
    pub path: std::path::PathBuf,
    pub name: Option<String>,
    pub vendor: u16,
    pub product: u16,
    pub events: &'a AttributeSetRef<EventType>,
    pub keys: Option<&'a AttributeSetRef<KeyCode>>,
    pub axes: Option<&'a AttributeSetRef<RelativeAxisCode>>,
}

impl<'a> Candidate<'a> {
    /// The codes of the keys that the device has.
    pub open spec fn codes(self) -> Set<u16> {
        match self.keys {
            Some(keys) => key_codes(keys),
            None => Set::empty(),
        }
    }

    /// A keyboard has an ordinary key and a letter.
    pub open spec fn is_keyboard(self) -> bool {
        any_ordinary_key(self.codes()) && any_letter_key(self.codes())
    }

    /// A mouse moves horizontally.
    pub open spec fn is_mouse(self) -> bool {
        self.axes matches Some(axes) && axis_codes(axes).contains(REL_X)
    }

    /// What the device is used for.
    pub open spec fn device_type(self) -> DeviceType {
        if self.is_keyboard() {
            if self.is_mouse() {
                DeviceType::KeyboardMouse
            } else {
                DeviceType::Keyboard
            }
        } else if self.is_mouse() {
            DeviceType::Mouse
        } else {
            DeviceType::Other
        }
    }

    /// How many ordinary keys the device has.
    pub open spec fn key_count(self) -> nat {
        self.codes().filter(|code: u16| is_ordinary_key(code)).len()
    }

    /// How good a keyboard a device of type `dt` with these keys is.
    pub open spec fn score_as(self, dt: DeviceType) -> int {
        self.key_count() + match dt {
            DeviceType::Keyboard => 1000int,
            DeviceType::KeyboardMouse => 900,
            _ => 0,
        }
    }

    /// How good a keyboard the device is.
    pub open spec fn score(self) -> int {
        self.score_as(self.device_type())
    }
}

/// What a device is used for.
pub fn detect_type(dev: &Candidate) -> (dt: DeviceType)
    ensures
        dt == dev.device_type(),
{
    let is_keyboard: bool = match dev.keys {
        Some(keys) => has_keyboard_keys(keys) && has_alpha_letters(keys),
        None => false,
    };
    let is_mouse: bool = match dev.axes {
        Some(axes) => axis_set_contains(axes, REL_X),
        None => false,
    };
    match (is_keyboard, is_mouse) {
        (true, true) => DeviceType::KeyboardMouse,
        (true, false) => DeviceType::Keyboard,
        (false, true) => DeviceType::Mouse,
        (false, false) => DeviceType::Other,
    }
}

/// How many ordinary keys a set of keys has.
fn count_keys(keys: &AttributeSetRef<KeyCode>) -> (count: i32)
    ensures
        count == key_codes(keys).filter(|code: u16| is_ordinary_key(code)).len(),
        0 <= count <= 115,
{
    let mut count: i32 = 0;
    let ghost counted = Set::<u16>::empty();
    for code in 1u16..116u16
        invariant
            0 <= count < code,
            counted.finite(),
            counted.len() == count,
            forall|other: u16| #[trigger]
                counted.contains(other) <==> key_codes(keys).contains(other) && 1 <= other < code,
    {
        if key_set_contains(keys, code) {
            count = count + 1;
            proof {
                counted = counted.insert(code);
            }
        }
    }
    assert(counted =~= key_codes(keys).filter(|code: u16| is_ordinary_key(code)));
    count
}

/// How good a keyboard a device of type `dt` is: a thousand points for a pure
/// keyboard, nine hundred for one that is a mouse too, and one for each ordinary
/// key.
pub fn keyboard_score(dev: &Candidate, dt: DeviceType) -> (score: i32)
    ensures
        score == dev.score_as(dt),
{
    let base: i32 = match dt {
        DeviceType::Keyboard => 1000,
        DeviceType::KeyboardMouse => 900,
        _ => 0,
    };
    let count: i32 = match dev.keys {
        Some(keys) => count_keys(keys),
        None => {
            assert(dev.codes().filter(|code: u16| is_ordinary_key(code)) =~= Set::empty());
            0
        },
    };
    base + count
}

impl<'a> Candidate<'a> {
    /// The name to show.
    pub open spec fn shown_name(self) -> Seq<char> {
        match self.name {
            Some(name) => name@,
            None => "Unknown"@,
        }
    }

    /// Whether the device is one to listen to: it has key events at all, and is
    /// a keyboard.
    pub open spec fn wanted(self) -> bool {
        event_codes(self.events).contains(crate::evdev_reader::EV_KEY) && self.is_keyboard()
    }

    /// What decides whether the device is listened to.
    pub open spec fn rank(self) -> Rank {
        Rank {
            wanted: self.wanted(),
            name: self.shown_name(),
            vendor: self.vendor,
            product: self.product,
            score: self.score(),
        }
    }

    /// Whether `info` describes the device.
    pub open spec fn described_by(self, info: DeviceInfo) -> bool {
        &&& info.path == self.path
        &&& info.name@ == self.shown_name()
        &&& info.vendor == Some(self.vendor)
        &&& info.product == Some(self.product)
    }
}

/// What decides whether a device is listened to: whether it is wanted at all,
/// which keyboard it belongs to, and how good a keyboard it is.
pub struct Rank {
    pub wanted: bool,
    pub name: Seq<char>,
    pub vendor: u16,
    pub product: u16,
    pub score: int,
}

impl Rank {
    /// Whether two devices are interfaces of the same keyboard.
    pub open spec fn same_keyboard(self, other: Rank) -> bool {
        self.name == other.name && self.vendor == other.vendor && self.product == other.product
    }
}

/// The ranks of devices.
pub open spec fn ranks(devs: Seq<Candidate>) -> Seq<Rank> {
    devs.map_values(|dev: Candidate| dev.rank())
}

/// Whether device `i` is the one to listen to among the first `n` that are
/// interfaces of its keyboard: none has a higher score, and none before it has
/// the same.
pub open spec fn is_best(devs: Seq<Rank>, n: int, i: int) -> bool {
    &&& 0 <= i < n
    &&& devs[i].wanted
    &&& forall|j: int|
        0 <= j < n && (#[trigger] devs[j]).wanted && devs[j].same_keyboard(devs[i])
            ==> devs[j].score < devs[i].score || (devs[j].score == devs[i].score && i <= j)
}

/// Whether, of the first `n` devices, the keyboard of device `a` was found
/// before that of device `b`.
pub open spec fn found_before(devs: Seq<Rank>, n: int, a: int, b: int) -> bool {
    exists|i: int|
        0 <= i < n && (#[trigger] devs[i]).wanted && devs[i].same_keyboard(devs[a]) && (forall|
            j: int,
        |
            0 <= j < n && (#[trigger] devs[j]).wanted && devs[j].same_keyboard(devs[b]) ==> i < j)
}

/// Whether device `i` is wanted.
pub open spec fn wanted_at(devs: Seq<Rank>, i: int) -> bool {
    devs[i].wanted
}

/// Whether `picks` are the devices to listen to among the first `n`: the best
/// one of each keyboard and no other, in the order in which the keyboards were
/// found.
pub open spec fn is_selection(devs: Seq<Rank>, n: int, picks: Seq<int>) -> bool {
    &&& forall|a: int| 0 <= a < picks.len() ==> is_best(devs, n, #[trigger] picks[a])
    &&& forall|a: int, b: int|
        0 <= a < b < picks.len() ==> !devs[#[trigger] picks[a]].same_keyboard(
            devs[#[trigger] picks[b]],
        )
    &&& forall|i: int|
        0 <= i < n && #[trigger] wanted_at(devs, i) ==> exists|a: int|
            0 <= a < picks.len() && devs[i].same_keyboard(devs[#[trigger] picks[a]])
    &&& forall|a: int, b: int|
        0 <= a < b < picks.len() ==> found_before(
            devs,
            n,
            #[trigger] picks[a],
            #[trigger] picks[b],
        )
}

/// The best device of a keyboard so far.
struct Kept {
    score: i32,
    info: DeviceInfo,
}

/// Whether `kept` holds the devices `picks` with their scores.
spec fn keeps(devs: Seq<Candidate>, kept: Seq<Kept>, picks: Seq<int>) -> bool {
    &&& kept.len() == picks.len()
    &&& forall|a: int|
        0 <= a < picks.len() ==> devs[#[trigger] picks[a]].described_by(kept[a].info)
            && kept[a].score == devs[picks[a]].score()
}

/// The name to show for a device.
fn name_of(dev: &Candidate) -> (name: String)
    ensures
        name@ == dev.shown_name(),
{
    match &dev.name {
        Some(name) => name.clone(),
        None => "Unknown".to_owned(),
    }
}

/// Where the keyboard described by `info` is kept, if it is.
fn position_of(kept: &Vec<Kept>, info: &DeviceInfo) -> (position: Option<usize>)
    ensures
        match position {
            Some(a) => a < kept@.len() && kept@[a as int].info.name@ == info.name@
                && kept@[a as int].info.vendor == info.vendor && kept@[a as int].info.product
                == info.product,
            None => forall|a: int|
                0 <= a < kept@.len() ==> !((#[trigger] kept@[a]).info.name@ == info.name@
                    && kept@[a].info.vendor == info.vendor && kept@[a].info.product
                    == info.product),
        },
{
    for a in 0..kept.len()
        invariant
            forall|b: int|
                0 <= b < a ==> !((#[trigger] kept@[b]).info.name@ == info.name@
                    && kept@[b].info.vendor == info.vendor && kept@[b].info.product
                    == info.product),
    {
        let other = &kept[a].info;
        if other.name == info.name && other.vendor == info.vendor && other.product == info.product {
            return Some(a);
        }
    }
    None
}

proof fn lemma_unwanted(devs: Seq<Rank>, n: int, picks: Seq<int>)
    requires
        0 <= n < devs.len(),
        is_selection(devs, n, picks),
        !devs[n].wanted,
    ensures
        is_selection(devs, n + 1, picks),
{
    assert forall|a: int| 0 <= a < picks.len() implies is_best(
        devs,
        n + 1,
        #[trigger] picks[a],
    ) by {
        assert(is_best(devs, n, picks[a]));
    }
    assert forall|a: int, b: int| 0 <= a < b < picks.len() implies found_before(
        devs,
        n + 1,
        #[trigger] picks[a],
        #[trigger] picks[b],
    ) by {
        lemma_found_before_grows(devs, n, picks[a], picks[b]);
    }
}

/// A keyboard found before another one stays so.
proof fn lemma_found_before_grows(devs: Seq<Rank>, n: int, a: int, b: int)
    requires
        0 <= n < devs.len(),
        found_before(devs, n, a, b),
    ensures
        found_before(devs, n + 1, a, b),
{
    let i = choose|i: int|
        0 <= i < n && (#[trigger] devs[i]).wanted && devs[i].same_keyboard(devs[a]) && (forall|
            j: int,
        |
            0 <= j < n && (#[trigger] devs[j]).wanted && devs[j].same_keyboard(devs[b]) ==> i < j);
    assert(devs[i].wanted);
}

proof fn lemma_new_keyboard(devs: Seq<Rank>, n: int, picks: Seq<int>)
    requires
        0 <= n < devs.len(),
        is_selection(devs, n, picks),
        devs[n].wanted,
        forall|a: int| 0 <= a < picks.len() ==> !devs[#[trigger] picks[a]].same_keyboard(devs[n]),
    ensures
        is_selection(devs, n + 1, picks.push(n)),
{
    let longer = picks.push(n);
    assert forall|j: int| 0 <= j < n && (#[trigger] devs[j]).wanted implies !devs[j].same_keyboard(
        devs[n],
    ) by {
        assert(wanted_at(devs, j));
        let a = choose|a: int|
            0 <= a < picks.len() && devs[j].same_keyboard(devs[#[trigger] picks[a]]);
        assert(!devs[picks[a]].same_keyboard(devs[n]));
    }
    assert forall|a: int| 0 <= a < longer.len() implies is_best(
        devs,
        n + 1,
        #[trigger] longer[a],
    ) by {
        if a < picks.len() {
            assert(is_best(devs, n, picks[a]));
        }
    }
    assert forall|i: int| 0 <= i < n + 1 && #[trigger] wanted_at(devs, i) implies exists|a: int|
        0 <= a < longer.len() && devs[i].same_keyboard(devs[#[trigger] longer[a]]) by {
        if i < n {
            let a = choose|a: int|
                0 <= a < picks.len() && devs[i].same_keyboard(devs[#[trigger] picks[a]]);
            assert(longer[a] == picks[a]);
        } else {
            assert(longer[picks.len() as int] == n);
        }
    }
    assert forall|a: int, b: int| 0 <= a < b < longer.len() implies found_before(
        devs,
        n + 1,
        #[trigger] longer[a],
        #[trigger] longer[b],
    ) by {
        assert(is_best(devs, n, picks[a]));
        if b < picks.len() {
            lemma_found_before_grows(devs, n, picks[a], picks[b]);
        } else {
            assert(devs[picks[a]].wanted);
        }
    }
}

proof fn lemma_known_keyboard(devs: Seq<Rank>, n: int, picks: Seq<int>, k: int)
    requires
        0 <= n < devs.len(),
        is_selection(devs, n, picks),
        devs[n].wanted,
        0 <= k < picks.len(),
        devs[picks[k]].same_keyboard(devs[n]),
    ensures
        devs[n].score <= devs[picks[k]].score ==> is_selection(devs, n + 1, picks),
        devs[n].score > devs[picks[k]].score ==> is_selection(devs, n + 1, picks.update(k, n)),
{
    let better = devs[n].score > devs[picks[k]].score;
    let next = if better {
        picks.update(k, n)
    } else {
        picks
    };
    assert(is_best(devs, n, picks[k]));
    assert forall|a: int| 0 <= a < next.len() implies is_best(devs, n + 1, #[trigger] next[a]) by {
        assert(is_best(devs, n, picks[a]));
        if a != k {
            if a < k {
                assert(!devs[picks[a]].same_keyboard(devs[picks[k]]));
            } else {
                assert(!devs[picks[k]].same_keyboard(devs[picks[a]]));
            }
        }
    }
    assert forall|a: int, b: int|
        0 <= a < b < next.len() implies !devs[#[trigger] next[a]].same_keyboard(
        devs[#[trigger] next[b]],
    ) by {
        assert(!devs[picks[a]].same_keyboard(devs[picks[b]]));
    }
    assert forall|i: int| 0 <= i < n + 1 && #[trigger] wanted_at(devs, i) implies exists|a: int|
        0 <= a < next.len() && devs[i].same_keyboard(devs[#[trigger] next[a]]) by {
        if i < n {
            let a = choose|a: int|
                0 <= a < picks.len() && devs[i].same_keyboard(devs[#[trigger] picks[a]]);
            assert(devs[i].same_keyboard(devs[next[a]]));
        } else {
            assert(devs[i].same_keyboard(devs[next[k]]));
        }
    }
    assert forall|a: int, b: int| 0 <= a < b < next.len() implies found_before(
        devs,
        n + 1,
        #[trigger] next[a],
        #[trigger] next[b],
    ) by {
        assert(found_before(devs, n, picks[a], picks[b]));
        let i = choose|i: int|
            0 <= i < n && (#[trigger] devs[i]).wanted && devs[i].same_keyboard(devs[picks[a]])
                && (forall|j: int|
                0 <= j < n && (#[trigger] devs[j]).wanted && devs[j].same_keyboard(devs[picks[b]])
                    ==> i < j);
        assert(devs[i].wanted && devs[i].same_keyboard(devs[next[a]]));
    }
}

/// Whether `info` describes one of the devices that has key events and a
/// letter.
pub open spec fn describes_a_keyboard(info: DeviceInfo, devs: Seq<Candidate>) -> bool {
    exists|i: int|
        0 <= i < devs.len() && (#[trigger] devs[i]).described_by(info) && event_codes(
            devs[i].events,
        ).contains(1) && any_letter_key(devs[i].codes())
}

/// The wanted devices' keyboards are all described, and no others.
proof fn lemma_all_listed(devs: Seq<Candidate>, infos: Seq<DeviceInfo>, picks: Seq<int>)
    requires
        is_selection(ranks(devs), devs.len() as int, picks),
        infos.len() == picks.len(),
        forall|a: int|
            0 <= a < picks.len() ==> devs[#[trigger] picks[a]].described_by(infos[a]),
    ensures
        forall|i: int|
            0 <= i < devs.len() && event_codes((#[trigger] devs[i]).events).contains(1)
                && any_letter_key(devs[i].codes()) ==> exists|a: int|
                0 <= a < infos.len() && (#[trigger] infos[a]).name@ == devs[i].shown_name()
                    && infos[a].vendor == Some(devs[i].vendor) && infos[a].product == Some(
                    devs[i].product,
                ),
        forall|a: int|
            0 <= a < infos.len() ==> describes_a_keyboard(#[trigger] infos[a], devs),
{
    assert forall|i: int|
        0 <= i < devs.len() && event_codes((#[trigger] devs[i]).events).contains(1)
            && any_letter_key(devs[i].codes()) implies exists|a: int|
        0 <= a < infos.len() && (#[trigger] infos[a]).name@ == devs[i].shown_name()
            && infos[a].vendor == Some(devs[i].vendor) && infos[a].product == Some(
            devs[i].product,
        ) by {
        law_letters_make_a_keyboard(devs[i]);
        law_every_keyboard_is_picked(devs, picks, i);
        let a = choose|a: int|
            0 <= a < picks.len() && one_keyboard(devs[i], devs[#[trigger] picks[a]]);
        assert(devs[picks[a]].described_by(infos[a]));
    }
    assert forall|a: int| 0 <= a < infos.len() implies describes_a_keyboard(
        #[trigger] infos[a],
        devs,
    ) by {
        law_picks_are_wanted_and_distinct(devs, picks);
        assert(devs[picks[a]].described_by(infos[a]));
        law_letters_make_a_keyboard(devs[picks[a]]);
    }
}

/// Of the devices found, those to listen to: for each keyboard, which may show
/// up as several devices, the one with the highest score.
pub fn collect_devices(devs: &Vec<Candidate>) -> (infos: Vec<DeviceInfo>)
    ensures
        exists|picks: Seq<int>|
            {
                &&& #[trigger] is_selection(ranks(devs@), devs@.len() as int, picks)
                &&& infos@.len() == picks.len()
                &&& forall|a: int|
                    0 <= a < picks.len() ==> devs@[#[trigger] picks[a]].described_by(infos@[a])
            },
        forall|i: int|
            0 <= i < devs@.len() && event_codes((#[trigger] devs@[i]).events).contains(1)
                && any_letter_key(devs@[i].codes()) ==> exists|a: int|
                0 <= a < infos@.len() && (#[trigger] infos@[a]).name@ == devs@[i].shown_name()
                    && infos@[a].vendor == Some(devs@[i].vendor) && infos@[a].product == Some(
                    devs@[i].product,
                ),
        forall|a: int|
            0 <= a < infos@.len() ==> describes_a_keyboard(#[trigger] infos@[a], devs@),
{
    let mut kept: Vec<Kept> = Vec::new();
    let ghost ranked = ranks(devs@);
    let ghost mut picks = Seq::<int>::empty();
    for i in 0..devs.len()
        invariant
            ranked == ranks(devs@),
            is_selection(ranked, i as int, picks),
            keeps(devs@, kept@, picks),
    {
        let dev = &devs[i];
        let dt = detect_type(dev);
        if !event_set_contains(dev.events, crate::evdev_reader::EV_KEY) || !(dt
            == DeviceType::Keyboard || dt == DeviceType::KeyboardMouse) {
            proof {
                lemma_unwanted(ranked, i as int, picks);
            }
        } else {
            let info = DeviceInfo {
                path: dev.path.clone(),
                name: name_of(dev),
                vendor: Some(dev.vendor),
                product: Some(dev.product),
            };
            let score: i32 = keyboard_score(dev, dt);
            match position_of(&kept, &info) {
                Some(k) => {
                    proof {
                        assert(is_best(ranked, i as int, picks[k as int]));
                        assert(devs@[picks[k as int]].described_by(kept@[k as int].info));
                        assert(ranked[picks[k as int]].same_keyboard(ranked[i as int]));
                        lemma_known_keyboard(ranked, i as int, picks, k as int);
                    }
                    if kept[k].score < score {
                        kept.set(k, Kept { score, info });
                        proof {
                            picks = picks.update(k as int, i as int);
                        }
                    }
                },
                None => {
                    proof {
                        assert forall|a: int|
                            0 <= a < picks.len() implies !ranked[#[trigger] picks[a]].same_keyboard(
                            ranked[i as int],
                        ) by {
                            assert(is_best(ranked, i as int, picks[a]));
                            assert(devs@[picks[a]].described_by(kept@[a].info));
                        }
                        lemma_new_keyboard(ranked, i as int, picks);
                        picks = picks.push(i as int);
                    }
                    kept.push(Kept { score, info });
                },
            }
        }
    }
    let mut infos: Vec<DeviceInfo> = Vec::new();
    for entry in it: kept
        invariant
            it.seq() == kept@,
            keeps(devs@, kept@, picks),
            infos@.len() == it.index(),
            forall|a: int| 0 <= a < it.index() ==> infos@[a] == (#[trigger] kept@[a]).info,
    {
        infos.push(entry.info);
    }
    assert forall|a: int| 0 <= a < picks.len() implies devs@[#[trigger] picks[a]].described_by(
        infos@[a],
    ) by {
        assert(infos@[a] == kept@[a].info);
    }
    proof {
        lemma_all_listed(devs@, infos@, picks);
    }
    infos
}

proof fn lemma_not_both_before(devs: Seq<Rank>, n: int, a: int, b: int)
    ensures
        !(found_before(devs, n, a, b) && found_before(devs, n, b, a)),
{
}

/// A device picked by one selection is picked by any other.
proof fn lemma_picked_too(devs: Seq<Rank>, n: int, p: Seq<int>, q: Seq<int>, a: int) -> (b: int)
    requires
        is_selection(devs, n, p),
        is_selection(devs, n, q),
        0 <= a < p.len(),
    ensures
        0 <= b < q.len(),
        q[b] == p[a],
{
    assert(is_best(devs, n, p[a]));
    assert(wanted_at(devs, p[a]));
    let b = choose|b: int| 0 <= b < q.len() && devs[p[a]].same_keyboard(devs[#[trigger] q[b]]);
    assert(is_best(devs, n, q[b]));
    b
}

proof fn lemma_same_picks(devs: Seq<Rank>, n: int, p: Seq<int>, q: Seq<int>, k: int)
    requires
        is_selection(devs, n, p),
        is_selection(devs, n, q),
        0 <= k <= p.len(),
    ensures
        k <= q.len(),
        forall|m: int| 0 <= m < k ==> p[m] == q[m],
    decreases k,
{
    if k > 0 {
        let last = k - 1;
        lemma_same_picks(devs, n, p, q, last);
        let b = lemma_picked_too(devs, n, p, q, last);
        if b < last {
            assert(p[b] == q[b]);
            assert(!devs[p[b]].same_keyboard(devs[p[last]]));
        } else if b > last {
            let c = lemma_picked_too(devs, n, q, p, last);
            if c < last {
                assert(p[c] == q[c]);
                assert(!devs[q[c]].same_keyboard(devs[q[last]]));
            } else if c == last {
                assert(!devs[q[last]].same_keyboard(devs[q[b]]));
            } else {
                assert(found_before(devs, n, p[last], p[c]));
                assert(found_before(devs, n, q[last], q[b]));
                lemma_not_both_before(devs, n, p[last], p[c]);
            }
        }
    }
}

/// There is only one way to select among the same devices.
pub proof fn law_selection_is_unique(devs: Seq<Rank>, n: int, p: Seq<int>, q: Seq<int>)
    requires
        is_selection(devs, n, p),
        is_selection(devs, n, q),
    ensures
        p == q,
{
    lemma_same_picks(devs, n, p, q, p.len() as int);
    lemma_same_picks(devs, n, q, p, q.len() as int);
    assert(p =~= q);
}

/// A letter makes a keyboard: letters are ordinary keys.
pub proof fn law_letters_make_a_keyboard(dev: Candidate)
    ensures
        dev.is_keyboard() <==> any_letter_key(dev.codes()),
{
    if any_letter_key(dev.codes()) {
        let code = choose|code: u16| #[trigger] dev.codes().contains(code) && is_letter_key(code);
        assert(is_ordinary_key(code));
    }
}

/// A device is wanted for what it can do; its name, virtual devices' included,
/// and its ids play no part.
pub proof fn law_names_do_not_matter(dev: Candidate, other: Candidate)
    requires
        dev.events == other.events,
        dev.keys == other.keys,
        dev.axes == other.axes,
    ensures
        dev.wanted() == other.wanted(),
        dev.score() == other.score(),
{
}

/// A pure keyboard is preferred to one that is also a mouse, unless that has a
/// hundred or more ordinary keys more.
pub proof fn law_pure_keyboards_first(pure: Candidate, combined: Candidate)
    requires
        pure.device_type() == DeviceType::Keyboard,
        combined.device_type() == DeviceType::KeyboardMouse,
        combined.key_count() < pure.key_count() + 100,
    ensures
        combined.score() < pure.score(),
{
}

/// Among devices of one type, the one with more ordinary keys scores higher.
pub proof fn law_more_keys_score_higher(dev: Candidate, other: Candidate)
    requires
        dev.device_type() == other.device_type(),
        dev.key_count() < other.key_count(),
    ensures
        dev.score() < other.score(),
{
}

/// Ordinary keys have the codes 1 to 115, and letters those of the three rows
/// from Q to P, from A to L and from Z to M.
pub proof fn law_codes_of_keys(code: u16)
    ensures
        is_ordinary_key(code) <==> 1 <= code <= 115,
        is_letter_key(code) <==> 16 <= code <= 25 || 30 <= code <= 38 || 44 <= code <= 50,
        is_letter_key(code) ==> is_ordinary_key(code),
{
}

/// One ordinary key among any others is enough to have one, and so is one
/// letter; without one there is none.
pub proof fn law_one_key_is_enough(codes: Set<u16>)
    ensures
        any_ordinary_key(codes) <==> exists|code: u16|
            1 <= code <= 115 && #[trigger] codes.contains(code),
        any_letter_key(codes) <==> exists|code: u16| #[trigger]
            codes.contains(code) && (16 <= code <= 25 || 30 <= code <= 38 || 44 <= code <= 50),
{
    if exists|code: u16| 1 <= code <= 115 && #[trigger] codes.contains(code) {
        let code = choose|code: u16| 1 <= code <= 115 && #[trigger] codes.contains(code);
        assert(codes.contains(code) && is_ordinary_key(code));
    }
    if exists|code: u16| #[trigger]
        codes.contains(code) && (16 <= code <= 25 || 30 <= code <= 38 || 44 <= code <= 50) {
        let code = choose|code: u16| #[trigger]
            codes.contains(code) && (16 <= code <= 25 || 30 <= code <= 38 || 44 <= code <= 50);
        assert(codes.contains(code) && is_letter_key(code));
    }
}

/// The keys of a device are those that it reports; one that reports none has
/// none.
pub proof fn law_keys_of_a_device(dev: Candidate)
    ensures
        dev.keys matches Some(keys) ==> dev.codes() == key_codes(keys),
        dev.keys is None ==> dev.codes() == Set::<u16>::empty(),
{
}

/// A device is wanted exactly when it has key events and a letter, whatever
/// other event types, keys and axes it has, and whatever it is called.
pub proof fn law_what_is_wanted(dev: Candidate)
    ensures
        dev.wanted() <==> event_codes(dev.events).contains(1) && exists|code: u16| #[trigger]
            dev.codes().contains(code) && (16 <= code <= 25 || 30 <= code <= 38 || 44 <= code
                <= 50),
{
    law_letters_make_a_keyboard(dev);
    law_one_key_is_enough(dev.codes());
}

/// More event types, more keys and other axes do not make a device unwanted.
pub proof fn law_more_abilities_do_no_harm(dev: Candidate, other: Candidate)
    requires
        dev.wanted(),
        event_codes(dev.events).subset_of(event_codes(other.events)),
        dev.codes().subset_of(other.codes()),
    ensures
        other.wanted(),
{
    law_what_is_wanted(dev);
    law_what_is_wanted(other);
    let code = choose|code: u16| #[trigger]
        dev.codes().contains(code) && (16 <= code <= 25 || 30 <= code <= 38 || 44 <= code <= 50);
    assert(other.codes().contains(code));
}

/// The type of a device says whether it is a keyboard, which takes a letter,
/// and whether it is a mouse, which takes the axis with the code zero.
pub proof fn law_types_of_devices(dev: Candidate)
    ensures
        ({
            let letters = any_letter_key(dev.codes());
            let moves = dev.axes matches Some(axes) && axis_codes(axes).contains(0);
            &&& letters && moves ==> dev.device_type() == DeviceType::KeyboardMouse
            &&& letters && !moves ==> dev.device_type() == DeviceType::Keyboard
            &&& !letters && moves ==> dev.device_type() == DeviceType::Mouse
            &&& !letters && !moves ==> dev.device_type() == DeviceType::Other
        }),
{
    law_letters_make_a_keyboard(dev);
}

/// A device scores one point for each of its keys with the codes 1 to 115, and
/// a thousand more as a keyboard, or nine hundred as a keyboard that is a mouse
/// too.
pub proof fn law_points(dev: Candidate)
    ensures
        ({
            let count = dev.codes().intersect(Set::new(|code: u16| 1 <= code <= 115)).len();
            &&& dev.key_count() == count
            &&& dev.score_as(DeviceType::Keyboard) == 1000 + count
            &&& dev.score_as(DeviceType::KeyboardMouse) == 900 + count
            &&& dev.score_as(DeviceType::Mouse) == count
            &&& dev.score_as(DeviceType::Other) == count
            &&& dev.score() == dev.score_as(dev.device_type())
        }),
{
    assert(dev.codes().intersect(Set::new(|code: u16| 1 <= code <= 115))
        =~= dev.codes().filter(|code: u16| is_ordinary_key(code)));
}

/// A device is described by its path, vendor and product, and by its name, or
/// `Unknown` where it has none.
pub proof fn law_descriptions(dev: Candidate, info: DeviceInfo)
    ensures
        dev.described_by(info) <==> {
            &&& info.path == dev.path
            &&& info.vendor == Some(dev.vendor)
            &&& info.product == Some(dev.product)
            &&& match dev.name {
                Some(name) => info.name@ == name@,
                None => info.name@ == seq!['U', 'n', 'k', 'n', 'o', 'w', 'n'],
            }
        },
        dev.name matches Some(name) ==> dev.shown_name() == name@,
        dev.name is None ==> dev.shown_name() == seq!['U', 'n', 'k', 'n', 'o', 'w', 'n'],
{
    reveal_strlit("Unknown");
    assert("Unknown"@ =~= seq!['U', 'n', 'k', 'n', 'o', 'w', 'n']);
}

/// Whether two devices are interfaces of the same keyboard: they have the same
/// name, vendor and product.
pub open spec fn one_keyboard(dev: Candidate, other: Candidate) -> bool {
    dev.shown_name() == other.shown_name() && dev.vendor == other.vendor && dev.product
        == other.product
}

/// Two devices rank as interfaces of one keyboard exactly when they have the
/// same name, vendor and product; a device ranks by whether it is wanted and by
/// its score.
pub proof fn law_ranks(devs: Seq<Candidate>, i: int, j: int)
    requires
        0 <= i < devs.len(),
        0 <= j < devs.len(),
    ensures
        ranks(devs).len() == devs.len(),
        ranks(devs)[i].wanted == devs[i].wanted(),
        ranks(devs)[i].score == devs[i].score(),
        ranks(devs)[i].same_keyboard(ranks(devs)[j]) <==> devs[i].shown_name()
            == devs[j].shown_name() && devs[i].vendor == devs[j].vendor && devs[i].product
            == devs[j].product,
{
}

/// Only wanted devices are picked, and of no keyboard two.
pub proof fn law_picks_are_wanted_and_distinct(devs: Seq<Candidate>, picks: Seq<int>)
    requires
        is_selection(ranks(devs), devs.len() as int, picks),
    ensures
        forall|a: int|
            0 <= a < picks.len() ==> 0 <= #[trigger] picks[a] < devs.len()
                && devs[picks[a]].wanted(),
        forall|a: int, b: int|
            0 <= a < b < picks.len() ==> !one_keyboard(
                devs[#[trigger] picks[a]],
                devs[#[trigger] picks[b]],
            ),
{
    let ranked = ranks(devs);
    assert forall|a: int| 0 <= a < picks.len() implies 0 <= #[trigger] picks[a] < devs.len()
        && devs[picks[a]].wanted() by {
        assert(is_best(ranked, devs.len() as int, picks[a]));
        law_ranks(devs, picks[a], picks[a]);
    }
    assert forall|a: int, b: int| 0 <= a < b < picks.len() implies !one_keyboard(
        devs[#[trigger] picks[a]],
        devs[#[trigger] picks[b]],
    ) by {
        assert(!ranked[picks[a]].same_keyboard(ranked[picks[b]]));
        law_ranks(devs, picks[a], picks[b]);
    }
}

/// Of the keyboard of every wanted device one is picked: this device itself, or
/// one with a higher score, or one found earlier with the same.
pub proof fn law_every_keyboard_is_picked(devs: Seq<Candidate>, picks: Seq<int>, i: int)
    requires
        is_selection(ranks(devs), devs.len() as int, picks),
        0 <= i < devs.len(),
        devs[i].wanted(),
    ensures
        exists|a: int|
            {
                &&& 0 <= a < picks.len()
                &&& one_keyboard(devs[i], devs[#[trigger] picks[a]])
                &&& devs[picks[a]].score() > devs[i].score() || devs[picks[a]].score()
                    == devs[i].score() && picks[a] <= i
            },
{
    let ranked = ranks(devs);
    law_ranks(devs, i, i);
    assert(wanted_at(ranked, i));
    let a = choose|a: int|
        0 <= a < picks.len() && ranked[i].same_keyboard(ranked[#[trigger] picks[a]]);
    assert(is_best(ranked, devs.len() as int, picks[a]));
    law_ranks(devs, i, picks[a]);
    law_ranks(devs, picks[a], i);
    assert(ranked[i].wanted);
}

/// A keyboard is listed before another one whose first wanted device was found
/// later.
pub proof fn law_keyboards_in_order_of_discovery(
    devs: Seq<Candidate>,
    picks: Seq<int>,
    a: int,
    b: int,
)
    requires
        is_selection(ranks(devs), devs.len() as int, picks),
        0 <= a < b < picks.len(),
    ensures
        exists|i: int|
            {
                &&& 0 <= i < devs.len()
                &&& (#[trigger] devs[i]).wanted()
                &&& one_keyboard(devs[i], devs[picks[a]])
                &&& forall|j: int|
                    0 <= j < devs.len() && (#[trigger] devs[j]).wanted() && one_keyboard(
                        devs[j],
                        devs[picks[b]],
                    ) ==> i < j
            },
{
    let ranked = ranks(devs);
    let n = devs.len() as int;
    assert(is_best(ranked, n, picks[a]));
    assert(is_best(ranked, n, picks[b]));
    assert(found_before(ranked, n, picks[a], picks[b]));
    let i = choose|i: int|
        0 <= i < n && (#[trigger] ranked[i]).wanted && ranked[i].same_keyboard(ranked[picks[a]])
            && (forall|j: int|
            0 <= j < n && (#[trigger] ranked[j]).wanted && ranked[j].same_keyboard(
                ranked[picks[b]],
            ) ==> i < j);
    law_ranks(devs, i, picks[a]);
    assert(devs[i].wanted());
    assert forall|j: int| 0 <= j < devs.len() && (#[trigger] devs[j]).wanted() && one_keyboard(
        devs[j],
        devs[picks[b]],
    ) implies i < j by {
        law_ranks(devs, j, picks[b]);
        assert(ranked[j].wanted);
    }
}

} // verus!
