//! Changes to the directory of input devices.

use vstd::prelude::*;

use crate::text::{chars_of, starts_with};

verus! {

/// An entry was created.
pub const CREATE: u32 = 0x100;

/// An entry was deleted.
pub const DELETE: u32 = 0x200;

/// An entry was moved out of the directory.
pub const MOVED_FROM: u32 = 0x40;

/// An entry was moved into the directory.
pub const MOVED_TO: u32 = 0x80;

/// What happened to an entry of the directory. The mask holds the flags of
/// inotify.
#[derive(Debug, Clone)]
pub struct DirEvent {
    pub name: Option<String>,
    pub mask: u32,
}

/// `EventMask::intersects` of the inotify crate: whether the two masks have a
/// flag in common.
#[verifier::external_body]
fn masks_intersect(mask: u32, flags: u32) -> (common: bool)
    ensures
        common == (mask & flags != 0),
{
    inotify::EventMask::from_bits_retain(mask).intersects(
        inotify::EventMask::from_bits_retain(flags),
    )
}

impl DirEvent {
    /// Whether the event may add or remove a device: a node whose name starts
    /// with `event` was created, deleted or moved.
    pub open spec fn concerns_device(self) -> bool {
        &&& self.name matches Some(name) && "event"@.is_prefix_of(name@)
        &&& self.mask & (CREATE | DELETE | MOVED_TO | MOVED_FROM) != 0
    }
}

/// Whether `event` may add or remove a device.
pub fn may_change_devices(event: &DirEvent) -> (yes: bool)
    ensures
        yes == event.concerns_device(),
{
    match &event.name {
        Some(name) => starts_with(&chars_of(name.as_str()), &chars_of("event"))
            && masks_intersect(event.mask, CREATE | DELETE | MOVED_TO | MOVED_FROM),
        None => false,
    }
}

/// Whether the list of devices is to be read again after `events`.
pub fn devices_changed(events: &Vec<DirEvent>) -> (changed: bool)
    ensures
        changed == exists|i: int|
            0 <= i < events@.len() && (#[trigger] events@[i]).concerns_device(),
{
    for i in 0..events.len()
        invariant
            forall|j: int| 0 <= j < i ==> !(#[trigger] events@[j]).concerns_device(),
    {
        if may_change_devices(&events[i]) {
            return true;
        }
    }
    false
}

/// An event without a name concerns no device, nor does one whose name does not
/// start with `event`.
pub proof fn law_other_nodes_concern_no_device(event: DirEvent)
    requires
        event.name matches Some(name) ==> !(name@.len() >= 5 && name@.take(5) == seq![
            'e',
            'v',
            'e',
            'n',
            't',
        ]),
    ensures
        !event.concerns_device(),
{
    reveal_strlit("event");
    if let Some(name) = event.name {
        if "event"@.is_prefix_of(name@) {
            assert(name@.take(5) =~= seq!['e', 'v', 'e', 'n', 't']);
        }
    }
}

/// A node whose name starts with `event`, whatever follows, concerns a device
/// exactly when it was moved away, moved here, created or deleted, whatever
/// other flags there are.
pub proof fn law_device_nodes_concern_devices(event: DirEvent, name: String)
    requires
        event.name == Some(name),
        name@.len() >= 5,
        name@.take(5) == seq!['e', 'v', 'e', 'n', 't'],
    ensures
        event.concerns_device() <==> event.mask & 0x40 != 0 || event.mask & 0x80 != 0 || event.mask
            & 0x100 != 0 || event.mask & 0x200 != 0,
{
    reveal_strlit("event");
    assert("event"@ =~= name@.subrange(0, 5)) by {
        assert(name@.take(5) =~= name@.subrange(0, 5));
    }
    assert("event"@.is_prefix_of(name@));
    let mask = event.mask;
    assert((mask & (0x100u32 | 0x200u32 | 0x80u32 | 0x40u32) != 0) <==> (mask & 0x40 != 0 || mask
        & 0x80 != 0 || mask & 0x100 != 0 || mask & 0x200 != 0)) by (bit_vector);
}

} // verus!
