//! Turns a stream of key presses and releases into a live graph of holds and
//! taps.
//!
//! Events come as monitor lines ([`event`]) or from an input device
//! ([`evdev_reader`], [`kbd`], [`dir_watch`]). They make up sequences
//! ([`sequence`]), which [`graph`] records, ends and draws ([`frame`]).

pub mod args;
pub mod clock;
pub mod dir_watch;
pub mod evdev_reader;
pub mod event;
pub mod frame;
pub mod graph;
pub mod kbd;
pub mod number;
pub mod sequence;
pub mod text;

pub use args::gap_from_args;
pub use event::{parse_line, Event, Kind};
pub use graph::{AppState, ScaleAnim};
pub use sequence::{Segment, Sequence, Tap};
