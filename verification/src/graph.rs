//! The state of the live graph: which sequence is being recorded, when it
//! ends, and what there is to draw.
//!
//! Clock readings are nanoseconds since some fixed moment.

use vstd::prelude::*;

use crate::clock::{cut_to_64_bits, elapsed_ms, NANOS_PER_MILLI};
use crate::event::{Event, EventView, Kind};
use crate::frame::{draw, AxisScale, Frame, FrameView};
use crate::sequence::{Sequence, SequenceView};

verus! {

/// How long the time axis takes to shrink once a sequence has ended.
pub const SHRINK_MS: u64 = 220;

/// An event and the clock reading with which it arrived.
#[derive(Debug, Clone)]
pub struct Arrival {
    pub event: Event,
    pub at_ns: u128,
}

/// The contents of an [`Arrival`].
pub struct ArrivalView {
    pub event: EventView,
    pub at_ns: u128,
}

impl View for Arrival {
    type V = ArrivalView;

    open spec fn view(&self) -> ArrivalView {
        ArrivalView { event: self.event@, at_ns: self.at_ns }
    }
}

/// The shrinking of the time axis from `from_ms` to `to_ms`.
#[derive(Debug, Clone, Copy, PartialEq, Eq, Structural)]
pub struct ScaleAnim {
    pub start_ns: u128,
    pub from_ms: u64,
    pub to_ms: u64,
    pub dur_ms: u64,
}

/// The larger of `ms` and one, so that a scale is never zero.
pub open spec fn at_least_one(ms: u64) -> u64 {
    if ms < 1 {
        1
    } else {
        ms
    }
}

/// The contents of an [`AppState`].
#[verifier::ext_equal]
pub struct AppStateView {
    pub gap_ms: u64,
    pub prev: Option<SequenceView>,
    pub cur: Option<SequenceView>,
    pub last_event: Option<u128>,
    pub anim_scale: Option<ScaleAnim>,
}

impl SequenceView {
    /// The sequence after a press or release of `key`.
    pub open spec fn pressed(self, key: Seq<char>, kind: Kind) -> SequenceView {
        match kind {
            Kind::Down => self.down(key),
            Kind::Up => self.up(key),
        }
    }
}

impl AppStateView {
    /// What holds of every state: its sequences are valid, no key of one that
    /// ended is held, one that is being recorded has a last event, and an axis
    /// that shrinks does so to the scale of the sequence that ended last.
    pub open spec fn valid(self) -> bool {
        &&& self.prev matches Some(s) ==> s.valid() && s.holds.is_empty()
        &&& self.cur matches Some(s) ==> s.valid()
        &&& self.cur is Some ==> self.last_event is Some
        &&& self.anim_scale matches Some(anim) ==> {
            &&& anim.dur_ms == SHRINK_MS
            &&& 1 <= anim.to_ms <= anim.from_ms
            &&& self.prev matches Some(s) && anim.to_ms == at_least_one(s.now_ms)
        }
    }

    /// The state after one arrival. The first event of a sequence happens at
    /// time zero, each further one its delta after the one before.
    pub open spec fn arrived(self, arrival: ArrivalView) -> AppStateView {
        let event = arrival.event;
        let at = match self.cur {
            None => SequenceView::empty(),
            Some(s) => s.later(event.delta_ms),
        };
        AppStateView {
            cur: Some(at.pressed(event.key, event.kind)),
            last_event: Some(arrival.at_ns),
            ..self
        }
    }

    /// The state after all `arrivals`, in their order.
    pub open spec fn arrived_all(self, arrivals: Seq<ArrivalView>) -> AppStateView
        decreases arrivals.len(),
    {
        if arrivals.len() == 0 {
            self
        } else {
            self.arrived_all(arrivals.drop_last()).arrived(arrivals.last())
        }
    }

    /// Whether the gap that ends a sequence has passed since the last event.
    pub open spec fn gap_passed(self, now_ns: u128) -> bool {
        self.last_event matches Some(then) && now_ns.saturating_sub(then) >= self.gap_ms
            * 1_000_000
    }

    /// Whether the sequence that is being recorded has keys held.
    pub open spec fn has_holds(self) -> bool {
        self.cur matches Some(s) && !s.holds.is_empty()
    }

    /// Whether a sequence is being recorded that goes on.
    pub open spec fn recording(self, now_ns: u128) -> bool {
        self.cur is Some && (!self.gap_passed(now_ns) || self.has_holds())
    }

    /// Milliseconds since the last event, in 64 bits.
    pub open spec fn idle_ms(self, now_ns: u128) -> u64 {
        match self.last_event {
            Some(then) => crate::clock::low_64_bits(crate::clock::millis_between(then, now_ns)),
            None => 0,
        }
    }

    /// The state after the end of the sequence was looked for: once the gap has
    /// passed with no key held, the sequence moves to `prev` and the axis starts
    /// to shrink from the time on show to the time of the last event.
    pub open spec fn finalized(self, now_ns: u128) -> AppStateView {
        match self.cur {
            Some(s) if self.gap_passed(now_ns) && !self.has_holds() => AppStateView {
                prev: self.cur,
                cur: None,
                anim_scale: Some(
                    ScaleAnim {
                        start_ns: now_ns,
                        from_ms: at_least_one(s.now_ms.saturating_add(self.idle_ms(now_ns))),
                        to_ms: at_least_one(s.now_ms),
                        dur_ms: SHRINK_MS,
                    },
                ),
                ..self
            },
            _ => self,
        }
    }

    /// The sequence on show: the one being recorded, else the one that ended
    /// last.
    pub open spec fn shown(self) -> Option<SequenceView> {
        if self.cur is Some {
            self.cur
        } else {
            self.prev
        }
    }

    /// The time up to which the sequence `s` on show is drawn. While it is being
    /// recorded, time goes on between events.
    pub open spec fn visible_ms(self, s: SequenceView, now_ns: u128) -> u64 {
        if self.cur is Some {
            s.now_ms.saturating_add(self.idle_ms(now_ns))
        } else {
            s.now_ms
        }
    }

    /// The time axis for the sequence `s` on show.
    pub open spec fn axis(self, s: SequenceView, now_ns: u128) -> AxisScale {
        match self.anim_scale {
            Some(anim) if self.cur is None => AxisScale::Shrinking {
                from_ms: anim.from_ms,
                to_ms: anim.to_ms,
                elapsed_ms: crate::clock::millis_between(anim.start_ns, now_ns),
                dur_ms: anim.dur_ms,
            },
            _ => AxisScale::Fixed { tmax_ms: at_least_one(self.visible_ms(s, now_ns)) },
        }
    }

    /// What there is to draw, if there has been a sequence.
    pub open spec fn picture(self, now_ns: u128) -> Option<FrameView> {
        match self.shown() {
            Some(s) => Some(s.picture(self.visible_ms(s, now_ns), self.axis(s, now_ns))),
            None => None,
        }
    }

    /// The state after a picture was taken: a shrinking of the axis that was
    /// drawn to its end is over.
    pub open spec fn drawn(self, now_ns: u128) -> AppStateView {
        match self.anim_scale {
            Some(anim) if self.cur is None && self.prev is Some && crate::clock::millis_between(
                anim.start_ns,
                now_ns,
            ) >= anim.dur_ms => AppStateView { anim_scale: None, ..self },
            _ => self,
        }
    }
}

/// The contents of a sequence that may be missing.
pub open spec fn contents(sequence: Option<Sequence>) -> Option<SequenceView> {
    match sequence {
        Some(s) => Some(s@),
        None => None,
    }
}

/// The state of the live graph.
pub struct AppState {
    gap_ms: u64,
    prev: Option<Sequence>,
    cur: Option<Sequence>,
    last_event: Option<u128>,
    anim_scale: Option<ScaleAnim>,
}

impl View for AppState {
    type V = AppStateView;

    closed spec fn view(&self) -> AppStateView {
        AppStateView {
            gap_ms: self.gap_ms,
            prev: contents(self.prev),
            cur: contents(self.cur),
            last_event: self.last_event,
            anim_scale: self.anim_scale,
        }
    }
}

/// The larger of `ms` and one.
fn clamp_to_one(ms: u64) -> (out: u64)
    ensures
        out == at_least_one(ms),
{
    if ms < 1 {
        1
    } else {
        ms
    }
}

impl AppState {
    /// Whether the sequences are well formed and the contents are valid.
    pub closed spec fn wf(self) -> bool {
        &&& self@.valid()
        &&& self.prev matches Some(s) ==> s.wf()
        &&& self.cur matches Some(s) ==> s.wf()
    }

    /// A well-formed state has valid contents.
    pub proof fn law_contents_are_valid(self)
        requires
            self.wf(),
        ensures
            self@.valid(),
    {
    }

    /// A state that has seen no event; sequences end after `gap_ms` without
    /// one.
    pub fn new(gap_ms: u64) -> (state: AppState)
        ensures
            state.wf(),
            state@ == (AppStateView {
                gap_ms,
                prev: None,
                cur: None,
                last_event: None,
                anim_scale: None,
            }),
    {
        AppState { gap_ms, prev: None, cur: None, last_event: None, anim_scale: None }
    }

    /// Takes in one event.
    pub fn ingest_one(&mut self, arrival: &Arrival)
        requires
            old(self).wf(),
        ensures
            final(self).wf(),
            final(self)@ == old(self)@.arrived(arrival@),
    {
        let event = &arrival.event;
        let mut s = match self.cur.take() {
            None => Sequence::new(),
            Some(s) => {
                let mut s = s;
                s.advance(event.delta_ms);
                s
            },
        };
        match event.kind {
            Kind::Down => s.on_down(event.key.as_str()),
            Kind::Up => s.on_up(event.key.as_str()),
        }
        proof {
            s.law_contents_are_valid();
        }
        self.cur = Some(s);
        self.last_event = Some(arrival.at_ns);
        proof {
            assert(self@ =~= old(self)@.arrived(arrival@));
        }
    }

    /// Takes in the events that arrived since the last call, in their order.
    pub fn ingest(&mut self, arrivals: &Vec<Arrival>)
        requires
            old(self).wf(),
        ensures
            final(self).wf(),
            final(self)@ == old(self)@.arrived_all(arrivals@.map_values(|a: Arrival| a@)),
    {
        let ghost all = arrivals@.map_values(|a: Arrival| a@);
        assert(all.take(0).len() == 0);
        for i in 0..arrivals.len()
            invariant
                all == arrivals@.map_values(|a: Arrival| a@),
                self.wf(),
                self@ == old(self)@.arrived_all(all.take(i as int)),
        {
            self.ingest_one(&arrivals[i]);
            assert(all.take(i + 1).drop_last() == all.take(i as int));
        }
        assert(all.take(all.len() as int) == all);
    }

    /// Whether the gap that ends a sequence has passed.
    fn gap_has_passed(&self, now_ns: u128) -> (passed: bool)
        ensures
            passed == self@.gap_passed(now_ns),
    {
        match self.last_event {
            Some(then) => now_ns.saturating_sub(then) >= self.gap_ms as u128 * NANOS_PER_MILLI,
            None => false,
        }
    }

    /// Milliseconds since the last event.
    fn since_last_event(&self, now_ns: u128) -> (ms: u64)
        ensures
            ms == self@.idle_ms(now_ns),
    {
        match self.last_event {
            Some(then) => cut_to_64_bits(elapsed_ms(then, now_ns)),
            None => 0,
        }
    }

    /// Ends the sequence that is being recorded if its time has come, and says
    /// whether recording goes on.
    pub fn finalize(&mut self, now_ns: u128) -> (recording: bool)
        requires
            old(self).wf(),
        ensures
            final(self).wf(),
            final(self)@ == old(self)@.finalized(now_ns),
            recording == old(self)@.recording(now_ns),
    {
        let passed: bool = self.gap_has_passed(now_ns);
        let idle: u64 = self.since_last_event(now_ns);
        match self.cur.take() {
            None => false,
            Some(s) => {
                if passed && !s.has_holds() {
                    let now_ms: u64 = s.now_ms();
                    self.anim_scale = Some(
                        ScaleAnim {
                            start_ns: now_ns,
                            from_ms: clamp_to_one(now_ms.saturating_add(idle)),
                            to_ms: clamp_to_one(now_ms),
                            dur_ms: SHRINK_MS,
                        },
                    );
                    self.prev = Some(s);
                    false
                } else {
                    self.cur = Some(s);
                    true
                }
            },
        }
    }

    /// Draws the sequence on show, if there is one.
    pub fn take_picture(&mut self, now_ns: u128) -> (frame: Option<Frame>)
        requires
            old(self).wf(),
        ensures
            final(self).wf(),
            final(self)@ == old(self)@.drawn(now_ns),
            match frame {
                Some(frame) => old(self)@.picture(now_ns) == Some(frame@),
                None => old(self)@.picture(now_ns) is None,
            },
            frame is None <==> old(self)@.cur is None && old(self)@.prev is None,
            old(self)@.cur matches Some(s) ==> old(self)@.last_event matches Some(last_ns) ==> {
                let visible = s.now_ms + (now_ns - last_ns) / 1_000_000;
                1 <= visible <= u64::MAX && last_ns <= now_ns ==> frame is Some && frame->0.axis
                    == (AxisScale::Fixed { tmax_ms: visible as u64 })
            },
    {
        let idle: u64 = self.since_last_event(now_ns);
        if let Some(s) = &self.cur {
            let visible: u64 = s.now_ms().saturating_add(idle);
            let axis = AxisScale::Fixed { tmax_ms: clamp_to_one(visible) };
            return Some(draw(s, visible, axis));
        }
        let (frame, shrunk): (Frame, bool) = match &self.prev {
            None => {
                return None;
            },
            Some(s) => {
                let now_ms: u64 = s.now_ms();
                match self.anim_scale {
                    Some(anim) => {
                        let elapsed: u128 = elapsed_ms(anim.start_ns, now_ns);
                        let axis = AxisScale::Shrinking {
                            from_ms: anim.from_ms,
                            to_ms: anim.to_ms,
                            elapsed_ms: elapsed,
                            dur_ms: anim.dur_ms,
                        };
                        (draw(s, now_ms, axis), elapsed >= anim.dur_ms as u128)
                    },
                    None => {
                        let axis = AxisScale::Fixed { tmax_ms: clamp_to_one(now_ms) };
                        (draw(s, now_ms, axis), false)
                    },
                }
            },
        };
        if shrunk {
            self.anim_scale = None;
        }
        Some(frame)
    }

    /// One round of the display: takes in what arrived, ends the sequence if its
    /// time has come, and draws.
    pub fn update(&mut self, arrivals: &Vec<Arrival>, now_ns: u128) -> (picture: Picture)
        requires
            old(self).wf(),
        ensures
            final(self).wf(),
            ({
                let taken_in = old(self)@.arrived_all(arrivals@.map_values(|a: Arrival| a@));
                let settled = taken_in.finalized(now_ns);
                &&& final(self)@ == settled.drawn(now_ns)
                &&& picture.recording == taken_in.recording(now_ns)
                &&& match picture.frame {
                    Some(frame) => settled.picture(now_ns) == Some(frame@),
                    None => settled.picture(now_ns) is None,
                }
            }),
            picture.recording <==> final(self)@.cur is Some,
            picture.frame is None <==> final(self)@.cur is None && final(self)@.prev is None,
            picture.recording ==> final(self)@.prev == old(self)@.prev,
            arrivals@.len() > 0 ==> picture.frame is Some && final(self)@.last_event == Some(
                arrivals@[arrivals@.len() - 1].at_ns,
            ),
            arrivals@.len() == 0 ==> final(self)@.last_event == old(self)@.last_event,
    {
        let ghost taken = arrivals@.map_values(|a: Arrival| a@);
        proof {
            law_arrivals_keep_valid(self@, taken);
        }
        self.ingest(arrivals);
        let recording: bool = self.finalize(now_ns);
        let frame: Option<Frame> = self.take_picture(now_ns);
        Picture { recording, frame }
    }

    /// The gap after which a sequence ends.
    pub fn gap_ms(&self) -> (gap_ms: u64)
        ensures
            gap_ms == self@.gap_ms,
    {
        self.gap_ms
    }
}

/// The outcome of one round of the display.
#[derive(Debug, Clone)]
pub struct Picture {
    /// Whether a sequence is being recorded.
    pub recording: bool,
    /// What there is to draw; nothing before the first event.
    pub frame: Option<Frame>,
}

/// Every arrival keeps the state valid.
pub proof fn law_arrival_keeps_valid(state: AppStateView, arrival: ArrivalView)
    requires
        state.valid(),
    ensures
        state.arrived(arrival).valid(),
{
    let key = arrival.event.key;
    let at = match state.cur {
        None => SequenceView::empty(),
        Some(s) => s.later(arrival.event.delta_ms),
    };
    crate::sequence::law_down_keeps_valid(at, key);
    crate::sequence::law_up_keeps_valid(at, key);
}

/// Any number of arrivals keeps the state valid and leaves the sequence that
/// ended last alone.
pub proof fn law_arrivals_keep_valid(state: AppStateView, arrivals: Seq<ArrivalView>)
    requires
        state.valid(),
    ensures
        state.arrived_all(arrivals).valid(),
        state.arrived_all(arrivals).prev == state.prev,
    decreases arrivals.len(),
{
    if arrivals.len() > 0 {
        law_arrivals_keep_valid(state, arrivals.drop_last());
        law_arrival_keeps_valid(state.arrived_all(arrivals.drop_last()), arrivals.last());
    }
}

/// How many of the arrivals are releases.
pub open spec fn releases(arrivals: Seq<ArrivalView>) -> nat
    decreases arrivals.len(),
{
    if arrivals.len() == 0 {
        0
    } else {
        releases(arrivals.drop_last()) + if arrivals.last().event.kind == Kind::Up {
            1nat
        } else {
            0nat
        }
    }
}

/// The deltas of all arrivals but the first.
pub open spec fn time_passed(arrivals: Seq<ArrivalView>) -> nat
    decreases arrivals.len(),
{
    if arrivals.len() <= 1 {
        0
    } else {
        time_passed(arrivals.drop_last()) + arrivals.last().event.delta_ms as nat
    }
}

/// A sequence made of `arrivals` has a row for each of their keys and for no
/// other, one finished hold or tap for each release, and the time that passed
/// since the first of them.
pub proof fn law_sequence_reflects_arrivals(state: AppStateView, arrivals: Seq<ArrivalView>)
    requires
        state.cur is None,
        arrivals.len() > 0,
    ensures
        ({
            let s = state.arrived_all(arrivals).cur->0;
            &&& state.arrived_all(arrivals).cur is Some
            &&& forall|key: Seq<char>| #[trigger]
                s.rows.contains(key) <==> exists|i: int|
                    0 <= i < arrivals.len() && (#[trigger] arrivals[i]).event.key == key
            &&& s.segments.len() + s.taps.len() == releases(arrivals)
            &&& s.now_ms == if time_passed(arrivals) <= u64::MAX {
                time_passed(arrivals) as u64
            } else {
                u64::MAX
            }
        }),
    decreases arrivals.len(),
{
    let before = arrivals.drop_last();
    let last = arrivals.last();
    let earlier = state.arrived_all(before);
    let s = state.arrived_all(arrivals).cur->0;
    let at = match earlier.cur {
        None => SequenceView::empty(),
        Some(t) => t.later(last.event.delta_ms),
    };
    if before.len() > 0 {
        law_sequence_reflects_arrivals(state, before);
    } else {
        assert(earlier == state);
        assert(releases(before) == 0);
    }
    crate::sequence::law_one_mark_per_release(at, last.event.key);
    assert forall|key: Seq<char>| #[trigger]
        s.rows.contains(key) <==> exists|i: int|
            0 <= i < arrivals.len() && (#[trigger] arrivals[i]).event.key == key by {
        crate::sequence::law_row_of_event_only(at, last.event.key, key);
        if exists|i: int| 0 <= i < arrivals.len() && (#[trigger] arrivals[i]).event.key == key {
            let i = choose|i: int|
                0 <= i < arrivals.len() && (#[trigger] arrivals[i]).event.key == key;
            if i < before.len() {
                assert(before[i].event.key == key);
            }
        }
        if before.len() > 0 && at.rows.contains(key) {
            let i = choose|i: int|
                0 <= i < before.len() && (#[trigger] before[i]).event.key == key;
            assert(arrivals[i].event.key == key);
        }
        if key == last.event.key {
            assert(arrivals[arrivals.len() - 1].event.key == key);
        }
    }
}

/// Looking for the end of a sequence, and drawing, keep the state valid.
pub proof fn law_display_keeps_valid(state: AppStateView, now_ns: u128)
    requires
        state.valid(),
    ensures
        state.finalized(now_ns).valid(),
        state.drawn(now_ns).valid(),
{
}

/// A sequence ends once the gap has passed without an event and no key is
/// held: it becomes the previous one, unchanged.
pub proof fn law_gap_ends_sequence(state: AppStateView, s: SequenceView, then: u128, now_ns: u128)
    requires
        state.cur == Some(s),
        state.last_event == Some(then),
        s.holds.is_empty(),
        now_ns.saturating_sub(then) >= state.gap_ms * 1_000_000,
    ensures
        state.finalized(now_ns).cur is None,
        state.finalized(now_ns).prev == Some(s),
{
}

/// A sequence goes on while a key is held, however long that lasts, and until
/// the gap has passed: nothing changes.
pub proof fn law_sequence_goes_on(state: AppStateView, s: SequenceView, then: u128, now_ns: u128)
    requires
        state.cur == Some(s),
        state.last_event == Some(then),
        !s.holds.is_empty() || now_ns.saturating_sub(then) < state.gap_ms * 1_000_000,
    ensures
        state.finalized(now_ns) == state,
{
}

/// Recording goes on exactly when there is still a sequence after its end was
/// looked for.
pub proof fn law_recording_until_sequence_ends(state: AppStateView, now_ns: u128)
    ensures
        state.recording(now_ns) <==> state.finalized(now_ns).cur is Some,
{
}

/// The event after the end of a sequence starts a fresh one at time zero,
/// whatever its delta is, and leaves the previous sequence alone.
pub proof fn law_next_event_starts_afresh(state: AppStateView, arrival: ArrivalView)
    requires
        state.cur is None,
    ensures
        state.arrived(arrival).cur == Some(
            SequenceView::empty().pressed(arrival.event.key, arrival.event.kind),
        ),
        state.arrived(arrival).cur->0.now_ms == 0,
        state.arrived(arrival).prev == state.prev,
{
}

/// A further event of a sequence happens its delta after the one before; no
/// gap between two events splits a sequence by itself.
pub proof fn law_further_event_joins(state: AppStateView, s: SequenceView, arrival: ArrivalView)
    requires
        state.cur == Some(s),
    ensures
        state.arrived(arrival).cur == Some(
            s.later(arrival.event.delta_ms).pressed(arrival.event.key, arrival.event.kind),
        ),
        state.arrived(arrival).prev == state.prev,
{
}

/// It makes no difference whether events are taken in together or in two
/// rounds.
pub proof fn law_batches_do_not_matter(
    state: AppStateView,
    first: Seq<ArrivalView>,
    second: Seq<ArrivalView>,
)
    ensures
        state.arrived_all(first + second) == state.arrived_all(first).arrived_all(second),
    decreases second.len(),
{
    if second.len() == 0 {
        assert(first + second == first);
    } else {
        assert((first + second).drop_last() == first + second.drop_last());
        law_batches_do_not_matter(state, first, second.drop_last());
    }
}

/// Once the axis has been drawn at the end of its shrinking, it stays fixed at
/// the scale that it shrank to.
pub proof fn law_axis_settles(
    state: AppStateView,
    s: SequenceView,
    anim: ScaleAnim,
    now_ns: u128,
    later_ns: u128,
)
    requires
        state.valid(),
        state.cur is None,
        state.prev == Some(s),
        state.anim_scale == Some(anim),
        crate::clock::millis_between(anim.start_ns, now_ns) >= anim.dur_ms,
    ensures
        state.drawn(now_ns).axis(s, later_ns) == (AxisScale::Fixed { tmax_ms: anim.to_ms }),
{
}

/// When a sequence ends, the axis starts to shrink from the scale at which the
/// sequence was on show.
pub proof fn law_shrinking_starts_on_show(state: AppStateView, s: SequenceView, now_ns: u128)
    requires
        state.cur == Some(s),
        state.finalized(now_ns).cur is None,
    ensures
        state.axis(s, now_ns) == (AxisScale::Fixed {
            tmax_ms: state.finalized(now_ns).anim_scale->0.from_ms,
        }),
        state.finalized(now_ns).anim_scale is Some,
        state.finalized(now_ns).shown() == state.shown(),
{
}

/// An arrival has the event and clock reading that its fields hold.
pub proof fn law_arrival_contents(arrival: Arrival)
    ensures
        arrival@.event == arrival.event@,
        arrival@.at_ns == arrival.at_ns,
{
}

/// A key event of the kind `Down` is a press, one of the kind `Up` a release.
pub proof fn law_kinds_of_events(s: SequenceView, key: Seq<char>)
    ensures
        s.pressed(key, Kind::Down) == s.down(key),
        s.pressed(key, Kind::Up) == s.up(key),
{
}

/// An arrival is remembered by its clock reading; it changes nothing but that
/// and the sequence being recorded.
pub proof fn law_arrival_changes_current_only(state: AppStateView, arrival: ArrivalView)
    ensures
        state.arrived(arrival).cur is Some,
        state.arrived(arrival).last_event == Some(arrival.at_ns),
        state.arrived(arrival).prev == state.prev,
        state.arrived(arrival).gap_ms == state.gap_ms,
        state.arrived(arrival).anim_scale == state.anim_scale,
{
}

/// No arrivals change nothing, and a batch of one is that arrival.
pub proof fn law_small_batches(state: AppStateView, arrival: ArrivalView)
    ensures
        state.arrived_all(Seq::empty()) == state,
        state.arrived_all(seq![arrival]) == state.arrived(arrival),
{
    let one = seq![arrival];
    assert(one.drop_last() =~= Seq::<ArrivalView>::empty());
    assert(state.arrived_all(one.drop_last()) == state);
}

/// With no sequence being recorded, or no event ever, there is nothing to end.
pub proof fn law_nothing_to_end(state: AppStateView, now_ns: u128)
    requires
        state.cur is None || state.last_event is None,
    ensures
        state.finalized(now_ns) == state,
{
}

/// A sequence is being recorded exactly while there is one that has a key held
/// or whose last event is less than the gap ago.
pub proof fn law_when_recording(state: AppStateView, s: SequenceView, last_ns: u128, now_ns: u128)
    requires
        state.cur == Some(s),
        state.last_event == Some(last_ns),
    ensures
        (exists|key: Seq<char>| #[trigger] s.holds.contains_key(key)) ==> state.recording(now_ns),
        (forall|key: Seq<char>| !(#[trigger] s.holds.contains_key(key))) && last_ns <= now_ns ==> (
        state.recording(now_ns) <==> now_ns - last_ns < state.gap_ms * 1_000_000),
{
    if exists|key: Seq<char>| #[trigger] s.holds.contains_key(key) {
        let key = choose|key: Seq<char>| #[trigger] s.holds.contains_key(key);
        assert(s.holds.dom().contains(key));
    }
    if forall|key: Seq<char>| !(#[trigger] s.holds.contains_key(key)) {
        assert(s.holds.dom() =~= Set::empty());
    }
}

/// There is no recording without a sequence.
pub proof fn law_no_recording_without_sequence(state: AppStateView, now_ns: u128)
    requires
        state.cur is None,
    ensures
        !state.recording(now_ns),
{
}

/// Milliseconds from the clock reading `last_ns` to `now_ns`, as far as 64 bits
/// hold them.
spec fn quiet_ms(last_ns: u128, now_ns: u128) -> int {
    if last_ns <= now_ns {
        ((now_ns - last_ns) / 1_000_000) % 0x1_0000_0000_0000_0000
    } else {
        0
    }
}

/// While a sequence is being recorded, whether keys are held or not, the axis
/// ends, and running holds reach, as long after its last event as the clock
/// says has passed; the axis shows one millisecond at least.
pub proof fn law_live_axis_follows_the_clock(
    state: AppStateView,
    s: SequenceView,
    last_ns: u128,
    now_ns: u128,
)
    requires
        state.cur == Some(s),
        state.last_event == Some(last_ns),
        last_ns <= now_ns,
        s.now_ms + (now_ns - last_ns) / 1_000_000 <= u64::MAX,
    ensures
        ({
            let visible = s.now_ms + (now_ns - last_ns) / 1_000_000;
            let tmax = if visible < 1 {
                1
            } else {
                visible
            };
            let axis = AxisScale::Fixed { tmax_ms: tmax as u64 };
            &&& state.axis(s, now_ns) == axis
            &&& state.picture(now_ns) == Some(s.picture(visible as u64, axis))
        }),
{
}

/// The axis of a live sequence for every clock reading: time does not run
/// backwards, and stops at its largest value.
pub proof fn law_live_picture(
    state: AppStateView,
    s: SequenceView,
    last_ns: u128,
    now_ns: u128,
)
    requires
        state.cur == Some(s),
        state.last_event == Some(last_ns),
    ensures
        ({
            let quiet = if last_ns <= now_ns {
                ((now_ns - last_ns) / 1_000_000) % 0x1_0000_0000_0000_0000
            } else {
                0
            };
            let visible = if s.now_ms + quiet <= 0xffff_ffff_ffff_ffff {
                s.now_ms + quiet
            } else {
                0xffff_ffff_ffff_ffff
            };
            let tmax = if visible < 1 {
                1
            } else {
                visible
            };
            state.picture(now_ns) == Some(
                s.picture(visible as u64, AxisScale::Fixed { tmax_ms: tmax as u64 }),
            )
        }),
{
    lemma_quiet(state, last_ns, now_ns);
}

proof fn lemma_quiet(state: AppStateView, last_ns: u128, now_ns: u128)
    requires
        state.last_event == Some(last_ns),
    ensures
        state.idle_ms(now_ns) == quiet_ms(last_ns, now_ns),
{
}

/// Between two looks at a live sequence without an event the axis grows by the
/// time between them.
pub proof fn law_live_axis_grows(
    state: AppStateView,
    s: SequenceView,
    last_ns: u128,
    now_ns: u128,
    ms: u64,
)
    requires
        state.cur == Some(s),
        state.last_event == Some(last_ns),
        last_ns <= now_ns,
        0 < s.now_ms,
        now_ns + ms * 1_000_000 <= u128::MAX,
        s.now_ms + (now_ns - last_ns) / 1_000_000 + ms <= u64::MAX,
    ensures
        ({
            let later_ns = (now_ns + ms * 1_000_000) as u128;
            &&& state.axis(s, now_ns) is Fixed
            &&& state.axis(s, later_ns) is Fixed
            &&& state.axis(s, later_ns)->tmax_ms == state.axis(s, now_ns)->tmax_ms + ms
        }),
{
    let later_ns = (now_ns + ms * 1_000_000) as u128;
    law_live_axis_follows_the_clock(state, s, last_ns, now_ns);
    law_live_axis_follows_the_clock(state, s, last_ns, later_ns);
}

/// When a sequence ends, the axis starts at that moment to shrink, within 220
/// milliseconds, from the time since the sequence began to the time of its last
/// event, each of them one millisecond at least. The gap and the last event
/// stay as they were.
pub proof fn law_shrinking_of_the_axis(
    state: AppStateView,
    s: SequenceView,
    last_ns: u128,
    now_ns: u128,
)
    requires
        state.cur == Some(s),
        state.last_event == Some(last_ns),
        s.holds.is_empty(),
        now_ns.saturating_sub(last_ns) >= state.gap_ms * 1_000_000,
    ensures
        ({
            let quiet = if last_ns <= now_ns {
                ((now_ns - last_ns) / 1_000_000) % 0x1_0000_0000_0000_0000
            } else {
                0
            };
            let visible = if s.now_ms + quiet <= 0xffff_ffff_ffff_ffff {
                (s.now_ms + quiet) as u64
            } else {
                0xffff_ffff_ffff_ffff
            };
            let ended = state.finalized(now_ns);
            &&& ended.anim_scale matches Some(anim) && {
                &&& anim.start_ns == now_ns
                &&& visible >= 1 ==> anim.from_ms == visible
                &&& visible < 1 ==> anim.from_ms == 1
                &&& s.now_ms >= 1 ==> anim.to_ms == s.now_ms
                &&& s.now_ms < 1 ==> anim.to_ms == 1
                &&& anim.dur_ms == 220
            }
            &&& ended.cur is None
            &&& ended.prev == Some(s)
            &&& ended.gap_ms == state.gap_ms
            &&& ended.last_event == state.last_event
        }),
{
    lemma_quiet(state, last_ns, now_ns);
}

/// A sequence that ended is drawn up to its last event. Its axis ends there
/// too, one millisecond at least, or is on its way there for as many whole
/// milliseconds as have passed since it started to shrink.
pub proof fn law_picture_after_the_end(state: AppStateView, s: SequenceView, now_ns: u128)
    requires
        state.cur is None,
        state.prev == Some(s),
    ensures
        match state.anim_scale {
            None => {
                let tmax = if s.now_ms < 1 {
                    1
                } else {
                    s.now_ms
                };
                state.picture(now_ns) == Some(
                    s.picture(s.now_ms, AxisScale::Fixed { tmax_ms: tmax }),
                )
            },
            Some(anim) => {
                let elapsed = if anim.start_ns <= now_ns {
                    (now_ns - anim.start_ns) / 1_000_000
                } else {
                    0
                };
                state.picture(now_ns) == Some(
                    s.picture(
                        s.now_ms,
                        AxisScale::Shrinking {
                            from_ms: anim.from_ms,
                            to_ms: anim.to_ms,
                            elapsed_ms: elapsed as u128,
                            dur_ms: anim.dur_ms,
                        },
                    ),
                )
            },
        },
{
}

/// There is a picture as soon as there has been a sequence, and of none but the
/// one being recorded as long as there is one.
pub proof fn law_what_is_on_show(state: AppStateView, now_ns: u128)
    ensures
        state.picture(now_ns) is None <==> state.cur is None && state.prev is None,
        state.cur is Some ==> state.shown() == state.cur,
        state.cur is None ==> state.shown() == state.prev,
{
}

/// Drawing ends a shrinking of the axis whose time is over, if that was on
/// show, and changes nothing else.
pub proof fn law_drawing_ends_shrinking_only(state: AppStateView, now_ns: u128)
    ensures
        ({
            let after = state.drawn(now_ns);
            &&& after.cur == state.cur
            &&& after.prev == state.prev
            &&& after.last_event == state.last_event
            &&& after.gap_ms == state.gap_ms
            &&& state.anim_scale matches Some(anim) ==> {
                let over = anim.start_ns <= now_ns && (now_ns - anim.start_ns) / 1_000_000
                    >= anim.dur_ms || anim.dur_ms == 0;
                if state.cur is None && state.prev is Some && over {
                    after.anim_scale is None
                } else {
                    after.anim_scale == state.anim_scale
                }
            }
            &&& state.anim_scale is None ==> after.anim_scale is None
        }),
{
}

/// In a valid state no key is held in the sequence that ended last, a sequence
/// being recorded has had an event, and an axis shrinks for 220 milliseconds,
/// never outwards.
pub proof fn law_valid_state(state: AppStateView)
    requires
        state.valid(),
    ensures
        state.prev matches Some(s) ==> s.valid() && (forall|key: Seq<char>|
            !(#[trigger] s.holds.contains_key(key))),
        state.cur matches Some(s) ==> s.valid() && state.last_event is Some,
        state.anim_scale matches Some(anim) ==> state.prev is Some && anim.dur_ms == 220 && 1
            <= anim.to_ms <= anim.from_ms,
{
}

} // verus!
