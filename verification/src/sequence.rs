//! One run of key activity: which keys took part, which are held, and the
//! holds and taps that are finished.

use vstd::hash_map::StringHashMap;
use vstd::prelude::*;

verus! {

/// A finished hold of `key`, from `start` to `end`.
#[derive(Debug, Default, Clone)]
pub struct Segment {
    pub key: String,
    pub start: u64,
    pub end: u64,
}

/// A press of `key` without duration.
#[derive(Debug, Default, Clone)]
pub struct Tap {
    pub key: String,
    pub at: u64,
}

/// The contents of a [`Segment`].
pub struct SegmentView {
    pub key: Seq<char>,
    pub start: u64,
    pub end: u64,
}

/// The contents of a [`Tap`].
pub struct TapView {
    pub key: Seq<char>,
    pub at: u64,
}

impl View for Segment {
    type V = SegmentView;

    open spec fn view(&self) -> SegmentView {
        SegmentView { key: self.key@, start: self.start, end: self.end }
    }
}

impl View for Tap {
    type V = TapView;

    open spec fn view(&self) -> TapView {
        TapView { key: self.key@, at: self.at }
    }
}

/// The contents of a [`Sequence`]: its keys in the order in which they first
/// appeared, the start of each hold that is still going on, the finished holds
/// and taps, the current time, and the time and key with which the keyboard
/// last fell idle.
#[verifier::ext_equal]
pub struct SequenceView {
    pub rows: Seq<Seq<char>>,
    pub holds: Map<Seq<char>, u64>,
    pub segments: Seq<SegmentView>,
    pub taps: Seq<TapView>,
    pub now_ms: u64,
    pub idle_start: Option<(u64, Seq<char>)>,
}

impl SequenceView {
    /// A sequence in which nothing has happened.
    pub open spec fn empty() -> SequenceView {
        SequenceView {
            rows: Seq::empty(),
            holds: Map::empty(),
            segments: Seq::empty(),
            taps: Seq::empty(),
            now_ms: 0,
            idle_start: None,
        }
    }

    /// What holds of every sequence: no key has two rows, whatever is recorded
    /// has a row and lies in the past, and finished holds have a duration.
    pub open spec fn valid(self) -> bool {
        &&& self.rows.no_duplicates()
        &&& forall|key: Seq<char>| #[trigger]
            self.holds.contains_key(key) ==> self.rows.contains(key) && self.holds[key]
                <= self.now_ms
        &&& forall|i: int|
            0 <= i < self.segments.len() ==> self.rows.contains((#[trigger] self.segments[i]).key)
                && self.segments[i].start < self.segments[i].end <= self.now_ms
        &&& forall|i: int|
            0 <= i < self.taps.len() ==> self.rows.contains((#[trigger] self.taps[i]).key)
                && self.taps[i].at <= self.now_ms
        &&& self.idle_start matches Some((since, key)) ==> since <= self.now_ms
            && self.rows.contains(key)
    }

    /// The sequence with a row for `key`: a key that has none gets the next.
    pub open spec fn with_row(self, key: Seq<char>) -> SequenceView {
        if self.rows.contains(key) {
            self
        } else {
            SequenceView { rows: self.rows.push(key), ..self }
        }
    }

    /// The sequence `delta_ms` later. Time stops at its largest value.
    pub open spec fn later(self, delta_ms: u64) -> SequenceView {
        SequenceView { now_ms: self.now_ms.saturating_add(delta_ms), ..self }
    }

    /// The sequence after `key` went down: its hold starts now, also when it
    /// was held already.
    pub open spec fn down(self, key: Seq<char>) -> SequenceView {
        SequenceView { holds: self.holds.insert(key, self.now_ms), ..self.with_row(key) }
    }

    /// The sequence after `key` came up. A hold that started earlier becomes a
    /// segment; one that started now, or an unknown one, becomes a tap. When no
    /// key is held any more, the keyboard is idle from now on.
    pub open spec fn up(self, key: Seq<char>) -> SequenceView {
        let holds = self.holds.remove(key);
        let held_before = self.holds.contains_key(key) && self.holds[key] != self.now_ms;
        SequenceView {
            holds,
            segments: if held_before {
                self.segments.push(
                    SegmentView { key, start: self.holds[key], end: self.now_ms },
                )
            } else {
                self.segments
            },
            taps: if held_before {
                self.taps
            } else {
                self.taps.push(TapView { key, at: self.now_ms })
            },
            idle_start: if holds.is_empty() {
                Some((self.now_ms, key))
            } else {
                self.idle_start
            },
            ..self.with_row(key)
        }
    }
}

/// One run of key activity. Times are milliseconds since its first event.
pub struct Sequence {
    row_index: StringHashMap<usize>,
    row_order: Vec<String>,
    holds: StringHashMap<u64>,
    segments: Vec<Segment>,
    taps: Vec<Tap>,
    now_ms: u64,
    idle_start: Option<(u64, String)>,
}

impl View for Sequence {
    type V = SequenceView;

    closed spec fn view(&self) -> SequenceView {
        SequenceView {
            rows: self.row_order@.map_values(|key: String| key@),
            holds: self.holds@,
            segments: self.segments@.map_values(|segment: Segment| segment@),
            taps: self.taps@.map_values(|tap: Tap| tap@),
            now_ms: self.now_ms,
            idle_start: match self.idle_start {
                Some((since, key)) => Some((since, key@)),
                None => None,
            },
        }
    }
}

impl Sequence {
    /// Whether the row lookup agrees with the row order and the contents are
    /// valid.
    pub closed spec fn wf(self) -> bool {
        &&& self@.valid()
        &&& forall|key: Seq<char>| #[trigger]
            self.row_index@.contains_key(key) <==> self@.rows.contains(key)
        &&& forall|key: Seq<char>| #[trigger]
            self.row_index@.contains_key(key) ==> self.row_index@[key] < self@.rows.len()
                && self@.rows[self.row_index@[key] as int] == key
    }

    /// A well-formed sequence has valid contents.
    pub proof fn law_contents_are_valid(self)
        requires
            self.wf(),
        ensures
            self@.valid(),
    {
    }

    /// An empty sequence at time zero.
    pub fn new() -> (sequence: Sequence)
        ensures
            sequence.wf(),
            sequence@ == SequenceView::empty(),
    {
        let sequence = Sequence {
            row_index: StringHashMap::new(),
            row_order: Vec::new(),
            holds: StringHashMap::new(),
            segments: Vec::new(),
            taps: Vec::new(),
            now_ms: 0,
            idle_start: None,
        };
        assert(sequence@ =~= SequenceView::empty());
        sequence
    }

    /// The row of `key`, which is added below the others when it has none.
    pub fn ensure_row(&mut self, key: &str) -> (row: usize)
        requires
            old(self).wf(),
        ensures
            final(self).wf(),
            final(self)@ == old(self)@.with_row(key@),
            row < final(self)@.rows.len(),
            final(self)@.rows[row as int] == key@,
    {
        if let Some(row) = self.row_index.get(key) {
            return *row;
        }
        let ghost before = self@;
        let row: usize = self.row_order.len();
        self.row_order.push(key.to_owned());
        self.row_index.insert(key.to_owned(), row);
        proof {
            assert(self@.rows =~= before.rows.push(key@));
            assert(self@ =~= before.with_row(key@));
            lemma_with_row_valid(before, key@);
            assert forall|other: Seq<char>| #[trigger]
                self.row_index@.contains_key(other) <==> self@.rows.contains(other) by {
                lemma_push_contains(before.rows, key@, other);
            }
        }
        row
    }

    /// Lets `delta_ms` pass.
    pub fn advance(&mut self, delta_ms: u64)
        requires
            old(self).wf(),
        ensures
            final(self).wf(),
            final(self)@ == old(self)@.later(delta_ms),
    {
        self.now_ms = self.now_ms.saturating_add(delta_ms);
        proof {
            assert(self@ =~= old(self)@.later(delta_ms));
        }
    }

    /// Records that `key` went down.
    pub fn on_down(&mut self, key: &str)
        requires
            old(self).wf(),
        ensures
            final(self).wf(),
            final(self)@ == old(self)@.down(key@),
    {
        self.ensure_row(key);
        self.holds.insert(key.to_owned(), self.now_ms);
        proof {
            assert(self@ =~= old(self)@.down(key@));
            law_down_keeps_valid(old(self)@, key@);
        }
    }

    /// Records that `key` came up.
    pub fn on_up(&mut self, key: &str)
        requires
            old(self).wf(),
        ensures
            final(self).wf(),
            final(self)@ == old(self)@.up(key@),
    {
        self.ensure_row(key);
        let now: u64 = self.now_ms;
        let held_since: Option<u64> = match self.holds.get(key) {
            Some(start) => Some(*start),
            None => None,
        };
        self.holds.remove(key);
        match held_since {
            Some(start) if start != now => {
                self.segments.push(Segment { key: key.to_owned(), start, end: now });
            },
            _ => {
                self.taps.push(Tap { key: key.to_owned(), at: now });
            },
        }
        if self.holds.is_empty() {
            self.idle_start = Some((now, key.to_owned()));
        }
        proof {
            let expected = old(self)@.up(key@);
            assert(self@.rows =~= expected.rows);
            assert(self@.holds =~= expected.holds);
            assert(self@.segments =~= expected.segments);
            assert(self@.taps =~= expected.taps);
            assert(self@ =~= expected);
            law_up_keeps_valid(old(self)@, key@);
        }
    }

    /// The current time.
    pub fn now_ms(&self) -> (now_ms: u64)
        ensures
            now_ms == self@.now_ms,
    {
        self.now_ms
    }

    /// The keys in row order.
    pub fn row_order(&self) -> (rows: &Vec<String>)
        ensures
            rows@.map_values(|key: String| key@) == self@.rows,
    {
        &self.row_order
    }

    /// The row of `key`, if it has one.
    pub fn row_of(&self, key: &str) -> (row: Option<usize>)
        requires
            self.wf(),
        ensures
            match row {
                Some(row) => row < self@.rows.len() && self@.rows[row as int] == key@,
                None => !self@.rows.contains(key@),
            },
    {
        match self.row_index.get(key) {
            Some(row) => Some(*row),
            None => None,
        }
    }

    /// Since when `key` is held, if it is.
    pub fn held_since(&self, key: &str) -> (start: Option<u64>)
        ensures
            start == if self@.holds.contains_key(key@) {
                Some(self@.holds[key@])
            } else {
                None
            },
    {
        match self.holds.get(key) {
            Some(start) => Some(*start),
            None => None,
        }
    }

    /// Whether any key is held.
    pub fn has_holds(&self) -> (held: bool)
        ensures
            held == !self@.holds.is_empty(),
    {
        !self.holds.is_empty()
    }

    /// The finished holds, in the order in which they ended.
    pub fn segments(&self) -> (segments: &Vec<Segment>)
        ensures
            segments@.map_values(|segment: Segment| segment@) == self@.segments,
    {
        &self.segments
    }

    /// The taps, in the order in which they happened.
    pub fn taps(&self) -> (taps: &Vec<Tap>)
        ensures
            taps@.map_values(|tap: Tap| tap@) == self@.taps,
    {
        &self.taps
    }

    /// When the keyboard last fell idle, and with which key.
    pub fn idle_start(&self) -> (idle: &Option<(u64, String)>)
        ensures
            self@.idle_start == match *idle {
                Some((since, key)) => Some((since, key@)),
                None => None,
            },
    {
        &self.idle_start
    }
}

impl Default for Sequence {
    /// An empty sequence at time zero.
    fn default() -> (sequence: Sequence)
        ensures
            sequence.wf(),
            sequence@ == SequenceView::empty(),
    {
        Sequence::new()
    }
}

/// A press keeps the contents valid.
pub proof fn law_down_keeps_valid(s: SequenceView, key: Seq<char>)
    requires
        s.valid(),
    ensures
        s.down(key).valid(),
{
    lemma_with_row_valid(s, key);
}

/// A release keeps the contents valid.
pub proof fn law_up_keeps_valid(s: SequenceView, key: Seq<char>)
    requires
        s.valid(),
    ensures
        s.up(key).valid(),
{
    lemma_with_row_valid(s, key);
}

/// Passing time keeps the contents valid and never runs backwards.
pub proof fn law_later_keeps_valid(s: SequenceView, delta_ms: u64)
    requires
        s.valid(),
    ensures
        s.later(delta_ms).valid(),
        s.now_ms <= s.later(delta_ms).now_ms,
{
}

/// Rows are in order of first appearance: no event moves or removes a row, and
/// a key that appears for the first time gets the row below all others.
pub proof fn law_rows_in_order_of_appearance(s: SequenceView, key: Seq<char>)
    ensures
        s.down(key).rows == s.up(key).rows,
        s.rows.is_prefix_of(s.down(key).rows),
        s.rows.contains(key) ==> s.down(key).rows == s.rows,
        !s.rows.contains(key) ==> s.down(key).rows == s.rows.push(key),
{
}

/// An event gives a row to its own key and to no other.
pub proof fn law_row_of_event_only(s: SequenceView, key: Seq<char>, other: Seq<char>)
    ensures
        s.down(key).rows.contains(other) <==> s.rows.contains(other) || other == key,
        s.up(key).rows.contains(other) <==> s.rows.contains(other) || other == key,
{
    lemma_push_contains(s.rows, key, other);
}

/// A hold becomes one segment as long as the time between press and release.
pub proof fn law_hold_becomes_segment(s: SequenceView, key: Seq<char>, delta_ms: u64)
    requires
        0 < delta_ms,
        s.now_ms + delta_ms <= u64::MAX,
    ensures
        ({
            let end = (s.now_ms + delta_ms) as u64;
            let t = s.down(key).later(delta_ms).up(key);
            &&& t.segments == s.segments.push(SegmentView { key, start: s.now_ms, end })
            &&& t.taps == s.taps
            &&& t.holds == s.holds.remove(key)
            &&& t.now_ms == end
        }),
{
    let t = s.down(key).later(delta_ms).up(key);
    assert(t.holds =~= s.holds.remove(key));
}

/// A press that is released at once is one tap.
pub proof fn law_instant_press_is_tap(s: SequenceView, key: Seq<char>)
    ensures
        s.down(key).up(key).taps == s.taps.push(TapView { key, at: s.now_ms }),
        s.down(key).up(key).segments == s.segments,
        s.down(key).up(key).holds == s.holds.remove(key),
{
    assert(s.down(key).up(key).holds =~= s.holds.remove(key));
}

/// A release without a known press is one tap.
pub proof fn law_unmatched_release_is_tap(s: SequenceView, key: Seq<char>)
    requires
        !s.holds.contains_key(key),
    ensures
        s.up(key).taps == s.taps.push(TapView { key, at: s.now_ms }),
        s.up(key).segments == s.segments,
        s.up(key).holds == s.holds,
{
    assert(s.holds.remove(key) =~= s.holds);
}

/// Every release finishes exactly one hold or tap, a press finishes none, and
/// what was finished before stays as it was.
pub proof fn law_one_mark_per_release(s: SequenceView, key: Seq<char>)
    ensures
        s.up(key).segments.len() + s.up(key).taps.len() == s.segments.len() + s.taps.len() + 1,
        s.segments.is_prefix_of(s.up(key).segments),
        s.taps.is_prefix_of(s.up(key).taps),
        s.down(key).segments == s.segments,
        s.down(key).taps == s.taps,
{
}

/// A press holds its key and a release lets it go; other keys keep their
/// holds.
pub proof fn law_events_touch_own_hold_only(s: SequenceView, key: Seq<char>, other: Seq<char>)
    ensures
        s.down(key).holds.contains_key(key),
        s.down(key).holds[key] == s.now_ms,
        !s.up(key).holds.contains_key(key),
        other != key ==> {
            &&& s.down(key).holds.contains_key(other) == s.holds.contains_key(other)
            &&& s.up(key).holds.contains_key(other) == s.holds.contains_key(other)
            &&& s.down(key).holds[other] == s.holds[other]
            &&& s.up(key).holds[other] == s.holds[other]
        },
{
}

/// The release that leaves no key held, and only such a release, starts idle
/// time.
pub proof fn law_idle_starts_when_nothing_is_held(s: SequenceView, key: Seq<char>)
    ensures
        (forall|other: Seq<char>| #[trigger] s.holds.contains_key(other) ==> other == key)
            ==> s.up(key).idle_start == Some((s.now_ms, key)),
        (exists|other: Seq<char>| #[trigger] s.holds.contains_key(other) && other != key)
            ==> s.up(key).idle_start == s.idle_start,
        s.down(key).idle_start == s.idle_start,
{
    let rest = s.holds.remove(key);
    if forall|other: Seq<char>| #[trigger] s.holds.contains_key(other) ==> other == key {
        assert(rest =~= Map::<Seq<char>, u64>::empty());
    }
    if exists|other: Seq<char>| #[trigger] s.holds.contains_key(other) && other != key {
        let other = choose|other: Seq<char>| #[trigger] s.holds.contains_key(other) && other != key;
        assert(rest.contains_key(other));
    }
}

proof fn lemma_push_contains(rows: Seq<Seq<char>>, key: Seq<char>, other: Seq<char>)
    ensures
        rows.push(key).contains(other) <==> rows.contains(other) || other == key,
{
    let longer = rows.push(key);
    if rows.contains(other) {
        let i = choose|i: int| 0 <= i < rows.len() && rows[i] == other;
        assert(longer[i] == other);
    }
    if other == key {
        assert(longer[rows.len() as int] == other);
    }
}

proof fn lemma_with_row_valid(s: SequenceView, key: Seq<char>)
    requires
        s.valid(),
    ensures
        s.with_row(key).valid(),
        s.with_row(key).rows.contains(key),
        forall|other: Seq<char>| s.rows.contains(other) ==> s.with_row(key).rows.contains(other),
{
    assert forall|other: Seq<char>| s.rows.contains(other) implies s.with_row(key).rows.contains(
        other,
    ) by {
        lemma_push_contains(s.rows, key, other);
    }
    lemma_push_contains(s.rows, key, key);
}

/// Finished holds and taps have the key and times that their fields hold.
pub proof fn law_mark_contents(segment: Segment, tap: Tap)
    ensures
        segment@.key == segment.key@,
        segment@.start == segment.start,
        segment@.end == segment.end,
        tap@.key == tap.key@,
        tap@.at == tap.at,
{
}

/// At first there is no row, no hold and no mark, the time is zero, and the
/// keyboard has not fallen idle.
pub proof fn law_nothing_at_first()
    ensures
        SequenceView::empty().rows.len() == 0,
        forall|key: Seq<char>| !(#[trigger] SequenceView::empty().holds.contains_key(key)),
        SequenceView::empty().segments.len() == 0,
        SequenceView::empty().taps.len() == 0,
        SequenceView::empty().now_ms == 0,
        SequenceView::empty().idle_start is None,
{
}

/// Giving a key a row changes rows only, and those only by the key at their end
/// when it had none.
pub proof fn law_row_changes_rows_only(s: SequenceView, key: Seq<char>)
    ensures
        ({
            let t = s.with_row(key);
            &&& s.rows.contains(key) ==> t.rows == s.rows
            &&& !s.rows.contains(key) ==> t.rows == s.rows.push(key)
            &&& t.holds == s.holds
            &&& t.segments == s.segments
            &&& t.taps == s.taps
            &&& t.now_ms == s.now_ms
            &&& t.idle_start == s.idle_start
        }),
{
}

/// The time moves on by the delta, or to the largest value if that is less, and
/// nothing else changes with it.
pub proof fn law_time_moves_alone(s: SequenceView, delta_ms: u64)
    ensures
        ({
            let t = s.later(delta_ms);
            &&& s.now_ms + delta_ms <= 0xffff_ffff_ffff_ffff ==> t.now_ms == s.now_ms + delta_ms
            &&& s.now_ms + delta_ms > 0xffff_ffff_ffff_ffff ==> t.now_ms == 0xffff_ffff_ffff_ffff
            &&& t.rows == s.rows
            &&& t.holds == s.holds
            &&& t.segments == s.segments
            &&& t.taps == s.taps
            &&& t.idle_start == s.idle_start
        }),
{
}

/// Presses and releases take no time.
pub proof fn law_events_take_no_time(s: SequenceView, key: Seq<char>)
    ensures
        s.down(key).now_ms == s.now_ms,
        s.up(key).now_ms == s.now_ms,
{
}

/// The release of a key held since an earlier time records one hold, from that
/// time to now, and no tap, whatever other keys do.
pub proof fn law_release_records_the_hold(s: SequenceView, key: Seq<char>)
    requires
        s.holds.contains_key(key),
        s.holds[key] != s.now_ms,
    ensures
        s.up(key).segments == s.segments.push(
            SegmentView { key, start: s.holds[key], end: s.now_ms },
        ),
        s.up(key).taps == s.taps,
{
}

/// The release of a key pressed at this very time records one tap now, and no
/// hold, whatever other keys do.
pub proof fn law_release_at_once_records_a_tap(s: SequenceView, key: Seq<char>)
    requires
        s.holds.contains_key(key),
        s.holds[key] == s.now_ms,
    ensures
        s.up(key).taps == s.taps.push(TapView { key, at: s.now_ms }),
        s.up(key).segments == s.segments,
{
}

/// In valid contents no key has two rows; every hold, mark and idle start has a
/// row and lies no later than now; and finished holds end after they start.
pub proof fn law_valid_contents(s: SequenceView)
    requires
        s.valid(),
    ensures
        forall|i: int, j: int|
            0 <= i < j < s.rows.len() ==> #[trigger] s.rows[i] != #[trigger] s.rows[j],
        forall|key: Seq<char>| #[trigger]
            s.holds.contains_key(key) ==> s.rows.contains(key) && s.holds[key] <= s.now_ms,
        forall|i: int|
            0 <= i < s.segments.len() ==> s.rows.contains((#[trigger] s.segments[i]).key)
                && s.segments[i].start < s.segments[i].end <= s.now_ms,
        forall|i: int|
            0 <= i < s.taps.len() ==> s.rows.contains((#[trigger] s.taps[i]).key) && s.taps[i].at
                <= s.now_ms,
        s.idle_start matches Some((since, key)) ==> since <= s.now_ms && s.rows.contains(key),
{
}

} // verus!
