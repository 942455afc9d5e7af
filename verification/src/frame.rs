//! What there is to draw of a sequence: one row for each key, bars for holds
//! and dots for taps.

use vstd::prelude::*;

use crate::sequence::{Segment, SegmentView, Sequence, SequenceView, Tap, TapView};

verus! {

/// A finished hold, with its duration for the label.
#[derive(Debug, Clone, Copy, PartialEq, Eq, Structural)]
pub struct SegmentBar {
    pub row: usize,
    pub start_ms: u64,
    pub end_ms: u64,
    pub dur_ms: u64,
}

/// A hold that is still going on.
#[derive(Debug, Clone, Copy, PartialEq, Eq, Structural)]
pub struct HoldBar {
    pub row: usize,
    pub start_ms: u64,
    pub end_ms: u64,
}

/// A tap.
#[derive(Debug, Clone, Copy, PartialEq, Eq, Structural)]
pub struct TapDot {
    pub row: usize,
    pub at_ms: u64,
}

/// The time at the right end of the axis: fixed, or on its way from `from_ms`
/// to `to_ms`, with `elapsed_ms` of `dur_ms` gone.
#[derive(Debug, Clone, Copy, PartialEq, Eq, Structural)]
pub enum AxisScale {
    Fixed { tmax_ms: u64 },
    Shrinking { from_ms: u64, to_ms: u64, elapsed_ms: u128, dur_ms: u64 },
}

/// One picture of a sequence.
#[derive(Debug, Clone)]
pub struct Frame {
    pub rows: Vec<String>,
    pub lanes: usize,
    pub axis: AxisScale,
    pub segments: Vec<SegmentBar>,
    pub holds: Vec<HoldBar>,
    pub taps: Vec<TapDot>,
}

/// The contents of a [`Frame`].
#[verifier::ext_equal]
pub struct FrameView {
    pub rows: Seq<Seq<char>>,
    pub lanes: nat,
    pub axis: AxisScale,
    pub segments: Seq<SegmentBar>,
    pub holds: Seq<HoldBar>,
    pub taps: Seq<TapDot>,
}

impl View for Frame {
    type V = FrameView;

    open spec fn view(&self) -> FrameView {
        FrameView {
            rows: self.rows@.map_values(|key: String| key@),
            lanes: self.lanes as nat,
            axis: self.axis,
            segments: self.segments@,
            holds: self.holds@,
            taps: self.taps@,
        }
    }
}

impl SequenceView {
    /// The row of a key that has one.
    pub open spec fn row_of(self, key: Seq<char>) -> usize {
        self.rows.index_of(key) as usize
    }

    /// The bars of the keys held, among the first `n` rows and from top to
    /// bottom. They reach up to `now_vis_ms`.
    pub open spec fn hold_bars(self, n: nat, now_vis_ms: u64) -> Seq<HoldBar>
        decreases n,
    {
        if n == 0 {
            Seq::empty()
        } else {
            let above = self.hold_bars((n - 1) as nat, now_vis_ms);
            let key = self.rows[n - 1];
            if self.holds.contains_key(key) {
                above.push(
                    HoldBar {
                        row: (n - 1) as usize,
                        start_ms: self.holds[key],
                        end_ms: now_vis_ms,
                    },
                )
            } else {
                above
            }
        }
    }

    /// The picture of the sequence at the time `now_vis_ms`.
    pub open spec fn picture(self, now_vis_ms: u64, axis: AxisScale) -> FrameView {
        FrameView {
            rows: self.rows,
            lanes: if self.rows.len() == 0 {
                1
            } else {
                self.rows.len()
            },
            axis,
            segments: self.segments.map_values(
                |segment: SegmentView|
                    SegmentBar {
                        row: self.row_of(segment.key),
                        start_ms: segment.start,
                        end_ms: segment.end,
                        dur_ms: segment.end.saturating_sub(segment.start),
                    },
            ),
            holds: self.hold_bars(self.rows.len(), now_vis_ms),
            taps: self.taps.map_values(
                |tap: TapView| TapDot { row: self.row_of(tap.key), at_ms: tap.at },
            ),
        }
    }
}

proof fn lemma_row_of(s: SequenceView, key: Seq<char>, row: usize)
    requires
        s.valid(),
        row < s.rows.len(),
        s.rows[row as int] == key,
    ensures
        s.row_of(key) == row,
{
    let found = s.rows.index_of(key);
    assert(0 <= found < s.rows.len() && s.rows[found] == key);
}

/// Copies the keys in row order.
fn copy_rows(rows: &Vec<String>) -> (out: Vec<String>)
    ensures
        out@.map_values(|key: String| key@) == rows@.map_values(|key: String| key@),
{
    let mut out: Vec<String> = Vec::new();
    for i in 0..rows.len()
        invariant
            out.len() == i,
            forall|j: int| 0 <= j < i ==> (#[trigger] out@[j])@ == rows@[j]@,
    {
        out.push(rows[i].clone());
    }
    assert(out@.map_values(|key: String| key@) =~= rows@.map_values(|key: String| key@));
    out
}

/// The row of a key that is known to have one.
fn known_row(s: &Sequence, key: &str) -> (row: usize)
    requires
        s.wf(),
        s@.rows.contains(key@),
    ensures
        row == s@.row_of(key@),
{
    proof {
        s.law_contents_are_valid();
    }
    match s.row_of(key) {
        Some(row) => {
            proof {
                lemma_row_of(s@, key@, row);
            }
            row
        },
        None => {
            assert(false);
            0
        },
    }
}

/// Draws `s` at the time `now_vis_ms`.
pub fn draw(s: &Sequence, now_vis_ms: u64, axis: AxisScale) -> (frame: Frame)
    requires
        s.wf(),
    ensures
        frame@ == s@.picture(now_vis_ms, axis),
        frame.rows@.map_values(|key: String| key@) == s@.rows,
        frame.axis == axis,
        frame.segments@.len() == s@.segments.len(),
        forall|i: int|
            0 <= i < s@.segments.len() ==> (#[trigger] frame.segments@[i]).start_ms
                == s@.segments[i].start && frame.segments@[i].end_ms == s@.segments[i].end,
        frame.taps@.len() == s@.taps.len(),
        forall|i: int|
            0 <= i < s@.taps.len() ==> (#[trigger] frame.taps@[i]).at_ms == s@.taps[i].at,
{
    proof {
        s.law_contents_are_valid();
    }
    let ghost expected = s@.picture(now_vis_ms, axis);
    let rows: &Vec<String> = s.row_order();
    let ghost keys = rows@.map_values(|key: String| key@);

    let mut segments: Vec<SegmentBar> = Vec::new();
    let finished: &Vec<Segment> = s.segments();
    let ghost finished_views = finished@.map_values(|segment: Segment| segment@);
    for i in 0..finished.len()
        invariant
            s.wf(),
            s@.valid(),
            expected == s@.picture(now_vis_ms, axis),
            finished_views == finished@.map_values(|segment: Segment| segment@),
            finished_views == s@.segments,
            segments@ == expected.segments.take(i as int),
    {
        let segment = &finished[i];
        assert(finished_views[i as int] == segment@);
        let row: usize = known_row(s, segment.key.as_str());
        segments.push(
            SegmentBar {
                row,
                start_ms: segment.start,
                end_ms: segment.end,
                dur_ms: segment.end.saturating_sub(segment.start),
            },
        );
        assert(segments@ =~= expected.segments.take(i + 1));
    }

    let mut holds: Vec<HoldBar> = Vec::new();
    for i in 0..rows.len()
        invariant
            keys == rows@.map_values(|key: String| key@),
            keys == s@.rows,
            holds@ == s@.hold_bars(i as nat, now_vis_ms),
    {
        assert(keys[i as int] == rows@[i as int]@);
        if let Some(start) = s.held_since(rows[i].as_str()) {
            holds.push(HoldBar { row: i, start_ms: start, end_ms: now_vis_ms });
        }
    }

    let mut taps: Vec<TapDot> = Vec::new();
    let done: &Vec<Tap> = s.taps();
    let ghost done_views = done@.map_values(|tap: Tap| tap@);
    for i in 0..done.len()
        invariant
            s.wf(),
            s@.valid(),
            expected == s@.picture(now_vis_ms, axis),
            done_views == done@.map_values(|tap: Tap| tap@),
            done_views == s@.taps,
            taps@ == expected.taps.take(i as int),
    {
        let tap = &done[i];
        assert(done_views[i as int] == tap@);
        let row: usize = known_row(s, tap.key.as_str());
        taps.push(TapDot { row, at_ms: tap.at });
        assert(taps@ =~= expected.taps.take(i + 1));
    }

    let lanes: usize = if rows.len() == 0 {
        1
    } else {
        rows.len()
    };
    let frame = Frame { rows: copy_rows(rows), lanes, axis, segments, holds, taps };
    proof {
        assert(keys.len() == rows@.len());
        assert(finished_views.len() == finished@.len() && done_views.len() == done@.len());
        assert(frame@ =~= expected);
    }
    frame
}

/// Every finished hold and every tap is drawn in the row of its key, and a
/// finished hold is labelled with its positive duration.
pub proof fn law_marks_lie_in_their_rows(s: SequenceView, now_vis_ms: u64, axis: AxisScale)
    requires
        s.valid(),
        s.rows.len() <= usize::MAX,
    ensures
        ({
            let picture = s.picture(now_vis_ms, axis);
            &&& picture.segments.len() == s.segments.len()
            &&& picture.taps.len() == s.taps.len()
            &&& forall|i: int|
                0 <= i < s.segments.len() ==> {
                    let bar = #[trigger] picture.segments[i];
                    &&& bar.row < picture.rows.len()
                    &&& picture.rows[bar.row as int] == s.segments[i].key
                    &&& bar.dur_ms == bar.end_ms - bar.start_ms
                    &&& bar.dur_ms > 0
                }
            &&& forall|i: int|
                0 <= i < s.taps.len() ==> {
                    let dot = #[trigger] picture.taps[i];
                    &&& dot.row < picture.rows.len()
                    &&& picture.rows[dot.row as int] == s.taps[i].key
                }
        }),
{
    let picture = s.picture(now_vis_ms, axis);
    assert forall|i: int| 0 <= i < s.segments.len() implies {
        let bar = #[trigger] picture.segments[i];
        &&& bar.row < picture.rows.len()
        &&& picture.rows[bar.row as int] == s.segments[i].key
        &&& bar.dur_ms == bar.end_ms - bar.start_ms
        &&& bar.dur_ms > 0
    } by {
        assert(s.rows.contains(s.segments[i].key));
    }
    assert forall|i: int| 0 <= i < s.taps.len() implies {
        let dot = #[trigger] picture.taps[i];
        &&& dot.row < picture.rows.len()
        &&& picture.rows[dot.row as int] == s.taps[i].key
    } by {
        assert(s.rows.contains(s.taps[i].key));
    }
}

/// Of the first `n` rows, those whose key is held have one bar each, from top
/// to bottom, which starts with the hold.
pub proof fn law_held_rows_have_one_bar(s: SequenceView, n: nat, now_vis_ms: u64)
    requires
        n <= s.rows.len() <= usize::MAX,
    ensures
        ({
            let bars = s.hold_bars(n, now_vis_ms);
            &&& forall|i: int|
                0 <= i < bars.len() ==> {
                    let bar = #[trigger] bars[i];
                    let key = s.rows[bar.row as int];
                    &&& bar.row < n
                    &&& s.holds.contains_key(key)
                    &&& bar.start_ms == s.holds[key]
                    &&& bar.end_ms == now_vis_ms
                }
            &&& forall|i: int, j: int|
                0 <= i < j < bars.len() ==> (#[trigger] bars[i]).row < (#[trigger] bars[j]).row
            &&& forall|row: int|
                0 <= row < n && s.holds.contains_key(#[trigger] s.rows[row]) ==> exists|i: int|
                    0 <= i < bars.len() && (#[trigger] bars[i]).row == row
        }),
    decreases n,
{
    if n > 0 {
        let above = s.hold_bars((n - 1) as nat, now_vis_ms);
        let bars = s.hold_bars(n, now_vis_ms);
        law_held_rows_have_one_bar(s, (n - 1) as nat, now_vis_ms);
        assert forall|row: int| 0 <= row < n && s.holds.contains_key(#[trigger] s.rows[row]) implies
        exists|i: int| 0 <= i < bars.len() && (#[trigger] bars[i]).row == row by {
            if row == n - 1 {
                assert(bars[bars.len() - 1].row == row);
            } else {
                let i = choose|i: int| 0 <= i < above.len() && (#[trigger] above[i]).row == row;
                assert(bars[i].row == row);
            }
        }
    }
}

/// A picture has the rows, lanes, axis and marks that its fields hold.
pub proof fn law_frame_contents(frame: Frame)
    ensures
        frame@.rows.len() == frame.rows@.len(),
        forall|i: int| 0 <= i < frame.rows@.len() ==> #[trigger] frame@.rows[i] == frame.rows@[i]@,
        frame@.lanes == frame.lanes,
        frame@.axis == frame.axis,
        frame@.segments == frame.segments@,
        frame@.holds == frame.holds@,
        frame@.taps == frame.taps@,
{
}

/// Rows and axis are drawn as they are, with room for one row at least.
pub proof fn law_rows_are_drawn(s: SequenceView, now_vis_ms: u64, axis: AxisScale)
    ensures
        ({
            let picture = s.picture(now_vis_ms, axis);
            &&& picture.rows == s.rows
            &&& s.rows.len() > 0 ==> picture.lanes == s.rows.len()
            &&& s.rows.len() == 0 ==> picture.lanes == 1
            &&& picture.axis == axis
        }),
{
}

/// Every finished hold is drawn from when it started to when it ended, labelled
/// with the time in between, in the row of its key; and every tap when it
/// happened, in the row of its key.
pub proof fn law_marks_lie_at_their_times(s: SequenceView, now_vis_ms: u64, axis: AxisScale)
    requires
        s.valid(),
        s.rows.len() <= usize::MAX,
    ensures
        ({
            let picture = s.picture(now_vis_ms, axis);
            &&& picture.segments.len() == s.segments.len()
            &&& forall|i: int|
                0 <= i < s.segments.len() ==> {
                    let bar = #[trigger] picture.segments[i];
                    &&& bar.start_ms == s.segments[i].start
                    &&& bar.end_ms == s.segments[i].end
                    &&& bar.dur_ms == s.segments[i].end - s.segments[i].start
                    &&& bar.row < s.rows.len()
                    &&& s.rows[bar.row as int] == s.segments[i].key
                }
            &&& picture.taps.len() == s.taps.len()
            &&& forall|i: int|
                0 <= i < s.taps.len() ==> {
                    let dot = #[trigger] picture.taps[i];
                    &&& dot.at_ms == s.taps[i].at
                    &&& dot.row < s.rows.len()
                    &&& s.rows[dot.row as int] == s.taps[i].key
                }
        }),
{
    law_marks_lie_in_their_rows(s, now_vis_ms, axis);
    let picture = s.picture(now_vis_ms, axis);
    assert forall|i: int| 0 <= i < s.segments.len() implies {
        let bar = #[trigger] picture.segments[i];
        &&& bar.start_ms == s.segments[i].start
        &&& bar.end_ms == s.segments[i].end
        &&& bar.dur_ms == s.segments[i].end - s.segments[i].start
        &&& bar.row < s.rows.len()
        &&& s.rows[bar.row as int] == s.segments[i].key
    } by {
        assert(picture.segments[i].dur_ms > 0);
    }
}

/// Every key held has one bar, and no other key has any: it lies in the row of
/// the key and reaches from the start of the hold to the time on show. Bars
/// come from top to bottom.
pub proof fn law_running_holds_are_drawn(s: SequenceView, now_vis_ms: u64, axis: AxisScale)
    requires
        s.valid(),
        s.rows.len() <= usize::MAX,
    ensures
        ({
            let bars = s.picture(now_vis_ms, axis).holds;
            &&& forall|i: int|
                0 <= i < bars.len() ==> {
                    let bar = #[trigger] bars[i];
                    &&& bar.row < s.rows.len()
                    &&& s.holds.contains_key(s.rows[bar.row as int])
                    &&& bar.start_ms == s.holds[s.rows[bar.row as int]]
                    &&& bar.end_ms == now_vis_ms
                }
            &&& forall|i: int, j: int|
                0 <= i < j < bars.len() ==> (#[trigger] bars[i]).row < (#[trigger] bars[j]).row
            &&& forall|key: Seq<char>| #[trigger]
                s.holds.contains_key(key) ==> exists|i: int|
                    0 <= i < bars.len() && s.rows[(#[trigger] bars[i]).row as int] == key
        }),
{
    let bars = s.picture(now_vis_ms, axis).holds;
    law_held_rows_have_one_bar(s, s.rows.len(), now_vis_ms);
    assert forall|key: Seq<char>| #[trigger] s.holds.contains_key(key) implies exists|i: int|
        0 <= i < bars.len() && s.rows[(#[trigger] bars[i]).row as int] == key by {
        let row = choose|row: int| 0 <= row < s.rows.len() && s.rows[row] == key;
        assert(s.holds.contains_key(s.rows[row]));
        let i = choose|i: int| 0 <= i < bars.len() && (#[trigger] bars[i]).row == row;
        assert(s.rows[bars[i].row as int] == key);
    }
}

} // verus!
