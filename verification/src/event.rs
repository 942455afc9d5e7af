//! Key events, and the monitor lines that report them.

use vstd::prelude::*;

use crate::number::{keep_digits, parse_u64};
use crate::text::{chars_of, same_text, split_at_last, split_fields, string_of, trim};

verus! {

/// Whether a key went down or came up.
#[derive(Debug, Clone, Copy, PartialEq, Eq, Structural)]
pub enum Kind {
    Down,
    Up,
}

/// One press or release, with the time that passed since the event before it.
#[derive(Debug, Clone)]
pub struct Event {
    pub delta_ms: u64,
    pub key: String,
    pub kind: Kind,
}

/// The contents of an [`Event`].
pub struct EventView {
    pub delta_ms: u64,
    pub key: Seq<char>,
    pub kind: Kind,
}

impl View for Event {
    type V = EventView;

    open spec fn view(&self) -> EventView {
        EventView { delta_ms: self.delta_ms, key: self.key@, kind: self.kind }
    }
}

/// The kind that a word names.
pub open spec fn kind_named(word: Seq<char>) -> Option<Kind> {
    if word == "down"@ {
        Some(Kind::Down)
    } else if word == "up"@ {
        Some(Kind::Up)
    } else {
        None
    }
}

/// The event that a monitor line reports. Of its tab-separated columns the
/// digits of the first make the delta, and the fourth is the key, a space and
/// the word `down` or `up`; further columns are ignored.
pub open spec fn reported(line: Seq<char>) -> Option<EventView> {
    let cols = crate::text::fields(line, '\t');
    if cols.len() < 4 {
        None
    } else {
        match (
            crate::number::unsigned(crate::number::digits_only(cols[0])),
            crate::text::around_last(cols[3], ' '),
        ) {
            (Some(delta_ms), Some((key, word))) => match kind_named(crate::text::trimmed(word)) {
                Some(kind) => Some(EventView { delta_ms, key: crate::text::trimmed(key), kind }),
                None => None,
            },
            _ => None,
        }
    }
}

/// The word for a kind.
pub open spec fn kind_word(kind: Kind) -> Seq<char> {
    match kind {
        Kind::Down => "down"@,
        Kind::Up => "up"@,
    }
}

/// The first column of a monitor line.
pub open spec fn delta_column(delta_ms: u64) -> Seq<char> {
    seq!['+'] + crate::number::decimal_text(delta_ms as nat) + seq![' ', 'm', 's']
}

/// The fourth column of a monitor line.
pub open spec fn key_column(key: Seq<char>, kind: Kind) -> Seq<char> {
    key + seq![' '] + kind_word(kind)
}

/// The line that a monitor writes for an event.
pub open spec fn monitor_line(device: Seq<char>, id: Seq<char>, event: EventView) -> Seq<char> {
    delta_column(event.delta_ms) + seq!['\t'] + (device + seq!['\t'] + (id + seq!['\t']
        + key_column(event.key, event.kind)))
}

proof fn lemma_digits_amid_unit(number: Seq<char>)
    requires
        crate::number::all_digits(number),
    ensures
        !(seq!['+'] + number + seq![' ', 'm', 's']).contains('\t'),
        crate::number::digits_only(seq!['+'] + number + seq![' ', 'm', 's']) == number,
{
    let plus = seq!['+'];
    let unit = seq![' ', 'm', 's'];
    let column = plus + number + unit;
    assert forall|i: int| 0 <= i < column.len() implies column[i] != '\t' by {
        if 1 <= i < 1 + number.len() {
            assert(crate::number::is_digit(number[i - 1]));
        }
    }
    crate::number::lemma_digits_kept(number);
    crate::number::lemma_others_dropped(plus);
    crate::number::lemma_others_dropped(unit);
    crate::number::lemma_digits_join(plus + number, unit);
    crate::number::lemma_digits_join(plus, number);
    assert(crate::number::digits_only(column) =~= number);
}

proof fn lemma_delta_column(delta_ms: u64)
    ensures
        !delta_column(delta_ms).contains('\t'),
        crate::number::unsigned(crate::number::digits_only(delta_column(delta_ms))) == Some(
            delta_ms,
        ),
{
    crate::number::law_decimal_text(delta_ms as nat);
    lemma_digits_amid_unit(crate::number::decimal_text(delta_ms as nat));
    crate::number::law_unsigned_reads_decimal_text(delta_ms);
}

proof fn lemma_kind_word(kind: Kind)
    ensures
        !kind_word(kind).contains(' '),
        !kind_word(kind).contains('\t'),
        kind_named(crate::text::trimmed(kind_word(kind))) == Some(kind),
{
    reveal_strlit("down");
    reveal_strlit("up");
    assert(crate::text::trimmed(kind_word(kind)) == kind_word(kind));
    assert("up"@.len() != "down"@.len());
}

/// A line written by the monitor is read back as the event it was written
/// for, whatever the device and the id are. Keys may hold spaces inside.
pub proof fn law_monitor_line_is_read_back(device: Seq<char>, id: Seq<char>, event: EventView)
    requires
        !device.contains('\t'),
        !id.contains('\t'),
        !event.key.contains('\t'),
        crate::text::trimmed(event.key) == event.key,
    ensures
        reported(monitor_line(device, id, event)) == Some(event),
{
    let tab = '\t';
    let delta = delta_column(event.delta_ms);
    let word = kind_word(event.kind);
    let last = key_column(event.key, event.kind);
    let tail = id + seq![tab] + last;
    lemma_delta_column(event.delta_ms);
    lemma_kind_word(event.kind);
    assert forall|i: int| 0 <= i < last.len() implies last[i] != tab by {
        if i < event.key.len() {
            assert(event.key.contains(event.key[i]));
        } else if i > event.key.len() {
            assert(word.contains(word[i - event.key.len() - 1]));
        }
    }
    crate::text::law_one_field(delta, tab);
    crate::text::law_one_field(device, tab);
    crate::text::law_one_field(id, tab);
    crate::text::law_one_field(last, tab);
    crate::text::law_fields_join(id, tab, last);
    crate::text::law_fields_join(device, tab, tail);
    crate::text::law_fields_join(delta, tab, device + seq![tab] + tail);
    let cols = crate::text::fields(monitor_line(device, id, event), tab);
    assert(cols =~= seq![delta, device, id, last]);
    crate::text::law_around_last(event.key, ' ', word);
}

/// Reads a line such as `+321 ms<tab>device<tab>id<tab>s down`.
pub fn parse_line(line: &str) -> (event: Option<Event>)
    ensures
        match event {
            Some(event) => reported(line@) == Some(event@),
            None => reported(line@) is None,
        },
{
    let chars: Vec<char> = chars_of(line);
    let cols: Vec<Vec<char>> = split_fields(&chars, '\t');
    let ghost views = cols@.map_values(|c: Vec<char>| c@);
    assert(views == crate::text::fields(line@, '\t'));
    if cols.len() < 4 {
        return None;
    }
    assert(views[0] == cols@[0]@ && views[3] == cols@[3]@);
    let delta_ms: u64 = match parse_u64(&keep_digits(&cols[0])) {
        Some(delta_ms) => delta_ms,
        None => {
            return None;
        },
    };
    match split_at_last(&cols[3], ' ') {
        Some((key, word)) => {
            let word: Vec<char> = trim(&word);
            let kind: Kind = if same_text(&word, "down") {
                Kind::Down
            } else if same_text(&word, "up") {
                Kind::Up
            } else {
                return None;
            };
            let key: String = string_of(&trim(&key));
            Some(Event { delta_ms, key, kind })
        },
        None => None,
    }
}

/// An event has the delta, key and kind that its fields hold.
pub proof fn law_event_contents(event: Event)
    ensures
        event@.delta_ms == event.delta_ms,
        event@.key == event.key@,
        event@.kind == event.kind,
{
}

/// A line of at least four columns, whatever follows the fourth.
spec fn four_columns(
    first: Seq<char>,
    second: Seq<char>,
    third: Seq<char>,
    fourth: Seq<char>,
    rest: Seq<char>,
) -> Seq<char> {
    first + seq!['\t'] + (second + seq!['\t'] + (third + seq!['\t'] + (fourth + rest)))
}

proof fn lemma_four_columns(
    first: Seq<char>,
    second: Seq<char>,
    third: Seq<char>,
    fourth: Seq<char>,
    rest: Seq<char>,
)
    requires
        !first.contains('\t'),
        !second.contains('\t'),
        !third.contains('\t'),
        !fourth.contains('\t'),
        rest.len() > 0 ==> rest[0] == '\t',
    ensures
        ({
            let cols = crate::text::fields(four_columns(first, second, third, fourth, rest), '\t');
            cols.len() >= 4 && cols[0] == first && cols[3] == fourth
        }),
{
    let tab = '\t';
    let end = fourth + rest;
    crate::text::law_one_field(first, tab);
    crate::text::law_one_field(second, tab);
    crate::text::law_one_field(third, tab);
    crate::text::law_one_field(fourth, tab);
    if rest.len() == 0 {
        assert(end =~= fourth);
    } else {
        assert(end =~= fourth + seq![tab] + rest.drop_first());
        crate::text::law_fields_join(fourth, tab, rest.drop_first());
    }
    crate::text::law_fields_join(third, tab, end);
    crate::text::law_fields_join(second, tab, third + seq![tab] + end);
    crate::text::law_fields_join(first, tab, second + seq![tab] + (third + seq![tab] + end));
}

/// What a line of four columns or more says: the number made of the first
/// column's digits, and the key and word around the fourth column's last blank,
/// each without the white space at its ends. All white space inside the key,
/// and every other character of it, is kept.
pub proof fn law_line_is_read(
    first: Seq<char>,
    second: Seq<char>,
    third: Seq<char>,
    rest: Seq<char>,
    key: Seq<char>,
    kind: Kind,
    key_margins: (Seq<char>, Seq<char>),
    word_margins: (Seq<char>, Seq<char>),
)
    requires
        !first.contains('\t'),
        !second.contains('\t'),
        !third.contains('\t'),
        rest.len() > 0 ==> rest[0] == '\t',
        !key.contains('\t'),
        key.len() > 0 ==> !crate::text::is_white_space(key[0]) && !crate::text::is_white_space(
            key[key.len() - 1],
        ),
        crate::text::all_white_space(key_margins.0),
        crate::text::all_white_space(key_margins.1),
        crate::text::all_white_space(word_margins.0),
        crate::text::all_white_space(word_margins.1),
        !key_margins.0.contains('\t'),
        !key_margins.1.contains('\t'),
        !word_margins.0.contains('\t'),
        !word_margins.1.contains('\t'),
        !word_margins.0.contains(' '),
        !word_margins.1.contains(' '),
    ensures
        ({
            let word = match kind {
                Kind::Down => seq!['d', 'o', 'w', 'n'],
                Kind::Up => seq!['u', 'p'],
            };
            let fourth = (key_margins.0 + key + key_margins.1) + seq![' '] + (word_margins.0 + word
                + word_margins.1);
            let line = first + seq!['\t'] + (second + seq!['\t'] + (third + seq!['\t'] + (fourth
                + rest)));
            reported(line) == match crate::number::unsigned(crate::number::digits_only(first)) {
                Some(delta_ms) => Some(EventView { delta_ms, key, kind }),
                None => None,
            }
        }),
{
    let word = match kind {
        Kind::Down => seq!['d', 'o', 'w', 'n'],
        Kind::Up => seq!['u', 'p'],
    };
    let before = key_margins.0 + key + key_margins.1;
    let after = word_margins.0 + word + word_margins.1;
    let fourth = before + seq![' '] + after;
    assert forall|i: int| 0 <= i < before.len() implies before[i] != '\t' by {
        let k = key_margins.0.len();
        if i < k {
            assert(key_margins.0.contains(before[i]));
        } else if i < k + key.len() {
            assert(key[i - k] == before[i]);
            assert(key.contains(before[i]));
        } else {
            assert(key_margins.1[i - k - key.len()] == before[i]);
            assert(key_margins.1.contains(before[i]));
        }
    }
    assert forall|i: int| 0 <= i < after.len() implies after[i] != '\t' && after[i] != ' ' by {
        let k = word_margins.0.len();
        if i < k {
            assert(word_margins.0.contains(after[i]));
        } else if i >= k + word.len() {
            assert(word_margins.1[i - k - word.len()] == after[i]);
            assert(word_margins.1.contains(after[i]));
        } else {
            assert(word[i - k] == after[i]);
        }
    }
    assert forall|i: int| 0 <= i < fourth.len() implies fourth[i] != '\t' by {
        if i < before.len() {
            assert(before[i] == fourth[i]);
        } else if i > before.len() {
            assert(after[i - before.len() - 1] == fourth[i]);
        }
    }
    lemma_four_columns(first, second, third, fourth, rest);
    crate::text::law_around_last(before, ' ', after);
    crate::text::law_trimming_takes_white_space_only(key_margins.0, key, key_margins.1);
    crate::text::law_trimming_takes_white_space_only(word_margins.0, word, word_margins.1);
    reveal_strlit("down");
    reveal_strlit("up");
    assert("down"@ =~= seq!['d', 'o', 'w', 'n']);
    assert("up"@ =~= seq!['u', 'p']);
    assert("up"@.len() != "down"@.len());
}

/// A line is refused whose fourth column has no blank, or whose word behind the
/// last blank is, without the white space at its ends, neither `down` nor `up`,
/// or whose first column is no number.
pub proof fn law_bad_column_is_refused(
    first: Seq<char>,
    second: Seq<char>,
    third: Seq<char>,
    fourth: Seq<char>,
    rest: Seq<char>,
    before: Seq<char>,
    after: Seq<char>,
)
    requires
        !first.contains('\t'),
        !second.contains('\t'),
        !third.contains('\t'),
        !fourth.contains('\t'),
        rest.len() > 0 ==> rest[0] == '\t',
        ({
            let word = crate::text::trimmed(after);
            ||| !fourth.contains(' ')
            ||| fourth == before + seq![' '] + after && !after.contains(' ') && word != seq![
                'd',
                'o',
                'w',
                'n',
            ] && word != seq!['u', 'p']
            ||| crate::number::unsigned(crate::number::digits_only(first)) is None
        }),
    ensures
        reported(
            first + seq!['\t'] + (second + seq!['\t'] + (third + seq!['\t'] + (fourth + rest))),
        ) is None,
{
    lemma_four_columns(first, second, third, fourth, rest);
    reveal_strlit("down");
    reveal_strlit("up");
    assert("down"@ =~= seq!['d', 'o', 'w', 'n']);
    assert("up"@ =~= seq!['u', 'p']);
    if !fourth.contains(' ') {
        crate::text::law_nothing_around(fourth, ' ');
    } else if fourth == before + seq![' '] + after && !after.contains(' ') {
        crate::text::law_around_last(before, ' ', after);
    }
}

/// A line of less than four columns is refused.
pub proof fn law_short_line_is_refused(first: Seq<char>, second: Seq<char>, third: Seq<char>)
    requires
        !first.contains('\t'),
        !second.contains('\t'),
        !third.contains('\t'),
    ensures
        reported(first) is None,
        reported(first + seq!['\t'] + second) is None,
        reported(first + seq!['\t'] + (second + seq!['\t'] + third)) is None,
{
    let tab = '\t';
    crate::text::law_one_field(first, tab);
    crate::text::law_one_field(second, tab);
    crate::text::law_one_field(third, tab);
    crate::text::law_fields_join(first, tab, second);
    crate::text::law_fields_join(second, tab, third);
    crate::text::law_fields_join(first, tab, second + seq![tab] + third);
}

} // verus!
