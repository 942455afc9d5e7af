//! Text operations on sequences of characters.

use vstd::prelude::*;

verus! {

/// `String::push` of the standard library: the character is appended at the
/// end of the string and nothing else changes.
pub assume_specification[ String::push ](s: &mut String, ch: char)
    ensures
        final(s)@ == old(s)@.push(ch),
;

/// The characters of `s` in order.
pub fn chars_of(s: &str) -> (out: Vec<char>)
    ensures
        out@ == s@,
{
    let mut out: Vec<char> = Vec::new();
    for c in it: s.chars()
        invariant
            it.seq() == s@,
            out@ == s@.take(it.index() as int),
    {
        out.push(c);
    }
    assert(s@.take(s@.len() as int) == s@);
    out
}

/// The string made of the characters `chars`.
pub fn string_of(chars: &Vec<char>) -> (out: String)
    ensures
        out@ == chars@,
{
    let mut out: String = String::new();
    for i in 0..chars.len()
        invariant
            out@ == chars@.take(i as int),
    {
        out.push(chars[i]);
        assert(chars@.take(i + 1) == chars@.take(i as int).push(chars@[i as int]));
    }
    assert(chars@.take(chars@.len() as int) == chars@);
    out
}

/// Whether `a` and `b` hold the same characters.
pub fn same_text(a: &Vec<char>, b: &str) -> (same: bool)
    ensures
        same == (a@ == b@),
{
    let other: Vec<char> = chars_of(b);
    if a.len() != other.len() {
        return false;
    }
    for i in 0..a.len()
        invariant
            other@ == b@,
            a.len() == other.len(),
            forall|j: int| 0 <= j < i ==> a@[j] == other@[j],
    {
        if a[i] != other[i] {
            return false;
        }
    }
    assert(a@ == other@);
    true
}

/// The fields of `s` between occurrences of `sep`. There is always one field
/// more than there are separators.
pub open spec fn fields(s: Seq<char>, sep: char) -> Seq<Seq<char>>
    decreases s.len(),
{
    if s.len() == 0 {
        seq![Seq::empty()]
    } else {
        let before = fields(s.drop_last(), sep);
        if s.last() == sep {
            before.push(Seq::empty())
        } else {
            before.drop_last().push(before.last().push(s.last()))
        }
    }
}

proof fn lemma_fields_nonempty(s: Seq<char>, sep: char)
    ensures
        fields(s, sep).len() >= 1,
    decreases s.len(),
{
    if s.len() > 0 {
        lemma_fields_nonempty(s.drop_last(), sep);
    }
}

/// Text without a separator is one field.
pub proof fn law_one_field(s: Seq<char>, sep: char)
    requires
        !s.contains(sep),
    ensures
        fields(s, sep) == seq![s],
    decreases s.len(),
{
    if s.len() > 0 {
        assert(s[s.len() - 1] != sep);
        assert forall|i: int| 0 <= i < s.drop_last().len() implies s.drop_last()[i] != sep by {
            assert(s[i] == s.drop_last()[i]);
        }
        law_one_field(s.drop_last(), sep);
        assert(s.drop_last().push(s.last()) == s);
    } else {
        assert(s == Seq::<char>::empty());
    }
    assert(fields(s, sep) =~= seq![s]);
}

/// A separator ends the fields before it and starts those after it.
pub proof fn law_fields_join(a: Seq<char>, sep: char, b: Seq<char>)
    ensures
        fields(a + seq![sep] + b, sep) == fields(a, sep) + fields(b, sep),
    decreases b.len(),
{
    let whole = a + seq![sep] + b;
    lemma_fields_nonempty(a, sep);
    lemma_fields_nonempty(b, sep);
    if b.len() == 0 {
        assert(whole.drop_last() == a);
        assert(fields(whole, sep) =~= fields(a, sep) + fields(b, sep));
    } else {
        let shorter = b.drop_last();
        assert(whole.drop_last() == a + seq![sep] + shorter);
        law_fields_join(a, sep, shorter);
        lemma_fields_nonempty(shorter, sep);
        assert(fields(whole, sep) =~= fields(a, sep) + fields(b, sep));
    }
}

/// Splits `s` at every `sep`.
pub fn split_fields(s: &Vec<char>, sep: char) -> (cols: Vec<Vec<char>>)
    ensures
        cols@.map_values(|c: Vec<char>| c@) == fields(s@, sep),
{
    let mut cols: Vec<Vec<char>> = Vec::new();
    let mut cur: Vec<char> = Vec::new();
    let ghost view = |c: Vec<char>| c@;
    assert(s@.take(0).len() == 0);
    for i in 0..s.len()
        invariant
            view == (|c: Vec<char>| c@),
            cols@.map_values(view).push(cur@) == fields(s@.take(i as int), sep),
    {
        let ghost done = cols@.map_values(view);
        let c = s[i];
        proof {
            assert(s@.take(i + 1).drop_last() == s@.take(i as int));
            assert(done.push(cur@).drop_last() == done);
        }
        if c == sep {
            cols.push(cur);
            cur = Vec::new();
            assert(cols@.map_values(view) == done.push(fields(s@.take(i as int), sep).last()));
        } else {
            cur.push(c);
        }
    }
    assert(s@.take(s@.len() as int) == s@);
    let ghost done = cols@.map_values(view);
    let ghost last = cur@;
    cols.push(cur);
    assert(cols@.map_values(view) == done.push(last));
    cols
}

/// What stands before and after the last `sep` of `s`, or nothing when `s`
/// holds no `sep`.
pub open spec fn around_last(s: Seq<char>, sep: char) -> Option<(Seq<char>, Seq<char>)>
    decreases s.len(),
{
    if s.len() == 0 {
        None
    } else if s.last() == sep {
        Some((s.drop_last(), Seq::empty()))
    } else {
        match around_last(s.drop_last(), sep) {
            Some((before, after)) => Some((before, after.push(s.last()))),
            None => None,
        }
    }
}

/// A separator with none behind it is the last one.
pub proof fn law_around_last(before: Seq<char>, sep: char, after: Seq<char>)
    requires
        !after.contains(sep),
    ensures
        around_last(before + seq![sep] + after, sep) == Some((before, after)),
    decreases after.len(),
{
    let whole = before + seq![sep] + after;
    if after.len() == 0 {
        assert(whole.drop_last() == before);
        assert(after == Seq::<char>::empty());
    } else {
        let shorter = after.drop_last();
        assert(after[after.len() - 1] != sep);
        assert forall|i: int| 0 <= i < shorter.len() implies shorter[i] != sep by {
            assert(after[i] == shorter[i]);
        }
        assert(whole.drop_last() == before + seq![sep] + shorter);
        law_around_last(before, sep, shorter);
        assert(shorter.push(after.last()) == after);
    }
}

/// Cuts `s` at its last `sep`.
pub fn split_at_last(s: &Vec<char>, sep: char) -> (parts: Option<(Vec<char>, Vec<char>)>)
    ensures
        match parts {
            Some((before, after)) => around_last(s@, sep) == Some((before@, after@)),
            None => around_last(s@, sep) is None,
        },
{
    let mut found: Option<(Vec<char>, Vec<char>)> = None;
    let mut seen: Vec<char> = Vec::new();
    for i in 0..s.len()
        invariant
            seen@ == s@.take(i as int),
            match found {
                Some((before, after)) => around_last(s@.take(i as int), sep) == Some(
                    (before@, after@),
                ),
                None => around_last(s@.take(i as int), sep) is None,
            },
    {
        let c = s[i];
        assert(s@.take(i + 1).drop_last() == s@.take(i as int));
        if c == sep {
            found = Some((copy_of(&seen), Vec::new()));
        } else {
            found = match found {
                Some((before, after)) => {
                    let mut after = after;
                    after.push(c);
                    Some((before, after))
                },
                None => None,
            };
        }
        seen.push(c);
        assert(seen@ == s@.take(i + 1));
    }
    assert(s@.take(s@.len() as int) == s@);
    found
}

/// A copy of `s`.
fn copy_of(s: &Vec<char>) -> (out: Vec<char>)
    ensures
        out@ == s@,
{
    copy_range(s, 0, s.len())
}

/// The characters of `s` from position `from` up to, not including, `to`.
fn copy_range(s: &Vec<char>, from: usize, to: usize) -> (out: Vec<char>)
    requires
        from <= to <= s@.len(),
    ensures
        out@ == s@.subrange(from as int, to as int),
{
    let mut out: Vec<char> = Vec::new();
    for i in from..to
        invariant
            from <= to <= s@.len(),
            out@ == s@.subrange(from as int, i as int),
    {
        out.push(s[i]);
    }
    out
}

/// Whether `c` has the Unicode property White_Space.
pub open spec fn is_white_space(c: char) -> bool {
    ||| '\u{9}' <= c <= '\u{d}'
    ||| c == '\u{20}'
    ||| c == '\u{85}'
    ||| c == '\u{a0}'
    ||| c == '\u{1680}'
    ||| '\u{2000}' <= c <= '\u{200a}'
    ||| c == '\u{2028}'
    ||| c == '\u{2029}'
    ||| c == '\u{202f}'
    ||| c == '\u{205f}'
    ||| c == '\u{3000}'
}

/// Whether `c` is white space.
pub fn white_space(c: char) -> (yes: bool)
    ensures
        yes == is_white_space(c),
{
    ('\u{9}' <= c && c <= '\u{d}') || c == '\u{20}' || c == '\u{85}' || c == '\u{a0}' || c
        == '\u{1680}' || ('\u{2000}' <= c && c <= '\u{200a}') || c == '\u{2028}' || c == '\u{2029}'
        || c == '\u{202f}' || c == '\u{205f}' || c == '\u{3000}'
}

/// `s` without the white space at its start.
pub open spec fn trimmed_start(s: Seq<char>) -> Seq<char>
    decreases s.len(),
{
    if s.len() > 0 && is_white_space(s[0]) {
        trimmed_start(s.drop_first())
    } else {
        s
    }
}

/// `s` without the white space at its end.
pub open spec fn trimmed_end(s: Seq<char>) -> Seq<char>
    decreases s.len(),
{
    if s.len() > 0 && is_white_space(s.last()) {
        trimmed_end(s.drop_last())
    } else {
        s
    }
}

/// `s` without the white space at either end.
pub open spec fn trimmed(s: Seq<char>) -> Seq<char> {
    trimmed_end(trimmed_start(s))
}

/// Removes the white space at either end of `s`.
pub fn trim(s: &Vec<char>) -> (out: Vec<char>)
    ensures
        out@ == trimmed(s@),
{
    let n = s.len();
    let mut from: usize = 0;
    assert(s@.skip(0) == s@);
    while from < n && white_space(s[from])
        invariant
            n == s@.len(),
            from <= n,
            trimmed_start(s@) == trimmed_start(s@.skip(from as int)),
        decreases n - from,
    {
        assert(s@.skip(from as int).drop_first() == s@.skip(from + 1));
        from = from + 1;
    }
    let mut to: usize = n;
    assert(s@.skip(from as int) == s@.subrange(from as int, n as int));
    while from < to && white_space(s[to - 1])
        invariant
            n == s@.len(),
            from <= to <= n,
            trimmed(s@) == trimmed_end(s@.subrange(from as int, to as int)),
        decreases to - from,
    {
        assert(s@.subrange(from as int, to as int).drop_last() == s@.subrange(
            from as int,
            to - 1,
        ));
        to = to - 1;
    }
    copy_range(s, from, to)
}

/// Whether `s` starts with `prefix`.
pub fn starts_with(s: &Vec<char>, prefix: &Vec<char>) -> (yes: bool)
    ensures
        yes == prefix@.is_prefix_of(s@),
{
    starts_with_at(s, 0, prefix)
}

/// Whether `prefix` stands at position `from` of `s`.
fn starts_with_at(s: &Vec<char>, from: usize, prefix: &Vec<char>) -> (yes: bool)
    requires
        from <= s@.len(),
    ensures
        yes == prefix@.is_prefix_of(s@.skip(from as int)),
{
    if s.len() - from < prefix.len() {
        return false;
    }
    for i in 0..prefix.len()
        invariant
            prefix.len() <= s.len() - from,
            forall|j: int| 0 <= j < i ==> prefix@[j] == s@.skip(from as int)[j],
    {
        if s[from + i] != prefix[i] {
            assert(s@.skip(from as int)[i as int] != prefix@[i as int]);
            return false;
        }
    }
    assert(prefix@ == s@.skip(from as int).subrange(0, prefix@.len() as int));
    true
}

/// `s` without the `prefix` that it starts with, however often that stands
/// there.
pub open spec fn without_prefixes(s: Seq<char>, prefix: Seq<char>) -> Seq<char>
    decreases s.len(),
{
    if prefix.len() > 0 && prefix.is_prefix_of(s) {
        without_prefixes(s.skip(prefix.len() as int), prefix)
    } else {
        s
    }
}

/// Removes every `prefix` at the start of `s`.
pub fn strip_prefixes(s: &Vec<char>, prefix: &Vec<char>) -> (out: Vec<char>)
    ensures
        out@ == without_prefixes(s@, prefix@),
{
    let n = s.len();
    let mut from: usize = 0;
    assert(s@.skip(0) == s@);
    while prefix.len() > 0 && starts_with_at(s, from, prefix)
        invariant
            n == s@.len(),
            from <= n,
            without_prefixes(s@, prefix@) == without_prefixes(s@.skip(from as int), prefix@),
        decreases n - from,
    {
        assert(prefix@.len() <= s@.skip(from as int).len());
        assert(s@.skip(from as int).skip(prefix@.len() as int) == s@.skip(from + prefix@.len()));
        from = from + prefix.len();
    }
    assert(s@.skip(from as int) == s@.subrange(from as int, n as int));
    copy_range(s, from, n)
}

/// The lower-case form of an ASCII capital; any other character itself.
pub open spec fn lower(c: char) -> char {
    if 'A' <= c <= 'Z' {
        (c as int - 'A' as int + 'a' as int) as char
    } else {
        c
    }
}

/// Turns the ASCII capitals of `s` to lower case.
pub fn to_lower(s: &Vec<char>) -> (out: Vec<char>)
    ensures
        out@ == s@.map_values(|c: char| lower(c)),
{
    let mut out: Vec<char> = Vec::new();
    for i in 0..s.len()
        invariant
            out@ == s@.take(i as int).map_values(|c: char| lower(c)),
    {
        let c = s[i];
        let low = if 'A' <= c && c <= 'Z' {
            (c as u8 - 'A' as u8 + 'a' as u8) as char
        } else {
            c
        };
        out.push(low);
        assert(out@ =~= s@.take(i + 1).map_values(|c: char| lower(c)));
    }
    assert(s@.take(s@.len() as int) == s@);
    out
}

/// Text without a separator has nothing around one.
pub proof fn law_nothing_around(s: Seq<char>, sep: char)
    requires
        !s.contains(sep),
    ensures
        around_last(s, sep) is None,
    decreases s.len(),
{
    if s.len() > 0 {
        assert(s[s.len() - 1] != sep);
        assert forall|i: int| 0 <= i < s.drop_last().len() implies s.drop_last()[i] != sep by {
            assert(s[i] == s.drop_last()[i]);
        }
        law_nothing_around(s.drop_last(), sep);
    }
}

/// Whether `s` is white space from end to end.
pub open spec fn all_white_space(s: Seq<char>) -> bool {
    forall|i: int| 0 <= i < s.len() ==> is_white_space(#[trigger] s[i])
}

/// Whether `s` neither starts nor ends with white space.
pub open spec fn bare(s: Seq<char>) -> bool {
    s.len() > 0 ==> !is_white_space(s[0]) && !is_white_space(s[s.len() - 1])
}

/// Trimming takes away all white space around a text and nothing else: what is
/// left is the text itself, with the white space inside it.
pub proof fn law_trimming_takes_white_space_only(
    before: Seq<char>,
    inner: Seq<char>,
    after: Seq<char>,
)
    requires
        all_white_space(before),
        bare(inner),
        all_white_space(after),
    ensures
        trimmed(before + inner + after) == inner,
{
    if inner.len() == 0 {
        let all = before + inner + after;
        assert forall|i: int| 0 <= i < all.len() implies is_white_space(#[trigger] all[i]) by {
            if i < before.len() {
                assert(is_white_space(before[i]));
            } else {
                assert(is_white_space(after[i - before.len()]));
            }
        }
        lemma_all_white_space_goes(all);
        assert(trimmed_start(all).len() == 0);
        assert(inner =~= trimmed(all));
    } else {
        assert(before + inner + after =~= before + (inner + after));
        lemma_start_goes(before, inner + after);
        lemma_end_goes(inner, after);
    }
}

/// Text without white space at its ends is left alone by trimming.
pub proof fn law_bare_text_stays(s: Seq<char>)
    requires
        s.len() > 0 ==> !is_white_space(s[0]) && !is_white_space(s[s.len() - 1]),
    ensures
        trimmed(s) == s,
{
    let none = Seq::<char>::empty();
    assert(none + s + none =~= s);
    law_trimming_takes_white_space_only(none, s, none);
}

proof fn lemma_all_white_space_goes(s: Seq<char>)
    requires
        all_white_space(s),
    ensures
        trimmed_start(s).len() == 0,
    decreases s.len(),
{
    if s.len() > 0 {
        assert(is_white_space(s[0]));
        assert forall|i: int| 0 <= i < s.drop_first().len() implies is_white_space(
            #[trigger] s.drop_first()[i],
        ) by {
            assert(is_white_space(s[i + 1]));
        }
        lemma_all_white_space_goes(s.drop_first());
    }
}

proof fn lemma_start_goes(before: Seq<char>, rest: Seq<char>)
    requires
        all_white_space(before),
        rest.len() > 0,
        !is_white_space(rest[0]),
    ensures
        trimmed_start(before + rest) == rest,
    decreases before.len(),
{
    if before.len() == 0 {
        assert(before + rest =~= rest);
    } else {
        let shorter = before.drop_first();
        assert(is_white_space(before[0]));
        assert forall|i: int| 0 <= i < shorter.len() implies is_white_space(
            #[trigger] shorter[i],
        ) by {
            assert(is_white_space(before[i + 1]));
        }
        assert((before + rest).drop_first() =~= shorter + rest);
        lemma_start_goes(shorter, rest);
    }
}

proof fn lemma_end_goes(rest: Seq<char>, after: Seq<char>)
    requires
        all_white_space(after),
        rest.len() > 0,
        !is_white_space(rest[rest.len() - 1]),
    ensures
        trimmed_end(rest + after) == rest,
    decreases after.len(),
{
    if after.len() == 0 {
        assert(rest + after =~= rest);
    } else {
        let shorter = after.drop_last();
        assert(is_white_space(after[after.len() - 1]));
        assert forall|i: int| 0 <= i < shorter.len() implies is_white_space(
            #[trigger] shorter[i],
        ) by {
            assert(is_white_space(after[i]));
        }
        assert((rest + after).drop_last() =~= rest + shorter);
        lemma_end_goes(rest, shorter);
    }
}

/// White space are the 25 characters with these codes.
pub proof fn law_white_space_characters(c: char)
    ensures
        ({
            let code = c as int;
            is_white_space(c) <==> {
                ||| 9 <= code <= 13
                ||| code == 32
                ||| code == 133
                ||| code == 160
                ||| code == 5760
                ||| 8192 <= code <= 8202
                ||| code == 8232
                ||| code == 8233
                ||| code == 8239
                ||| code == 8287
                ||| code == 12288
            }
        }),
{
}

/// A printing ASCII character, from `!` to `~`, is no white space; a blank, a
/// tab and the ends of lines are.
pub proof fn law_printing_characters_are_no_white_space(c: char)
    ensures
        33 <= c as int <= 126 ==> !is_white_space(c),
        c == ' ' || c == '\t' || c == '\n' || c == '\r' ==> is_white_space(c),
{
}

/// A prefix at the start goes, and what is behind it is looked at again; a text
/// that does not start with the prefix stays.
pub proof fn law_prefixes_go_one_by_one(prefix: Seq<char>, rest: Seq<char>)
    requires
        prefix.len() > 0,
    ensures
        without_prefixes(prefix + rest, prefix) == without_prefixes(rest, prefix),
        !prefix.is_prefix_of(rest) ==> without_prefixes(rest, prefix) == rest,
{
    let all = prefix + rest;
    assert(prefix =~= all.subrange(0, prefix.len() as int));
    assert(all.skip(prefix.len() as int) =~= rest);
}

/// The capitals A to Z move up by the 32 places that lie between them and the
/// small letters; no other character changes.
pub proof fn law_lower_moves_capitals_only(c: char)
    ensures
        65 <= c as int <= 90 ==> lower(c) as int == c as int + 32,
        !(65 <= c as int <= 90) ==> lower(c) == c,
{
}

} // verus!
