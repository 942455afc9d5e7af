//! Command-line arguments.

use vstd::prelude::*;

use crate::number::parse_u64;
use crate::text::{chars_of, same_text};

verus! {

/// The gap that ends a sequence, unless the arguments say otherwise.
pub const DEFAULT_GAP_MS: u64 = 1000;

/// Whether an argument announces the gap.
pub open spec fn is_gap_flag(arg: Seq<char>) -> bool {
    arg == "--gap-ms"@ || arg == "-g"@
}

/// The gap that `args` ask for, where `gap_ms` was asked for before them. A
/// flag takes the argument behind it along, and counts if that is a number; of
/// several flags the last one that counts wins. Other arguments are ignored.
pub open spec fn gap_asked(args: Seq<Seq<char>>, gap_ms: u64) -> u64
    decreases args.len(),
{
    if args.len() == 0 {
        gap_ms
    } else if !is_gap_flag(args[0]) {
        gap_asked(args.skip(1), gap_ms)
    } else if args.len() == 1 {
        gap_ms
    } else {
        match crate::number::unsigned(args[1]) {
            Some(asked) => gap_asked(args.skip(2), asked),
            None => gap_asked(args.skip(2), gap_ms),
        }
    }
}

/// The gap that the arguments, without the program's name, ask for.
pub fn gap_from_args(args: &Vec<String>) -> (gap_ms: u64)
    ensures
        gap_ms == gap_asked(args@.map_values(|arg: String| arg@), DEFAULT_GAP_MS),
{
    let ghost all = args@.map_values(|arg: String| arg@);
    let n = args.len();
    let mut gap_ms: u64 = DEFAULT_GAP_MS;
    let mut i: usize = 0;
    assert(all.skip(0) == all);
    while i < n
        invariant
            n == args@.len(),
            all == args@.map_values(|arg: String| arg@),
            i <= n,
            gap_asked(all, DEFAULT_GAP_MS) == gap_asked(all.skip(i as int), gap_ms),
        decreases n - i,
    {
        let arg: Vec<char> = chars_of(args[i].as_str());
        assert(all.skip(i as int)[0] == arg@);
        assert(all.skip(i as int).skip(1) == all.skip(i + 1));
        if same_text(&arg, "--gap-ms") || same_text(&arg, "-g") {
            if i + 1 == n {
                return gap_ms;
            }
            let value: Vec<char> = chars_of(args[i + 1].as_str());
            assert(all.skip(i as int)[1] == value@);
            assert(all.skip(i as int).skip(2) == all.skip(i + 2));
            if let Some(asked) = parse_u64(&value) {
                gap_ms = asked;
            }
            i = i + 2;
        } else {
            i = i + 1;
        }
    }
    gap_ms
}

/// Without a flag the gap stays as it was.
pub proof fn law_no_flag_no_change(args: Seq<Seq<char>>, gap_ms: u64)
    requires
        forall|i: int| 0 <= i < args.len() ==> !is_gap_flag(#[trigger] args[i]),
    ensures
        gap_asked(args, gap_ms) == gap_ms,
    decreases args.len(),
{
    if args.len() > 0 {
        let rest = args.skip(1);
        assert forall|i: int| 0 <= i < rest.len() implies !is_gap_flag(#[trigger] rest[i]) by {
            assert(rest[i] == args[i + 1]);
        }
        law_no_flag_no_change(rest, gap_ms);
    }
}

/// A flag with a number behind arguments that are no flags sets the gap, and
/// overrides what was asked for before.
pub proof fn law_flag_with_number_sets_gap(
    before: Seq<Seq<char>>,
    flag: Seq<char>,
    asked: u64,
    gap_ms: u64,
)
    requires
        forall|i: int| 0 <= i < before.len() ==> !is_gap_flag(#[trigger] before[i]),
        is_gap_flag(flag),
    ensures
        gap_asked(before + seq![flag, crate::number::decimal_text(asked as nat)], gap_ms) == asked,
    decreases before.len(),
{
    let number = crate::number::decimal_text(asked as nat);
    let args = before + seq![flag, number];
    if before.len() == 0 {
        crate::number::law_unsigned_reads_decimal_text(asked);
        assert(args[0] == flag && args[1] == number);
        assert(gap_asked(args.skip(2), asked) == asked);
    } else {
        let rest = before.skip(1);
        assert forall|i: int| 0 <= i < rest.len() implies !is_gap_flag(#[trigger] rest[i]) by {
            assert(rest[i] == before[i + 1]);
        }
        law_flag_with_number_sets_gap(rest, flag, asked, gap_ms);
        assert(args[0] == before[0]);
        assert(args.skip(1) == rest + seq![flag, number]);
    }
}

/// The flags are `--gap-ms` and `-g`, letter for letter.
pub proof fn law_the_flags(arg: Seq<char>)
    ensures
        is_gap_flag(arg) <==> arg == seq!['-', '-', 'g', 'a', 'p', '-', 'm', 's'] || arg == seq![
            '-',
            'g',
        ],
{
    reveal_strlit("--gap-ms");
    reveal_strlit("-g");
    assert("--gap-ms"@ =~= seq!['-', '-', 'g', 'a', 'p', '-', 'm', 's']);
    assert("-g"@ =~= seq!['-', 'g']);
}

/// No arguments, or a flag with nothing behind it, ask for nothing.
pub proof fn law_flag_without_value_asks_nothing(flag: Seq<char>, gap_ms: u64)
    requires
        is_gap_flag(flag),
    ensures
        gap_asked(Seq::empty(), gap_ms) == gap_ms,
        gap_asked(seq![flag], gap_ms) == gap_ms,
{
}

/// An argument that is no flag is passed over, wherever it stands first.
pub proof fn law_other_arguments_are_passed_over(
    arg: Seq<char>,
    rest: Seq<Seq<char>>,
    gap_ms: u64,
)
    requires
        !is_gap_flag(arg),
    ensures
        gap_asked(seq![arg] + rest, gap_ms) == gap_asked(rest, gap_ms),
{
    let args = seq![arg] + rest;
    assert(args[0] == arg);
    assert(args.skip(1) =~= rest);
}

/// A flag takes the argument behind it along, be that a flag itself: a number
/// is the gap from then on, anything else leaves the gap as it was.
pub proof fn law_flag_takes_its_value_along(
    flag: Seq<char>,
    value: Seq<char>,
    rest: Seq<Seq<char>>,
    gap_ms: u64,
)
    requires
        is_gap_flag(flag),
    ensures
        crate::number::unsigned(value) matches Some(asked) ==> gap_asked(
            seq![flag, value] + rest,
            gap_ms,
        ) == gap_asked(rest, asked),
        crate::number::unsigned(value) is None ==> gap_asked(seq![flag, value] + rest, gap_ms)
            == gap_asked(rest, gap_ms),
{
    let args = seq![flag, value] + rest;
    assert(args[0] == flag && args[1] == value);
    assert(args.skip(2) =~= rest);
}

/// Without arguments the gap is a second.
pub proof fn law_default_gap()
    ensures
        gap_asked(Seq::empty(), DEFAULT_GAP_MS) == 1000,
{
}

} // verus!
