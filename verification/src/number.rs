//! Unsigned decimal numbers written as text.

use vstd::prelude::*;

verus! {

/// Whether `c` is one of the ten ASCII digits.
pub open spec fn is_digit(c: char) -> bool {
    '0' <= c <= '9'
}

/// The value of one digit.
pub open spec fn digit_value(c: char) -> nat {
    (c as int - '0' as int) as nat
}

/// The value of a run of digits, read in base ten.
pub open spec fn decimal_value(s: Seq<char>) -> nat
    decreases s.len(),
{
    if s.len() == 0 {
        0
    } else {
        decimal_value(s.drop_last()) * 10 + digit_value(s.last())
    }
}

/// Whether `s` holds digits only.
pub open spec fn all_digits(s: Seq<char>) -> bool {
    forall|i: int| 0 <= i < s.len() ==> is_digit(#[trigger] s[i])
}

/// `s` without the plus sign that it may start with.
pub open spec fn without_plus(s: Seq<char>) -> Seq<char> {
    if s.len() > 0 && s[0] == '+' {
        s.drop_first()
    } else {
        s
    }
}

/// What the text says as an unsigned number: an optional plus sign and at
/// least one digit, nothing else, with a value that fits 64 bits.
pub open spec fn unsigned(s: Seq<char>) -> Option<u64> {
    let digits = without_plus(s);
    if digits.len() > 0 && all_digits(digits) && decimal_value(digits) <= u64::MAX {
        Some(decimal_value(digits) as u64)
    } else {
        None
    }
}

/// The digit that stands for `d`.
pub open spec fn digit_char(d: nat) -> char {
    ('0' as int + d) as char
}

/// `n` written in base ten, without leading zeros.
pub open spec fn decimal_text(n: nat) -> Seq<char>
    decreases n,
{
    if n < 10 {
        seq![digit_char(n)]
    } else {
        decimal_text(n / 10).push(digit_char(n % 10))
    }
}

/// Writing a number in base ten gives digits with that value.
pub proof fn law_decimal_text(n: nat)
    ensures
        decimal_text(n).len() > 0,
        all_digits(decimal_text(n)),
        decimal_value(decimal_text(n)) == n,
    decreases n,
{
    let s = decimal_text(n);
    if n < 10 {
        assert(s.drop_last().len() == 0);
        assert(decimal_value(s.drop_last()) == 0);
    } else {
        law_decimal_text(n / 10);
        assert(s.drop_last() == decimal_text(n / 10));
        assert forall|i: int| 0 <= i < s.len() implies is_digit(#[trigger] s[i]) by {
            if i < s.len() - 1 {
                assert(s[i] == decimal_text(n / 10)[i]);
            }
        }
    }
}

/// Reading a 64-bit number back gives the number that was written.
pub proof fn law_unsigned_reads_decimal_text(n: u64)
    ensures
        unsigned(decimal_text(n as nat)) == Some(n),
{
    law_decimal_text(n as nat);
    assert(is_digit(decimal_text(n as nat)[0]));
}

/// A run of digits keeps all its characters.
pub(crate) proof fn lemma_digits_kept(s: Seq<char>)
    requires
        all_digits(s),
    ensures
        digits_only(s) == s,
    decreases s.len(),
{
    reveal(Seq::filter);
    if s.len() > 0 {
        assert forall|i: int| 0 <= i < s.drop_last().len() implies is_digit(
            #[trigger] s.drop_last()[i],
        ) by {
            assert(s[i] == s.drop_last()[i]);
        }
        lemma_digits_kept(s.drop_last());
        assert(is_digit(s[s.len() - 1]));
        assert(s.drop_last().push(s.last()) == s);
    }
}

/// Text without digits loses all its characters.
pub(crate) proof fn lemma_others_dropped(s: Seq<char>)
    requires
        forall|i: int| 0 <= i < s.len() ==> !is_digit(#[trigger] s[i]),
    ensures
        digits_only(s) == Seq::<char>::empty(),
    decreases s.len(),
{
    reveal(Seq::filter);
    if s.len() > 0 {
        assert forall|i: int| 0 <= i < s.drop_last().len() implies !is_digit(
            #[trigger] s.drop_last()[i],
        ) by {
            assert(s[i] == s.drop_last()[i]);
        }
        lemma_others_dropped(s.drop_last());
        assert(!is_digit(s[s.len() - 1]));
    }
}

/// The digits of two texts in a row are those of the first, then those of the
/// second.
pub(crate) proof fn lemma_digits_join(a: Seq<char>, b: Seq<char>)
    ensures
        digits_only(a + b) == digits_only(a) + digits_only(b),
{
    Seq::filter_distributes_over_add(a, b, |c: char| is_digit(c));
}

proof fn lemma_prefix_value(s: Seq<char>, n: int)
    requires
        0 <= n <= s.len(),
    ensures
        decimal_value(s.take(n)) <= decimal_value(s),
    decreases s.len(),
{
    if n == s.len() {
        assert(s.take(n) == s);
    } else {
        assert(s.drop_last().take(n) == s.take(n));
        lemma_prefix_value(s.drop_last(), n);
    }
}

/// Reads an unsigned number.
pub fn parse_u64(s: &Vec<char>) -> (out: Option<u64>)
    ensures
        out == unsigned(s@),
{
    let n = s.len();
    let from: usize = if n > 0 && s[0] == '+' {
        1
    } else {
        0
    };
    let ghost digits = s@.skip(from as int);
    assert(digits == without_plus(s@));
    if from == n {
        return None;
    }
    let mut value: u64 = 0;
    assert(digits.take(0).len() == 0);
    for i in from..n
        invariant
            n == s@.len(),
            from < n,
            digits == s@.skip(from as int),
            digits == without_plus(s@),
            value == decimal_value(digits.take(i - from)),
            forall|j: int| 0 <= j < i - from ==> is_digit(#[trigger] digits[j]),
    {
        let c = s[i];
        assert(c == digits[i - from]);
        if !('0' <= c && c <= '9') {
            assert(!all_digits(digits));
            return None;
        }
        let d: u64 = (c as u32 - '0' as u32) as u64;
        proof {
            assert(digits.take(i - from + 1).drop_last() == digits.take(i - from));
            lemma_prefix_value(digits, i - from + 1);
        }
        value = match value.checked_mul(10) {
            Some(tens) => match tens.checked_add(d) {
                Some(sum) => sum,
                None => {
                    return None;
                },
            },
            None => {
                return None;
            },
        };
    }
    assert(digits.take(n - from) == digits);
    Some(value)
}

/// The digits of `s` in order, all other characters dropped.
pub open spec fn digits_only(s: Seq<char>) -> Seq<char> {
    s.filter(|c: char| is_digit(c))
}

/// Keeps only the digits of `s`.
pub fn keep_digits(s: &Vec<char>) -> (out: Vec<char>)
    ensures
        out@ == digits_only(s@),
{
    let mut out: Vec<char> = Vec::new();
    let ghost keep = |c: char| is_digit(c);
    proof {
        reveal(Seq::filter);
        assert(s@.take(0).filter(keep) == Seq::<char>::empty());
    }
    for i in 0..s.len()
        invariant
            keep == (|c: char| is_digit(c)),
            out@ == s@.take(i as int).filter(keep),
    {
        let c = s[i];
        proof {
            reveal(Seq::filter);
            assert(s@.take(i + 1).drop_last() == s@.take(i as int));
        }
        if '0' <= c && c <= '9' {
            out.push(c);
        }
    }
    assert(s@.take(s@.len() as int) == s@);
    out
}

/// The digits are the ten characters from 48 on, and a digit is worth its
/// distance from the first.
pub proof fn law_digits(c: char)
    ensures
        is_digit(c) <==> 48 <= c as int <= 57,
        is_digit(c) ==> digit_value(c) == c as int - 48,
{
}

/// No digits are worth nothing; a further digit makes those before it worth ten
/// times as much.
pub proof fn law_value_is_positional(s: Seq<char>, c: char)
    requires
        48 <= c as int <= 57,
    ensures
        decimal_value(Seq::<char>::empty()) == 0,
        decimal_value(s.push(c)) == 10 * decimal_value(s) + (c as int - 48),
{
    assert(s.push(c).drop_last() =~= s);
}

/// A text that does not start with a plus sign is a number exactly when it has
/// characters, these are digits, and their value fits 64 bits; it then is that
/// value.
pub proof fn law_numbers_are_digits(s: Seq<char>)
    requires
        s.len() > 0 ==> s[0] != '+',
    ensures
        unsigned(s) is Some <==> s.len() > 0 && (forall|i: int|
            0 <= i < s.len() ==> 48 <= (#[trigger] s[i]) as int <= 57) && decimal_value(s)
            <= 0xffff_ffff_ffff_ffff,
        unsigned(s) matches Some(n) ==> n == decimal_value(s),
{
    assert(without_plus(s) == s);
    if forall|i: int| 0 <= i < s.len() ==> 48 <= (#[trigger] s[i]) as int <= 57 {
        assert(all_digits(s));
    }
    if all_digits(s) {
        assert forall|i: int| 0 <= i < s.len() implies 48 <= (#[trigger] s[i]) as int <= 57 by {
            assert(is_digit(s[i]));
        }
    }
}

/// One plus sign in front makes no difference, two are refused.
pub proof fn law_one_plus_sign_is_allowed(s: Seq<char>)
    ensures
        s.len() > 0 && s[0] == '+' ==> unsigned(seq!['+'] + s) is None,
        !(s.len() > 0 && s[0] == '+') ==> unsigned(seq!['+'] + s) == unsigned(s),
{
    let longer = seq!['+'] + s;
    assert(longer[0] == '+');
    assert(longer.drop_first() =~= s);
    if s.len() > 0 && s[0] == '+' {
        assert(!is_digit(s[0]));
        assert(!all_digits(s));
    }
}

/// A character is kept exactly when it is a digit, behind those kept before it.
pub proof fn law_digits_are_kept_in_order(s: Seq<char>, c: char)
    ensures
        digits_only(Seq::<char>::empty()) == Seq::<char>::empty(),
        48 <= c as int <= 57 ==> digits_only(s.push(c)) == digits_only(s).push(c),
        !(48 <= c as int <= 57) ==> digits_only(s.push(c)) == digits_only(s),
{
    reveal(Seq::filter);
    assert(s.push(c).drop_last() =~= s);
}

} // verus!
