//! The mathematical model of the Luhn scan.
use vstd::prelude::*;

verus! {

/// An ASCII decimal digit.
pub open spec fn is_digit(c: char) -> bool {
    '0' <= c && c <= '9'
}

/// The value of an ASCII decimal digit.
pub open spec fn digit_value(c: char) -> nat {
    (c as nat - '0' as nat) as nat
}

/// What one digit adds to the sum: the digit itself, or, where it is doubled,
/// the sum of the decimal digits of its double.
pub open spec fn term(d: nat, doubled: bool) -> nat {
    if doubled {
        (2 * d) % 10 + (2 * d) / 10
    } else {
        d
    }
}


/// Every character is a digit or a space.
pub open spec fn well_formed(s: Seq<char>) -> bool {
    forall|i: int| 0 <= i < s.len() ==> is_digit(#[trigger] s[i]) || s[i] == ' '
}

/// The number of digits in `s`.
pub open spec fn digit_count(s: Seq<char>) -> nat
    decreases s.len(),
{
    if s.len() == 0 {
        0
    } else if is_digit(s.last()) {
        digit_count(s.drop_last()) + 1
    } else {
        digit_count(s.drop_last())
    }
}

/// The weighted sum of the digits of `s`, read from the last to the first:
/// `doubled` says whether the last digit is doubled, and each digit after it
/// in that reading flips the flag. Other characters add nothing and leave the
/// flag as it is.
pub open spec fn weighted_sum(s: Seq<char>, doubled: bool) -> nat
    decreases s.len(),
{
    if s.len() == 0 {
        0
    } else if is_digit(s.last()) {
        term(digit_value(s.last()), doubled) + weighted_sum(s.drop_last(), !doubled)
    } else {
        weighted_sum(s.drop_last(), doubled)
    }
}

/// `s` passes the Luhn check: it is well formed, holds at least two digits,
/// and its sum with the last digit undoubled is a multiple of ten.
pub open spec fn passes(s: Seq<char>) -> bool {
    &&& well_formed(s)
    &&& digit_count(s) >= 2
    &&& weighted_sum(s, false) % 10 == 0
}

/// `s` can be given a check digit: it is well formed and holds at least two
/// digits.
pub open spec fn completable(s: Seq<char>) -> bool {
    well_formed(s) && digit_count(s) >= 2
}

/// The value of the digit that, appended to `s`, makes the whole pass: every
/// digit of `s` moves one place away from the end, so the sum is taken with
/// the last digit of `s` doubled.
pub open spec fn check_value(s: Seq<char>) -> nat {
    ((10 - weighted_sum(s, true) % 10) % 10) as nat
}

/// `s` with its spaces taken out.
pub open spec fn without_spaces(s: Seq<char>) -> Seq<char>
    decreases s.len(),
{
    if s.len() == 0 {
        s
    } else if s.last() == ' ' {
        without_spaces(s.drop_last())
    } else {
        without_spaces(s.drop_last()).push(s.last())
    }
}

/// One step of a scan from the right: the prefix of length `i` is the prefix
/// of length `i - 1` with `s[i - 1]` after it.
pub proof fn lemma_prefix_step(s: Seq<char>, i: int, doubled: bool)
    requires
        0 < i <= s.len(),
    ensures
        is_digit(s[i - 1]) ==> weighted_sum(s.take(i), doubled) == term(
            digit_value(s[i - 1]),
            doubled,
        ) + weighted_sum(s.take(i - 1), !doubled),
        is_digit(s[i - 1]) ==> digit_count(s.take(i)) == digit_count(s.take(i - 1)) + 1,
        !is_digit(s[i - 1]) ==> weighted_sum(s.take(i), doubled) == weighted_sum(
            s.take(i - 1),
            doubled,
        ),
        !is_digit(s[i - 1]) ==> digit_count(s.take(i)) == digit_count(s.take(i - 1)),
{
    let p = s.take(i);
    assert(p.drop_last() == s.take(i - 1));
    assert(p.last() == s[i - 1]);
}

} // verus!
