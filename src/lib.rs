//! Luhn checksum: validate a digit string, or compute the check digit that
//! completes one.
use vstd::prelude::*;

pub mod laws;
pub mod spec;

use crate::spec::{
    check_value, completable, digit_count, digit_value, is_digit, lemma_prefix_step, passes,
    term, weighted_sum, well_formed,
};

verus! {

/// Why a sequence was refused.
#[derive(Debug, Clone, PartialEq, Eq)]
pub enum LuhnError {
    /// A character other than a digit or a space, or, when completing, fewer
    /// than two digits. Holds the whole input as given.
    SyntaxError(String),
    /// The sequence is well formed but fails the checksum, or holds fewer than
    /// two digits.
    CheckFailed,
}

/// The model of a [`LuhnError`]: the refused input as a sequence of characters.
pub enum LuhnErrorView {
    SyntaxError(Seq<char>),
    CheckFailed,
}

impl View for LuhnError {
    type V = LuhnErrorView;

    open spec fn view(&self) -> LuhnErrorView {
        match self {
            LuhnError::SyntaxError(s) => LuhnErrorView::SyntaxError(s@),
            LuhnError::CheckFailed => LuhnErrorView::CheckFailed,
        }
    }
}

/// What [`luhn_check`] returns for the input `s`: success exactly when `s`
/// passes; otherwise a syntax error holding `s` where `s` is not well formed,
/// and a failed check where it is.
pub open spec fn check_outcome(s: Seq<char>, r: Result<(), LuhnError>) -> bool {
    match r {
        Ok(()) => passes(s),
        Err(e) => {
            &&& !passes(s)
            &&& if well_formed(s) {
                e@ == LuhnErrorView::CheckFailed
            } else {
                e@ == LuhnErrorView::SyntaxError(s)
            }
        },
    }
}

/// What [`luhn_digit`] returns for the input `s`: where `s` can be completed,
/// the digit whose value is `check_value(s)`; otherwise a syntax error holding
/// `s`.
pub open spec fn digit_outcome(s: Seq<char>, r: Result<char, LuhnError>) -> bool {
    match r {
        Ok(c) => completable(s) && is_digit(c) && digit_value(c) == check_value(s),
        Err(e) => !completable(s) && e@ == LuhnErrorView::SyntaxError(s),
    }
}

/// Collects the characters of `s` in order.
fn chars_of(s: &str) -> (r: Vec<char>)
    ensures
        r@ == s@,
{
    broadcast use vstd::string::axiom_spec_iter;

    let mut r: Vec<char> = Vec::new();
    for c in it: s.chars()
        invariant
            it.seq() == s@,
            r@ == it.seq().take(it.index()),
    {
        r.push(c);
    }
    r
}

/// A syntax error that holds a copy of `s`.
fn syntax_error(s: &str) -> (e: LuhnError)
    ensures
        e@ == LuhnErrorView::SyntaxError(s@),
{
    broadcast use vstd::string::to_string_from_display_ensures_for_str;

    LuhnError::SyntaxError(s.to_string())
}

/// What one digit adds to the sum, `doubled` or not.
fn digit_term(d: u32, doubled: bool) -> (t: u32)
    requires
        d <= 9,
    ensures
        t == term(d as nat, doubled),
        t <= 9,
{
    if doubled {
        let double_digit = d * 2;
        double_digit % 10 + double_digit / 10
    } else {
        d
    }
}

/// Scans `cc_number` from its last character to its first, and returns the
/// number of digits and their weighted sum. `odd` says whether the last digit
/// is doubled. Spaces are skipped; any other non-digit refuses the whole
/// input. Each digit adds at most nine, so the sum fits in a `u128` whatever
/// the length of the input.
fn luhn_sum(cc_number: &str, odd: bool) -> (r: Result<(usize, u128), LuhnError>)
    ensures
        match r {
            Ok((count, sum)) => {
                &&& well_formed(cc_number@)
                &&& count == digit_count(cc_number@)
                &&& sum == weighted_sum(cc_number@, odd)
            },
            Err(e) => !well_formed(cc_number@) && e@ == LuhnErrorView::SyntaxError(cc_number@),
        },
{
    let chars = chars_of(cc_number);
    let ghost s = cc_number@;
    let mut odd = odd;
    let ghost doubled = odd;
    let mut sum: u128 = 0;
    let mut count: usize = 0;
    let mut i: usize = chars.len();
    assert(s.take(s.len() as int) == s);
    while i > 0
        invariant
            s == cc_number@,
            chars@ == s,
            chars.len() == s.len(),
            i <= s.len(),
            count + digit_count(s.take(i as int)) == digit_count(s),
            count <= s.len() - i,
            sum <= 9 * count,
            sum + weighted_sum(s.take(i as int), odd) == weighted_sum(s, doubled),
            forall|j: int| i <= j < s.len() ==> is_digit(#[trigger] s[j]) || s[j] == ' ',
        decreases i,
    {
        let c = chars[i - 1];
        proof {
            lemma_prefix_step(s, i as int, odd);
        }
        if '0' <= c && c <= '9' {
            let digit = (c as u32) - ('0' as u32);
            let t = digit_term(digit, odd);
            sum = sum + t as u128;
            count = count + 1;
            odd = !odd;
        } else if c != ' ' {
            assert(!is_digit(s[i - 1]) && s[i - 1] != ' ');
            assert(!well_formed(s));
            return Err(syntax_error(cc_number));
        }
        i = i - 1;
    }
    assert(s.take(0).len() == 0);
    Ok((count, sum))
}

/// Basic Luhn check: `true` where the input passes, and `false` both for a
/// syntax error and for a failed check. [`luhn_check`] tells the two apart
/// and should be preferred.
pub fn luhn(cc_number: &str) -> (r: bool)
    ensures
        r == passes(cc_number@),
{
    luhn_check(cc_number).is_ok()
}

/// Luhn check: `Ok(())` where the input passes; otherwise the error that says
/// why it does not.
pub fn luhn_check(cc_number: &str) -> (r: Result<(), LuhnError>)
    ensures
        check_outcome(cc_number@, r),
{
    let (count, sum) = match luhn_sum(cc_number, false) {
        Ok(scanned) => scanned,
        Err(e) => return Err(e),
    };
    if count < 2 || sum % 10 != 0 {
        return Err(LuhnError::CheckFailed);
    }
    Ok(())
}

/// The digit that, appended to `cc_number`, makes it pass [`luhn_check`].
/// Refuses, with a syntax error, an input that is not well formed or holds
/// fewer than two digits.
pub fn luhn_digit(cc_number: &str) -> (r: Result<char, LuhnError>)
    ensures
        digit_outcome(cc_number@, r),
{
    let (count, sum) = match luhn_sum(cc_number, true) {
        Ok(scanned) => scanned,
        Err(e) => return Err(e),
    };
    if count < 2 {
        return Err(syntax_error(cc_number));
    }
    let r = sum % 10;
    let d = (10 - r) % 10;
    Ok((('0' as u8) + d as u8) as char)
}

} // verus!
