//! Properties that relate the operations to one another.
use vstd::prelude::*;

use crate::spec::{
    check_value, completable, digit_count, digit_value, is_digit, passes, term, weighted_sum,
    well_formed, without_spaces,
};
use crate::{check_outcome, digit_outcome, LuhnError, LuhnErrorView};

verus! {

/// A result with its error replaced by the error's model.
pub open spec fn result_view<T>(r: Result<T, LuhnError>) -> Result<T, LuhnErrorView> {
    match r {
        Ok(v) => Ok(v),
        Err(e) => Err(e@),
    }
}

/// Two digits with the same value are the same character.
proof fn lemma_digit_injective(a: char, b: char)
    requires
        is_digit(a),
        is_digit(b),
        digit_value(a) == digit_value(b),
    ensures
        a == b,
{
}

/// A digit `d` completes a sum `l` to a multiple of ten exactly when it is
/// the complement of `l` modulo ten.
proof fn lemma_complement(d: int, l: int)
    requires
        0 <= d < 10,
        0 <= l,
    ensures
        (d + l) % 10 == 0 <==> d == (10 - l % 10) % 10,
{
    let m = l % 10;
    vstd::arithmetic::div_mod::lemma_add_mod_noop(d, l, 10);
    vstd::arithmetic::div_mod::lemma_mod_bound(l, 10);
    vstd::arithmetic::div_mod::lemma_small_mod(d as nat, 10);
    assert((d + m) % 10 == 0 <==> d == (10 - m) % 10) by (nonlinear_arith)
        requires
            0 <= d < 10,
            0 <= m < 10,
    ;
}

/// Appending a digit moves every digit before it one place away from the
/// end: for `s` that ends in a digit, the count is one more than that of `s`
/// without its last digit, and the sum, last digit undoubled, is that digit
/// plus the sum of the rest with its last digit doubled.
pub proof fn lemma_append_digit(s: Seq<char>)
    requires
        s.len() > 0,
        is_digit(s.last()),
    ensures
        weighted_sum(s, false) == digit_value(s.last()) + weighted_sum(s.drop_last(), true),
        digit_count(s) == digit_count(s.drop_last()) + 1,
        well_formed(s) ==> well_formed(s.drop_last()),
{
    assert(term(digit_value(s.last()), false) == digit_value(s.last()));
    if well_formed(s) {
        assert forall|i: int| 0 <= i < s.drop_last().len() implies is_digit(
            #[trigger] s.drop_last()[i],
        ) || s.drop_last()[i] == ' ' by {
            assert(s.drop_last()[i] == s[i]);
        }
    }
}

/// Completing a well-formed sequence that ends in a digit, with at least two
/// digits before it, gives back that last digit exactly when the whole
/// sequence passes the check.
pub proof fn lemma_round_trip(
    s: Seq<char>,
    checked: Result<(), LuhnError>,
    completed: Result<char, LuhnError>,
)
    requires
        well_formed(s),
        s.len() > 0,
        is_digit(s.last()),
        digit_count(s.drop_last()) >= 2,
        check_outcome(s, checked),
        digit_outcome(s.drop_last(), completed),
    ensures
        completed == Ok::<char, LuhnError>(s.last()) <==> checked is Ok,
{
    let head = s.drop_last();
    lemma_append_digit(s);
    lemma_complement(digit_value(s.last()) as int, weighted_sum(head, true) as int);
    if let Ok(c) = completed {
        if digit_value(c) == digit_value(s.last()) {
            lemma_digit_injective(c, s.last());
        }
    }
}

/// Where a sequence fails the check, though well formed and with at least two
/// digits before its last character, completing it without that character
/// gives a digit other than that character.
pub proof fn lemma_failed_check_completes_otherwise(
    s: Seq<char>,
    checked: Result<(), LuhnError>,
    completed: Result<char, LuhnError>,
)
    requires
        s.len() > 0,
        digit_count(s.drop_last()) >= 2,
        check_outcome(s, checked),
        checked matches Err(e) && e@ == LuhnErrorView::CheckFailed,
        digit_outcome(s.drop_last(), completed),
    ensures
        completed matches Ok(c) && c != s.last(),
{
    let head = s.drop_last();
    assert(well_formed(s));
    assert(well_formed(head)) by {
        assert forall|i: int| 0 <= i < head.len() implies is_digit(#[trigger] head[i])
            || head[i] == ' ' by {
            assert(head[i] == s[i]);
        }
    }
    if is_digit(s.last()) {
        lemma_round_trip(s, checked, completed);
    }
}

/// The scan of `a` followed by `b` is the scan of `b` followed by the scan of
/// `a`: the counts add, and so do the sums, where `a` is read with its flag
/// flipped once for each digit of `b`.
pub proof fn lemma_scan_concat(a: Seq<char>, b: Seq<char>, doubled: bool)
    ensures
        digit_count(a + b) == digit_count(a) + digit_count(b),
        weighted_sum(a + b, doubled) == weighted_sum(b, doubled) + weighted_sum(
            a,
            if digit_count(b) % 2 == 1 {
                !doubled
            } else {
                doubled
            },
        ),
    decreases b.len(),
{
    if b.len() == 0 {
        assert(a + b == a);
    } else {
        let head = b.drop_last();
        assert((a + b).drop_last() == a + head);
        assert((a + b).last() == b.last());
        if is_digit(b.last()) {
            lemma_scan_concat(a, head, !doubled);
        } else {
            lemma_scan_concat(a, head, doubled);
        }
    }
}

/// A sequence is well formed exactly when all but its last character are,
/// and the last is a digit or a space.
proof fn lemma_well_formed_last(s: Seq<char>)
    requires
        s.len() > 0,
    ensures
        well_formed(s) == (well_formed(s.drop_last()) && (is_digit(s.last()) || s.last() == ' ')),
{
    let head = s.drop_last();
    if well_formed(head) && (is_digit(s.last()) || s.last() == ' ') {
        assert forall|i: int| 0 <= i < s.len() implies is_digit(#[trigger] s[i]) || s[i] == ' ' by {
            if i < head.len() {
                assert(head[i] == s[i]);
            }
        }
    }
    if well_formed(s) {
        assert forall|i: int| 0 <= i < head.len() implies is_digit(#[trigger] head[i])
            || head[i] == ' ' by {
            assert(head[i] == s[i]);
        }
        assert(is_digit(s[s.len() - 1]) || s[s.len() - 1] == ' ');
    }
}

/// Taking the spaces out of a sequence changes neither its digit count, nor
/// its sums, nor whether it is well formed.
proof fn lemma_spaces_removed(s: Seq<char>)
    ensures
        digit_count(without_spaces(s)) == digit_count(s),
        weighted_sum(without_spaces(s), false) == weighted_sum(s, false),
        weighted_sum(without_spaces(s), true) == weighted_sum(s, true),
        well_formed(without_spaces(s)) == well_formed(s),
    decreases s.len(),
{
    if s.len() > 0 {
        let head = s.drop_last();
        let c = s.last();
        lemma_spaces_removed(head);
        lemma_well_formed_last(s);
        if c != ' ' {
            let w = without_spaces(s);
            assert(w.drop_last() == without_spaces(head));
            assert(w.last() == c);
            lemma_well_formed_last(w);
        }
    } else {
        assert(without_spaces(s) == s);
    }
}

/// Spaces do not matter: two sequences that differ only in their spaces have
/// the same digit count and the same sums, are well formed alike, and pass the
/// check and take a check digit alike.
pub proof fn lemma_spaces_ignored(s: Seq<char>, t: Seq<char>)
    requires
        without_spaces(s) == without_spaces(t),
    ensures
        digit_count(s) == digit_count(t),
        weighted_sum(s, false) == weighted_sum(t, false),
        weighted_sum(s, true) == weighted_sum(t, true),
        well_formed(s) == well_formed(t),
        passes(s) == passes(t),
        completable(s) == completable(t),
        check_value(s) == check_value(t),
{
    lemma_spaces_removed(s);
    lemma_spaces_removed(t);
}

/// Checking depends on the input alone: two results that meet the contract of
/// `luhn_check` for the same input are the same.
pub proof fn lemma_check_determined(
    s: Seq<char>,
    first: Result<(), LuhnError>,
    second: Result<(), LuhnError>,
)
    requires
        check_outcome(s, first),
        check_outcome(s, second),
    ensures
        result_view(first) == result_view(second),
{
}

/// Completing depends on the input alone: two results that meet the contract
/// of `luhn_digit` for the same input are the same.
pub proof fn lemma_digit_determined(
    s: Seq<char>,
    first: Result<char, LuhnError>,
    second: Result<char, LuhnError>,
)
    requires
        digit_outcome(s, first),
        digit_outcome(s, second),
    ensures
        result_view(first) == result_view(second),
{
    if let (Ok(a), Ok(b)) = (first, second) {
        lemma_digit_injective(a, b);
    }
}

} // verus!
