//! White space, letter case and numbers.

use vstd::prelude::*;

use crate::text::{
    ascii_lower, decimal, same_ignoring_ascii_case, trimmed, trimmed_end, trimmed_start,
    white_space,
};

verus! {

/// White space is a tab, a line feed, a vertical tab, a form feed, a carriage
/// return, a blank, or one of nineteen characters beyond ASCII, and nothing else.
pub proof fn lemma_white_space_is(c: char)
    ensures
        white_space(c) <==> {
            let code = c as u32;
            ||| code == 9 || code == 10 || code == 11 || code == 12 || code == 13 || code == 32
            ||| code == 133 || code == 160 || code == 5760
            ||| code == 8192 || code == 8193 || code == 8194 || code == 8195 || code == 8196
            ||| code == 8197 || code == 8198 || code == 8199 || code == 8200 || code == 8201
            ||| code == 8202 || code == 8232 || code == 8233 || code == 8239 || code == 8287
            ||| code == 12288
        },
{
}

/// Whether `core` is what is left of `s` between the white space at its ends.
pub open spec fn is_core(s: Seq<char>, core: Seq<char>) -> bool {
    exists|from: int, to: int|
        0 <= from <= to <= s.len() && core == #[trigger] s.subrange(from, to) && (forall|i: int|
            0 <= i < s.len() && (i < from || to <= i) ==> white_space(#[trigger] s[i])) && (from
            < to ==> !white_space(s[from]) && !white_space(s[to - 1]))
}

proof fn lemma_leading(s: Seq<char>) -> (from: int)
    ensures
        0 <= from <= s.len(),
        trimmed_start(s) == s.skip(from),
        forall|i: int| 0 <= i < from ==> white_space(#[trigger] s[i]),
        from < s.len() ==> !white_space(s[from]),
    decreases s.len(),
{
    if s.len() > 0 && white_space(s.first()) {
        let rest = s.drop_first();
        let from = lemma_leading(rest);
        assert(rest.skip(from) =~= s.skip(from + 1));
        assert forall|i: int| 0 <= i < from + 1 implies white_space(#[trigger] s[i]) by {
            if i > 0 {
                assert(rest[i - 1] == s[i]);
            }
        }
        if from < rest.len() {
            assert(rest[from] == s[from + 1]);
        }
        from + 1
    } else {
        assert(s.skip(0) =~= s);
        0
    }
}

proof fn lemma_trailing(s: Seq<char>) -> (to: int)
    ensures
        0 <= to <= s.len(),
        trimmed_end(s) == s.take(to),
        forall|i: int| to <= i < s.len() ==> white_space(#[trigger] s[i]),
        to > 0 ==> !white_space(s[to - 1]),
    decreases s.len(),
{
    if s.len() > 0 && white_space(s.last()) {
        let rest = s.drop_last();
        let to = lemma_trailing(rest);
        assert(rest.take(to) =~= s.take(to));
        assert forall|i: int| to <= i < s.len() implies white_space(#[trigger] s[i]) by {
            if i < rest.len() {
                assert(rest[i] == s[i]);
            }
        }
        to
    } else {
        assert(s.take(s.len() as int) =~= s);
        s.len() as int
    }
}

/// Trimming takes white space off both ends, all of it, and nothing else.
pub proof fn lemma_trimming_leaves_the_core(s: Seq<char>)
    ensures
        is_core(s, trimmed(s)),
        trimmed(s).len() == 0 <==> forall|i: int| 0 <= i < s.len() ==> white_space(#[trigger] s[i]),
{
    let from = lemma_leading(s);
    let rest = s.skip(from);
    let kept = lemma_trailing(rest);
    let to = from + kept;
    assert(trimmed(s) =~= s.subrange(from, to));
    assert forall|i: int| 0 <= i < s.len() && (i < from || to <= i) implies white_space(
        #[trigger] s[i],
    ) by {
        if to <= i {
            assert(rest[i - from] == s[i]);
        }
    }
    if from < to {
        assert(rest[kept - 1] == s[to - 1]);
    }
}

/// Whether two characters are the small and the capital form of one ASCII letter.
pub open spec fn are_cases_of_one_letter(x: char, y: char) -> bool {
    ||| 'a' <= x <= 'z' && x as int == y as int + 32
    ||| 'a' <= y <= 'z' && y as int == x as int + 32
}

/// Two texts are the same ignoring ASCII case exactly where they are equally long
/// and differ, character by character, in nothing but the case of ASCII letters.
pub proof fn lemma_only_the_case_of_letters_is_ignored(a: Seq<char>, b: Seq<char>)
    ensures
        same_ignoring_ascii_case(a, b) <==> a.len() == b.len() && forall|i: int|
            0 <= i < a.len() ==> (#[trigger] a[i]) == b[i] || are_cases_of_one_letter(a[i], b[i]),
{
    assert forall|x: char, y: char|
        (#[trigger] ascii_lower(x) == #[trigger] ascii_lower(y)) == (x == y
            || are_cases_of_one_letter(x, y)) by {}
    if a.len() == b.len() {
        if same_ignoring_ascii_case(a, b) {
            assert forall|i: int| 0 <= i < a.len() implies (#[trigger] a[i]) == b[i]
                || are_cases_of_one_letter(a[i], b[i]) by {
                assert(ascii_lower(a[i]) == ascii_lower(b[i]));
            }
        }
    }
}

/// The number that a text of digits denotes.
pub open spec fn number(digits: Seq<char>) -> int
    decreases digits.len(),
{
    if digits.len() == 0 {
        0
    } else {
        10 * number(digits.drop_last()) + (digits.last() as int - '0' as int)
    }
}

/// Whether a text is how a number is written: decimal digits that denote it, without
/// a leading zero.
pub open spec fn is_decimal_of(digits: Seq<char>, n: int) -> bool {
    &&& number(digits) == n
    &&& digits.len() > 0
    &&& digits[0] == '0' ==> digits.len() == 1
    &&& forall|i: int| 0 <= i < digits.len() ==> '0' <= #[trigger] digits[i] <= '9'
}

/// A number is written in decimal digits that denote it, without a leading zero.
pub proof fn lemma_decimal_denotes_its_number(n: nat)
    ensures
        is_decimal_of(decimal(n), n as int),
    decreases n,
{
    let text = decimal(n);
    if n < 10 {
        assert(text.drop_last() =~= Seq::empty());
        assert(number(text.drop_last()) == 0);
    } else {
        lemma_decimal_denotes_its_number(n / 10);
        assert(text.drop_last() =~= decimal(n / 10));
        assert(text[0] == decimal(n / 10)[0]);
        if decimal(n / 10).len() == 1 && text[0] == '0' {
            assert(decimal(n / 10).drop_last() =~= Seq::empty());
            assert(number(decimal(n / 10).drop_last()) == 0);
            assert(decimal(n / 10).last() == '0');
        }
    }
}

} // verus!
