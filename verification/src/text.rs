//! Comparing, trimming and building text.

use vstd::prelude::*;

verus! {

/// The characters with the Unicode property `White_Space`.
pub open spec fn white_space(c: char) -> bool {
    let code = c as u32;
    ||| 0x09 <= code <= 0x0d
    ||| code == 0x20
    ||| code == 0x85
    ||| code == 0xa0
    ||| code == 0x1680
    ||| 0x2000 <= code <= 0x200a
    ||| code == 0x2028
    ||| code == 0x2029
    ||| code == 0x202f
    ||| code == 0x205f
    ||| code == 0x3000
}

/// `s` without its leading white space.
pub open spec fn trimmed_start(s: Seq<char>) -> Seq<char>
    decreases s.len(),
{
    if s.len() > 0 && white_space(s.first()) {
        trimmed_start(s.drop_first())
    } else {
        s
    }
}

/// `s` without its trailing white space.
pub open spec fn trimmed_end(s: Seq<char>) -> Seq<char>
    decreases s.len(),
{
    if s.len() > 0 && white_space(s.last()) {
        trimmed_end(s.drop_last())
    } else {
        s
    }
}

/// `s` without white space at either end.
pub open spec fn trimmed(s: Seq<char>) -> Seq<char> {
    trimmed_end(trimmed_start(s))
}

/// The code point of `c`, an ASCII capital taken as its small letter.
pub open spec fn ascii_lower(c: char) -> int {
    if 'A' <= c && c <= 'Z' {
        c as int + 32
    } else {
        c as int
    }
}

/// Whether two texts are the same but for the case of ASCII letters.
pub open spec fn same_ignoring_ascii_case(a: Seq<char>, b: Seq<char>) -> bool {
    &&& a.len() == b.len()
    &&& forall|i: int| 0 <= i < a.len() ==> ascii_lower(#[trigger] a[i]) == ascii_lower(b[i])
}

proof fn lemma_trimmed_start_skips(s: Seq<char>, from: int)
    requires
        0 <= from <= s.len(),
        forall|i: int| 0 <= i < from ==> white_space(#[trigger] s[i]),
        from < s.len() ==> !white_space(s[from]),
    ensures
        trimmed_start(s) == s.skip(from),
    decreases from,
{
    if from == 0 {
        assert(s.skip(0) =~= s);
    } else {
        assert(white_space(s[0]));
        let rest = s.drop_first();
        assert forall|i: int| 0 <= i < from - 1 implies white_space(#[trigger] rest[i]) by {
            assert(rest[i] == s[i + 1]);
        }
        lemma_trimmed_start_skips(rest, from - 1);
        assert(rest.skip(from - 1) =~= s.skip(from));
    }
}

proof fn lemma_trimmed_end_takes(s: Seq<char>, to: int)
    requires
        0 <= to <= s.len(),
        forall|i: int| to <= i < s.len() ==> white_space(#[trigger] s[i]),
        to > 0 ==> !white_space(s[to - 1]),
    ensures
        trimmed_end(s) == s.take(to),
    decreases s.len(),
{
    if to == s.len() {
        assert(s.take(to) =~= s);
    } else {
        assert(white_space(s.last()));
        lemma_trimmed_end_takes(s.drop_last(), to);
        assert(s.drop_last().take(to) =~= s.take(to));
    }
}

fn is_white_space(c: char) -> (space: bool)
    ensures
        space == white_space(c),
{
    let code: u32 = c as u32;
    (0x09 <= code && code <= 0x0d) || code == 0x20 || code == 0x85 || code == 0xa0 || code == 0x1680
        || (0x2000 <= code && code <= 0x200a) || code == 0x2028 || code == 0x2029 || code == 0x202f
        || code == 0x205f || code == 0x3000
}

/// The part of `s` between its leading and its trailing white space.
pub fn trim(s: &str) -> (t: &str)
    ensures
        t@ == trimmed(s@),
{
    let count: usize = s.unicode_len();
    let mut chars = s.chars();
    let mut k: usize = 0;
    let mut first: usize = 0;
    let mut after: usize = 0;
    while k < count
        invariant
            count == s@.len(),
            first <= after <= k <= count,
            vstd::std_specs::iter::IteratorSpec::remaining(&chars) == s@.skip(k as int),
            forall|i: int| 0 <= i < first ==> white_space(#[trigger] s@[i]),
            forall|i: int| after <= i < k ==> white_space(#[trigger] s@[i]),
            first == after ==> first == k,
            first < after ==> !white_space(s@[first as int]) && !white_space(s@[after - 1]),
        decreases count - k,
    {
        match chars.next() {
            Some(c) => {
                assert(c == s@[k as int]);
                assert(s@.skip(k as int).drop_first() =~= s@.skip(k + 1));
                let space = is_white_space(c);
                if !space {
                    after = k + 1;
                } else if first == after {
                    first = k + 1;
                    after = k + 1;
                }
                k = k + 1;
            },
            None => {
                return s;
            },
        }
    }
    proof {
        lemma_trimmed_start_skips(s@, first as int);
        let rest = s@.skip(first as int);
        assert forall|i: int| after - first <= i < rest.len() implies white_space(
            #[trigger] rest[i],
        ) by {
            assert(rest[i] == s@[i + first]);
        }
        if first < after {
            assert(rest[after - first - 1] == s@[after - 1]);
        }
        lemma_trimmed_end_takes(rest, after - first);
        assert(rest.take(after - first) =~= s@.subrange(first as int, after as int));
    }
    s.substring_char(first, after)
}

/// Whether `a` and `b` hold the same characters.
pub fn same_text(a: &str, b: &str) -> (same: bool)
    ensures
        same == (a@ == b@),
{
    let count: usize = a.unicode_len();
    if count != b.unicode_len() {
        return false;
    }
    let mut left = a.chars();
    let mut right = b.chars();
    let mut k: usize = 0;
    while k < count
        invariant
            count == a@.len(),
            count == b@.len(),
            k <= count,
            vstd::std_specs::iter::IteratorSpec::remaining(&left) == a@.skip(k as int),
            vstd::std_specs::iter::IteratorSpec::remaining(&right) == b@.skip(k as int),
            forall|i: int| 0 <= i < k ==> #[trigger] a@[i] == b@[i],
        decreases count - k,
    {
        let x = left.next();
        let y = right.next();
        assert(x == Some(a@[k as int]));
        assert(y == Some(b@[k as int]));
        assert(a@.skip(k as int).drop_first() =~= a@.skip(k + 1));
        assert(b@.skip(k as int).drop_first() =~= b@.skip(k + 1));
        match (x, y) {
            (Some(c), Some(d)) => {
                if c != d {
                    return false;
                }
            },
            _ => {},
        }
        k = k + 1;
    }
    assert(a@ =~= b@);
    true
}

fn lower_code(c: char) -> (code: u32)
    ensures
        code == ascii_lower(c),
{
    let code: u32 = c as u32;
    if 0x41 <= code && code <= 0x5a {
        code + 32
    } else {
        code
    }
}

/// Whether `a` and `b` hold the same characters but for the case of ASCII letters.
pub fn eq_ignore_ascii_case(a: &str, b: &str) -> (same: bool)
    ensures
        same == same_ignoring_ascii_case(a@, b@),
{
    let count: usize = a.unicode_len();
    if count != b.unicode_len() {
        return false;
    }
    let mut left = a.chars();
    let mut right = b.chars();
    let mut k: usize = 0;
    while k < count
        invariant
            count == a@.len(),
            count == b@.len(),
            k <= count,
            vstd::std_specs::iter::IteratorSpec::remaining(&left) == a@.skip(k as int),
            vstd::std_specs::iter::IteratorSpec::remaining(&right) == b@.skip(k as int),
            forall|i: int| 0 <= i < k ==> ascii_lower(#[trigger] a@[i]) == ascii_lower(b@[i]),
        decreases count - k,
    {
        let x = left.next();
        let y = right.next();
        assert(x == Some(a@[k as int]));
        assert(y == Some(b@[k as int]));
        assert(a@.skip(k as int).drop_first() =~= a@.skip(k + 1));
        assert(b@.skip(k as int).drop_first() =~= b@.skip(k + 1));
        match (x, y) {
            (Some(c), Some(d)) => {
                if lower_code(c) != lower_code(d) {
                    return false;
                }
            },
            _ => {},
        }
        k = k + 1;
    }
    true
}

/// The decimal digit for a number below ten.
pub open spec fn digit(d: nat) -> char {
    (48 + d) as char
}

/// A number in decimal notation.
pub open spec fn decimal(n: nat) -> Seq<char>
    decreases n,
{
    if n < 10 {
        seq![digit(n)]
    } else {
        decimal(n / 10).push(digit(n % 10))
    }
}

fn digit_text(d: u64) -> (text: &'static str)
    requires
        d < 10,
    ensures
        text@ == seq![digit(d as nat)],
{
    proof {
        reveal_strlit("0");
        reveal_strlit("1");
        reveal_strlit("2");
        reveal_strlit("3");
        reveal_strlit("4");
        reveal_strlit("5");
        reveal_strlit("6");
        reveal_strlit("7");
        reveal_strlit("8");
        reveal_strlit("9");
    }
    match d {
        0 => "0",
        1 => "1",
        2 => "2",
        3 => "3",
        4 => "4",
        5 => "5",
        6 => "6",
        7 => "7",
        8 => "8",
        _ => "9",
    }
}

/// A number in decimal notation.
pub fn to_decimal(n: u64) -> (text: String)
    ensures
        text@ == decimal(n as nat),
    decreases n,
{
    if n < 10 {
        digit_text(n).to_owned()
    } else {
        let mut text = to_decimal(n / 10);
        text.append(digit_text(n % 10));
        assert(text@ =~= decimal(n as nat));
        text
    }
}

/// `first` followed by `second`.
pub fn joined(first: &str, second: &str) -> (text: String)
    ensures
        text@ == first@ + second@,
{
    let mut text = first.to_owned();
    text.append(second);
    text
}

} // verus!
