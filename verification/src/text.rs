//! Character-level text helpers shared by the record codec and the guards:
//! locating separators, slicing, appending, and two/four digit decimal fields.

use vstd::prelude::*;
use vstd::string::StrSliceExecFns;
use vstd::string::StringExecFns;

verus! {

/// Index of the first occurrence of `c` in `s` at or after position `i`.
pub open spec fn find_from(s: Seq<char>, c: char, i: int) -> Option<int>
    decreases s.len() - i,
{
    if i < 0 || i >= s.len() {
        None
    } else if s[i] == c {
        Some(i)
    } else {
        find_from(s, c, i + 1)
    }
}

/// Index of the first occurrence of `c` in `s`.
pub open spec fn find_first(s: Seq<char>, c: char) -> Option<int> {
    find_from(s, c, 0)
}

/// Index of the last occurrence of `c` in `s`.
pub open spec fn find_last(s: Seq<char>, c: char) -> Option<int>
    decreases s.len(),
{
    if s.len() == 0 {
        None
    } else if s[s.len() - 1] == c {
        Some(s.len() - 1)
    } else {
        find_last(s.drop_last(), c)
    }
}

/// What `find_from` returns: the first hit in `[i, len)`, or nothing.
pub proof fn lemma_find_from(s: Seq<char>, c: char, i: int)
    requires
        0 <= i <= s.len(),
    ensures
        match find_from(s, c, i) {
            Some(j) => i <= j < s.len() && s[j] == c && (forall|k: int|
                i <= k < j ==> s[k] != c),
            None => forall|k: int| i <= k < s.len() ==> s[k] != c,
        },
    decreases s.len() - i,
{
    if i < s.len() && s[i] != c {
        lemma_find_from(s, c, i + 1);
    }
}

/// `find_from` finds exactly the position known to be the first hit.
pub proof fn lemma_find_from_unique(s: Seq<char>, c: char, i: int, j: int)
    requires
        0 <= i <= j < s.len(),
        s[j] == c,
        forall|k: int| i <= k < j ==> s[k] != c,
    ensures
        find_from(s, c, i) == Some(j),
    decreases j - i,
{
    if i < j {
        lemma_find_from_unique(s, c, i + 1, j);
    }
}

/// `find_from` misses when no position in `[i, len)` holds `c`.
pub proof fn lemma_find_from_none(s: Seq<char>, c: char, i: int)
    requires
        0 <= i <= s.len(),
        forall|k: int| i <= k < s.len() ==> s[k] != c,
    ensures
        find_from(s, c, i) is None,
    decreases s.len() - i,
{
    if i < s.len() {
        lemma_find_from_none(s, c, i + 1);
    }
}

/// What `find_last` returns: the last hit, or nothing.
pub proof fn lemma_find_last(s: Seq<char>, c: char)
    ensures
        match find_last(s, c) {
            Some(j) => 0 <= j < s.len() && s[j] == c && (forall|k: int|
                j < k < s.len() ==> s[k] != c),
            None => forall|k: int| 0 <= k < s.len() ==> s[k] != c,
        },
    decreases s.len(),
{
    if s.len() > 0 && s[s.len() - 1] != c {
        lemma_find_last(s.drop_last(), c);
        assert forall|k: int| 0 <= k < s.len() - 1 implies s.drop_last()[k] == s[k] by {}
    }
}

/// `find_last` finds exactly the position known to be the last hit.
pub proof fn lemma_find_last_unique(s: Seq<char>, c: char, j: int)
    requires
        0 <= j < s.len(),
        s[j] == c,
        forall|k: int| j < k < s.len() ==> s[k] != c,
    ensures
        find_last(s, c) == Some(j),
    decreases s.len(),
{
    if j < s.len() - 1 {
        lemma_find_last_unique(s.drop_last(), c, j);
    }
}

/// Appends one character. Relies on `String::push`.
#[verifier::external_body]
pub fn push_char(s: &mut String, c: char)
    ensures
        final(s)@ == old(s)@ + seq![c],
{
    s.push(c);
}

/// Character-sequence equality of two string slices.
/// Relies on `str`'s `PartialEq`.
#[verifier::external_body]
pub fn str_eq(a: &str, b: &str) -> (r: bool)
    ensures
        r == (a@ == b@),
{
    a == b
}

/// First occurrence of `c` in `s`, executably.
pub fn find_char(s: &str, c: char) -> (r: Option<usize>)
    ensures
        match r {
            Some(j) => find_first(s@, c) == Some(j as int) && j < s@.len() && s@[j as int] == c
                && (forall|k: int| 0 <= k < j ==> s@[k] != c),
            None => find_first(s@, c) is None && (forall|k: int| 0 <= k < s@.len() ==> s@[k] != c),
        },
{
    let n = s.unicode_len();
    let mut i: usize = 0;
    while i < n
        invariant
            0 <= i <= n,
            n == s@.len(),
            forall|k: int| 0 <= k < i ==> s@[k] != c,
        decreases n - i,
    {
        if s.get_char(i) == c {
            proof {
                lemma_find_from_unique(s@, c, 0, i as int);
            }
            return Some(i);
        }
        i = i + 1;
    }
    proof {
        lemma_find_from_none(s@, c, 0);
    }
    None
}

/// Last occurrence of `c` in `s`, executably.
pub fn rfind_char(s: &str, c: char) -> (r: Option<usize>)
    ensures
        match r {
            Some(j) => find_last(s@, c) == Some(j as int) && j < s@.len() && s@[j as int] == c && (
            forall|k: int| j < k < s@.len() ==> s@[k] != c),
            None => find_last(s@, c) is None && (forall|k: int| 0 <= k < s@.len() ==> s@[k] != c),
        },
{
    let n = s.unicode_len();
    let mut i: usize = n;
    while i > 0
        invariant
            0 <= i <= n,
            n == s@.len(),
            forall|k: int| i <= k < n ==> s@[k] != c,
        decreases i,
    {
        i = i - 1;
        if s.get_char(i) == c {
            proof {
                lemma_find_last_unique(s@, c, i as int);
            }
            return Some(i);
        }
    }
    proof {
        lemma_find_last(s@, c);
    }
    None
}

/// The decimal digit character for a value below ten.
pub open spec fn digit_char(d: int) -> char {
    if d == 0 {
        '0'
    } else if d == 1 {
        '1'
    } else if d == 2 {
        '2'
    } else if d == 3 {
        '3'
    } else if d == 4 {
        '4'
    } else if d == 5 {
        '5'
    } else if d == 6 {
        '6'
    } else if d == 7 {
        '7'
    } else if d == 8 {
        '8'
    } else {
        '9'
    }
}

pub open spec fn is_digit(c: char) -> bool {
    c == '0' || c == '1' || c == '2' || c == '3' || c == '4' || c == '5' || c == '6' || c == '7'
        || c == '8' || c == '9'
}

/// The value of a decimal digit character.
pub open spec fn digit_val(c: char) -> int {
    if c == '0' {
        0
    } else if c == '1' {
        1
    } else if c == '2' {
        2
    } else if c == '3' {
        3
    } else if c == '4' {
        4
    } else if c == '5' {
        5
    } else if c == '6' {
        6
    } else if c == '7' {
        7
    } else if c == '8' {
        8
    } else {
        9
    }
}

/// A value below one hundred as two decimal digit characters.
pub open spec fn two_digits(n: int) -> Seq<char> {
    seq![digit_char(n / 10), digit_char(n % 10)]
}

/// A value below ten thousand as four decimal digit characters.
pub open spec fn four_digits(n: int) -> Seq<char> {
    seq![
        digit_char(n / 1000),
        digit_char((n / 100) % 10),
        digit_char((n / 10) % 10),
        digit_char(n % 10),
    ]
}

fn digit_to_char(d: u8) -> (c: char)
    requires
        d < 10,
    ensures
        c == digit_char(d as int),
{
    match d {
        0 => '0',
        1 => '1',
        2 => '2',
        3 => '3',
        4 => '4',
        5 => '5',
        6 => '6',
        7 => '7',
        8 => '8',
        _ => '9',
    }
}

pub fn char_digit_val(c: char) -> (r: Option<u8>)
    ensures
        match r {
            Some(d) => is_digit(c) && d == digit_val(c) && d < 10,
            None => !is_digit(c),
        },
{
    match c {
        '0' => Some(0),
        '1' => Some(1),
        '2' => Some(2),
        '3' => Some(3),
        '4' => Some(4),
        '5' => Some(5),
        '6' => Some(6),
        '7' => Some(7),
        '8' => Some(8),
        '9' => Some(9),
        _ => None,
    }
}

/// Appends `n` as exactly two decimal digits.
pub fn push_two_digits(s: &mut String, n: u8)
    requires
        n < 100,
    ensures
        final(s)@ == old(s)@ + two_digits(n as int),
{
    push_char(s, digit_to_char(n / 10));
    push_char(s, digit_to_char(n % 10));
    assert(final(s)@ =~= old(s)@ + two_digits(n as int));
}

/// Appends `n` as exactly four decimal digits.
pub fn push_four_digits(s: &mut String, n: u16)
    requires
        n < 10000,
    ensures
        final(s)@ == old(s)@ + four_digits(n as int),
{
    push_char(s, digit_to_char((n / 1000) as u8));
    push_char(s, digit_to_char(((n / 100) % 10) as u8));
    push_char(s, digit_to_char(((n / 10) % 10) as u8));
    push_char(s, digit_to_char((n % 10) as u8));
    assert(final(s)@ =~= old(s)@ + four_digits(n as int));
}

/// At most `n` characters, with a trailing ellipsis when text was cut.
pub open spec fn spec_truncate_ellipse(s: Seq<char>, n: int) -> Seq<char> {
    if s.len() <= n {
        s
    } else {
        s.take(n) + seq!['.', '.', '.']
    }
}

/// Cuts display text to `n` characters, marking the cut with an ellipsis.
pub fn truncate_ellipse(s: &str, n: usize) -> (r: String)
    ensures
        r@ == spec_truncate_ellipse(s@, n as int),
{
    let len = s.unicode_len();
    if len <= n {
        String::from_str(s)
    } else {
        let mut t = String::from_str(s.substring_char(0, n));
        push_char(&mut t, '.');
        push_char(&mut t, '.');
        push_char(&mut t, '.');
        proof {
            assert(t@ =~= s@.take(n as int) + seq!['.', '.', '.']);
        }
        t
    }
}

/// A digit survives the trip through its character.
pub proof fn lemma_digit_roundtrip(d: int)
    requires
        0 <= d < 10,
    ensures
        is_digit(digit_char(d)),
        digit_val(digit_char(d)) == d,
{
}

/// Digit round trip: reading back two formatted digits gives the value.
pub proof fn lemma_two_digits_val(n: int)
    requires
        0 <= n < 100,
    ensures
        two_digits(n).len() == 2,
        is_digit(two_digits(n)[0]) && is_digit(two_digits(n)[1]),
        digit_val(two_digits(n)[0]) * 10 + digit_val(two_digits(n)[1]) == n,
{
    lemma_digit_roundtrip(n / 10);
    lemma_digit_roundtrip(n % 10);
}

/// Digit round trip: reading back four formatted digits gives the value.
pub proof fn lemma_four_digits_val(n: int)
    requires
        0 <= n < 10000,
    ensures
        four_digits(n).len() == 4,
        forall|i: int| 0 <= i < 4 ==> is_digit(#[trigger] four_digits(n)[i]),
        digit_val(four_digits(n)[0]) * 1000 + digit_val(four_digits(n)[1]) * 100 + digit_val(
            four_digits(n)[2],
        ) * 10 + digit_val(four_digits(n)[3]) == n,
{
    lemma_digit_roundtrip(n / 1000);
    lemma_digit_roundtrip((n / 100) % 10);
    lemma_digit_roundtrip((n / 10) % 10);
    lemma_digit_roundtrip(n % 10);
    assert(n / 100 == (n / 1000) * 10 + (n / 100) % 10);
    assert(n / 10 == (n / 100) * 10 + (n / 10) % 10);
    assert(n == (n / 10) * 10 + n % 10);
    assert(forall|i: int| 0 <= i < 4 ==> is_digit(#[trigger] four_digits(n)[i])) by {
        assert(four_digits(n)[0] == digit_char(n / 1000));
        assert(four_digits(n)[1] == digit_char((n / 100) % 10));
        assert(four_digits(n)[2] == digit_char((n / 10) % 10));
        assert(four_digits(n)[3] == digit_char(n % 10));
    }
}

} // verus!
