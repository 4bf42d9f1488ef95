//! Operations on text: comparison, search and decimal numerals.

use vstd::prelude::*;
use vstd::string::*;
use vstd::utf8::*;

verus! {

broadcast use vstd::string::group_string_axioms;

/// Taken on trust from the standard library's documentation, not proved:
/// `String::push` appends the character to the end of the string and
/// leaves the characters before it as they were.
pub assume_specification[ String::push ](s: &mut String, c: char)
    ensures
        final(s)@ == old(s)@.push(c),
;

/// `s` holds `first` directly followed by `second`.
pub open spec fn has_pair(s: Seq<char>, first: char, second: char) -> bool {
    exists|i: int| 0 <= i && i + 1 < s.len() && s[i] == first && #[trigger] s[i + 1] == second
}

/// `s` is not empty and ends with `c`.
pub open spec fn ends_with(s: Seq<char>, c: char) -> bool {
    s.len() > 0 && s.last() == c
}

/// `s` is the word `xml`, in any mix of upper and lower case.
pub open spec fn is_xml_word(s: Seq<char>) -> bool {
    &&& s.len() == 3
    &&& (s[0] == 'x' || s[0] == 'X')
    &&& (s[1] == 'm' || s[1] == 'M')
    &&& (s[2] == 'l' || s[2] == 'L')
}

/// Whether two texts hold the same characters.
pub fn str_eq(a: &str, b: &str) -> (r: bool)
    ensures
        r == (a@ == b@),
{
    let x = a.as_bytes();
    let y = b.as_bytes();
    proof {
        encode_utf8_decode_utf8(a@);
        encode_utf8_decode_utf8(b@);
    }
    if x.len() != y.len() {
        return false;
    }
    let mut i: usize = 0;
    while i < x.len()
        invariant
            x@ == encode_utf8(a@),
            y@ == encode_utf8(b@),
            x@.len() == y@.len(),
            i <= x@.len(),
            x@.take(i as int) == y@.take(i as int),
        decreases x@.len() - i,
    {
        if x[i] != y[i] {
            return false;
        }
        i += 1;
    }
    assert(x@ == x@.take(i as int));
    assert(y@ == y@.take(i as int));
    true
}

/// Whether `needle` occurs in `s`.
pub fn contains_char(s: &str, needle: char) -> (r: bool)
    ensures
        r == s@.contains(needle),
{
    let mut found = false;
    for c in it: s.chars()
        invariant
            it.seq() == s@,
            found == s@.take(it.index()).contains(needle),
    {
        let ghost i = it.index();
        assert(s@.take(i + 1) == s@.take(i).push(c));
        if c == needle {
            assert(s@.take(i + 1)[i] == needle);
            found = true;
        }
    }
    assert(s@.take(s@.len() as int) == s@);
    found
}

/// Whether `first` occurs in `s` with `second` right behind it.
pub fn contains_pair(s: &str, first: char, second: char) -> (r: bool)
    ensures
        r == has_pair(s@, first, second),
{
    let mut found = false;
    let mut after_first = false;
    for c in it: s.chars()
        invariant
            it.seq() == s@,
            found == has_pair(s@.take(it.index()), first, second),
            after_first == ends_with(s@.take(it.index()), first),
    {
        let ghost i = it.index();
        let ghost t = s@.take(i);
        let ghost u = s@.take(i + 1);
        proof {
            // A pair in `t` is a pair in `u`, and a pair in `u` lies in `t`
            // or ends with `c`.
            if has_pair(t, first, second) {
                let k = choose|k: int|
                    0 <= k && k + 1 < t.len() && t[k] == first && #[trigger] t[k + 1] == second;
                assert(u[k] == first && u[k + 1] == second);
            }
            if has_pair(u, first, second) {
                let k = choose|k: int|
                    0 <= k && k + 1 < u.len() && u[k] == first && #[trigger] u[k + 1] == second;
                if k + 1 < t.len() {
                    assert(t[k] == first && t[k + 1] == second);
                }
            }
        }
        if after_first && c == second {
            assert(u[i - 1] == first && u[i - 1 + 1] == second);
            found = true;
        }
        after_first = c == first;
    }
    assert(s@.take(s@.len() as int) == s@);
    found
}

/// Whether `s` ends with the character `c`.
pub fn ends_with_char(s: &str, c: char) -> (r: bool)
    ensures
        r == ends_with(s@, c),
{
    let mut last_is_c = false;
    for d in it: s.chars()
        invariant
            it.seq() == s@,
            last_is_c == ends_with(s@.take(it.index()), c),
    {
        last_is_c = d == c;
    }
    last_is_c
}

/// The character that stands for a decimal digit.
pub open spec fn digit_char(d: nat) -> char {
    if d == 0 {
        '0'
    } else if d == 1 {
        '1'
    } else if d == 2 {
        '2'
    } else if d == 3 {
        '3'
    } else if d == 4 {
        '4'
    } else if d == 5 {
        '5'
    } else if d == 6 {
        '6'
    } else if d == 7 {
        '7'
    } else if d == 8 {
        '8'
    } else {
        '9'
    }
}

/// The decimal numeral of `n`, without leading zeros.
pub open spec fn decimal(n: nat) -> Seq<char>
    decreases n,
{
    if n < 10 {
        seq![digit_char(n)]
    } else {
        decimal(n / 10).push(digit_char(n % 10))
    }
}

/// The digit that a character stands for; 0 for a character that is no
/// digit.
pub open spec fn digit_value(c: char) -> nat {
    if '0' <= c <= '9' {
        (c as nat - '0' as nat) as nat
    } else {
        0
    }
}

/// The number that a decimal numeral stands for.
pub open spec fn decimal_value(s: Seq<char>) -> nat
    decreases s.len(),
{
    if s.len() == 0 {
        0
    } else {
        decimal_value(s.drop_last()) * 10 + digit_value(s.last())
    }
}

/// A numeral stands for the number that it was made from.
pub proof fn lemma_decimal_value(n: nat)
    ensures
        decimal_value(decimal(n)) == n,
    decreases n,
{
    if n < 10 {
        assert(decimal_value(decimal(n).drop_last()) == 0);
    } else {
        lemma_decimal_value(n / 10);
        assert(decimal(n).drop_last() =~= decimal(n / 10));
    }
}

/// Two numbers with the same numeral are one number.
pub proof fn lemma_decimal_injective(m: nat, n: nat)
    requires
        decimal(m) == decimal(n),
    ensures
        m == n,
{
    lemma_decimal_value(m);
    lemma_decimal_value(n);
}

fn digit(d: u32) -> (c: char)
    requires
        d < 10,
    ensures
        c == digit_char(d as nat),
{
    match d {
        0 => '0',
        1 => '1',
        2 => '2',
        3 => '3',
        4 => '4',
        5 => '5',
        6 => '6',
        7 => '7',
        8 => '8',
        _ => '9',
    }
}

/// Appends the decimal numeral of `n` to `out`.
pub fn push_decimal(out: &mut String, n: u32)
    ensures
        final(out)@ == old(out)@ + decimal(n as nat),
    decreases n,
{
    if n >= 10 {
        push_decimal(out, n / 10);
    }
    out.push(digit(n % 10));
}

/// Whether `s` is the word `xml`, in any mix of upper and lower case.
pub fn is_xml_ignore_case(s: &str) -> (r: bool)
    ensures
        r == is_xml_word(s@),
{
    let mut matched = true;
    let mut n: usize = 0;
    for c in it: s.chars()
        invariant
            it.seq() == s@,
            n == if it.index() < 4 { it.index() } else { 4 },
            matched == (it.index() <= 3
                && (it.index() > 0 ==> s@[0] == 'x' || s@[0] == 'X')
                && (it.index() > 1 ==> s@[1] == 'm' || s@[1] == 'M')
                && (it.index() > 2 ==> s@[2] == 'l' || s@[2] == 'L')),
    {
        let fits = if n == 0 {
            c == 'x' || c == 'X'
        } else if n == 1 {
            c == 'm' || c == 'M'
        } else if n == 2 {
            c == 'l' || c == 'L'
        } else {
            false
        };
        if !fits {
            matched = false;
        }
        if n < 4 {
            n += 1;
        }
    }
    matched && n == 3
}

} // verus!
