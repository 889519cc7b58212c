//! Character classification used by the path rules, and conversions between
//! strings and character vectors.

use vstd::prelude::*;

verus! {

/// A path separator: the forward slash, or the backslash that Windows-style
/// paths use.
pub open spec fn is_sep_char(c: char) -> bool {
    c == '/' || c == '\\'
}

/// A whitespace character, as the `White_Space` property of Unicode defines
/// it; a path made only of these counts as empty.
pub open spec fn is_whitespace_char(c: char) -> bool {
    ||| (0x09 <= (c as u32) && (c as u32) <= 0x0D)
    ||| (c as u32) == 0x20
    ||| (c as u32) == 0x85
    ||| (c as u32) == 0xA0
    ||| (c as u32) == 0x1680
    ||| (0x2000 <= (c as u32) && (c as u32) <= 0x200A)
    ||| (c as u32) == 0x2028
    ||| (c as u32) == 0x2029
    ||| (c as u32) == 0x202F
    ||| (c as u32) == 0x205F
    ||| (c as u32) == 0x3000
}

/// A control character (the Unicode `Cc` category) other than newline and
/// tab; these are never allowed in a path, NUL included.
pub open spec fn is_bad_control_char(c: char) -> bool {
    &&& ((c as u32) < 0x20 || (0x7F <= (c as u32) && (c as u32) <= 0x9F))
    &&& c != '\n'
    &&& c != '\t'
}

/// A printable character that Windows forbids in file names.
pub open spec fn is_invalid_punct_char(c: char) -> bool {
    c == '<' || c == '>' || c == '|' || c == '?' || c == '*' || c == '"'
}

/// Case-insensitive match of `c` against an upper-case ASCII letter.
pub open spec fn matches_upper_ci(c: char, upper: char) -> bool {
    c == upper || (c as u32) == upper as u32 + 32
}

/// An ASCII digit from 1 to 9.
pub open spec fn is_digit_1_9(c: char) -> bool {
    0x31 <= (c as u32) && (c as u32) <= 0x39
}

pub(crate) fn whitespace_char(c: char) -> (r: bool)
    ensures
        r == is_whitespace_char(c),
{
    let x = (c as u32);
    (0x09 <= x && x <= 0x0D) || x == 0x20 || x == 0x85 || x == 0xA0 || x == 0x1680 || (0x2000 <= x
        && x <= 0x200A) || x == 0x2028 || x == 0x2029 || x == 0x202F || x == 0x205F || x == 0x3000
}

pub(crate) fn bad_control_char(c: char) -> (r: bool)
    ensures
        r == is_bad_control_char(c),
{
    let x = (c as u32);
    (x < 0x20 || (0x7F <= x && x <= 0x9F)) && c != '\n' && c != '\t'
}

pub(crate) fn invalid_punct_char(c: char) -> (r: bool)
    ensures
        r == is_invalid_punct_char(c),
{
    c == '<' || c == '>' || c == '|' || c == '?' || c == '*' || c == '"'
}

pub(crate) fn upper_ci(c: char, upper: char) -> (r: bool)
    ensures
        r == matches_upper_ci(c, upper),
{
    c == upper || (c as u32) == (upper as u32) + 32
}

pub(crate) fn digit_1_9(c: char) -> (r: bool)
    ensures
        r == is_digit_1_9(c),
{
    let x = (c as u32);
    0x31 <= x && x <= 0x39
}

/// The characters of a string, in order, as a vector.
pub(crate) fn chars_of(s: &str) -> (v: Vec<char>)
    ensures
        v@ == s@,
{
    let n = s.unicode_len();
    let mut v: Vec<char> = Vec::new();
    let mut i: usize = 0;
    while i < n
        invariant
            i <= n,
            n == s@.len(),
            v@ == s@.take(i as int),
        decreases n - i,
    {
        let c = s.get_char(i);
        v.push(c);
        proof {
            assert(s@.take(i + 1 as int) =~= s@.take(i as int).push(c));
        }
        i = i + 1;
    }
    proof {
        assert(s@.take(n as int) =~= s@);
    }
    v
}

/// A copy of the characters `a..b` of `v`.
pub(crate) fn copy_range(v: &Vec<char>, a: usize, b: usize) -> (r: Vec<char>)
    requires
        a <= b <= v@.len(),
    ensures
        r@ == v@.subrange(a as int, b as int),
{
    let mut r: Vec<char> = Vec::new();
    let mut i: usize = a;
    proof {
        assert(v@.subrange(a as int, a as int) =~= Seq::<char>::empty());
    }
    while i < b
        invariant
            a <= i <= b <= v@.len(),
            r@ == v@.subrange(a as int, i as int),
        decreases b - i,
    {
        r.push(v[i]);
        proof {
            assert(v@.subrange(a as int, i + 1 as int) =~= v@.subrange(a as int, i as int).push(
                v@[i as int],
            ));
        }
        i = i + 1;
    }
    r
}

/// Relies on `String`'s `FromIterator<char>` implementation, reached through
/// `Iterator::collect`: the collected string holds exactly the iterated
/// characters, in order.
#[verifier::external_body]
pub(crate) fn string_from_chars(v: &Vec<char>) -> (s: String)
    ensures
        s@ == v@,
{
    v.iter().collect()
}

} // verus!
