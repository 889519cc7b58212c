//! The validator: decides whether a raw path string is safe, and names the
//! first rule it breaks.
//!
//! The rules run on the raw string, in order: emptiness, a `..` substring
//! anywhere, control characters, characters Windows forbids, and reserved
//! device names. Components for the reserved-name rule come from splitting
//! the raw string on `/` and on `\` — no prior normalization is assumed.

use vstd::prelude::*;

use crate::chars::{
    bad_control_char, chars_of, invalid_punct_char, is_bad_control_char, is_digit_1_9,
    is_invalid_punct_char, is_whitespace_char, digit_1_9, matches_upper_ci, upper_ci,
    whitespace_char,
};
use crate::error::{PathError, Violation, unit_result_view};
use crate::normalize::{lemma_split_on_len, split_on};

verus! {

/// Empty, or whitespace throughout: such a path carries no content.
pub open spec fn blank_spec(s: Seq<char>) -> bool {
    forall|i: int| 0 <= i < s.len() ==> is_whitespace_char(#[trigger] s[i])
}

/// Two consecutive dots anywhere in the string. This is deliberately a
/// substring test, not a segment test: a name such as `a..b` also counts,
/// the conservative reading of the traversal rule.
pub open spec fn has_dotdot(s: Seq<char>) -> bool {
    exists|i: int| 0 <= i && i + 1 < s.len() && #[trigger] s[i] == '.' && s[i + 1] == '.'
}

/// Some character is a control character other than newline or tab.
pub open spec fn has_bad_control(s: Seq<char>) -> bool {
    exists|i: int| 0 <= i < s.len() && is_bad_control_char(#[trigger] s[i])
}

/// Some character is one Windows forbids in file names.
pub open spec fn has_invalid_punct(s: Seq<char>) -> bool {
    exists|i: int| 0 <= i < s.len() && is_invalid_punct_char(#[trigger] s[i])
}

/// The index of the first `.` in a component, or its length if none.
pub open spec fn first_dot(seg: Seq<char>) -> int
    decreases seg.len(),
{
    if seg.len() == 0 {
        0
    } else if seg.first() == '.' {
        0
    } else {
        1 + first_dot(seg.drop_first())
    }
}

/// The part of a component before its first `.` — the base name whose
/// spelling decides the reserved-name rule.
pub open spec fn base_of(seg: Seq<char>) -> Seq<char> {
    seg.take(first_dot(seg))
}

/// A reserved Windows device name, compared case-insensitively: `CON`,
/// `PRN`, `AUX`, `NUL`, and `COM`/`LPT` followed by a digit 1 to 9.
pub open spec fn is_reserved_base(b: Seq<char>) -> bool {
    ||| (b.len() == 3 && {
        ||| (matches_upper_ci(b[0], 'C') && matches_upper_ci(b[1], 'O') && matches_upper_ci(
            b[2],
            'N',
        ))
        ||| (matches_upper_ci(b[0], 'P') && matches_upper_ci(b[1], 'R') && matches_upper_ci(
            b[2],
            'N',
        ))
        ||| (matches_upper_ci(b[0], 'A') && matches_upper_ci(b[1], 'U') && matches_upper_ci(
            b[2],
            'X',
        ))
        ||| (matches_upper_ci(b[0], 'N') && matches_upper_ci(b[1], 'U') && matches_upper_ci(
            b[2],
            'L',
        ))
    })
    ||| (b.len() == 4 && is_digit_1_9(b[3]) && {
        ||| (matches_upper_ci(b[0], 'C') && matches_upper_ci(b[1], 'O') && matches_upper_ci(
            b[2],
            'M',
        ))
        ||| (matches_upper_ci(b[0], 'L') && matches_upper_ci(b[1], 'P') && matches_upper_ci(
            b[2],
            'T',
        ))
    })
}

/// A component whose base name is reserved.
pub open spec fn is_reserved_component(seg: Seq<char>) -> bool {
    is_reserved_base(base_of(seg))
}

/// The first reserved component of a component list, if any.
pub open spec fn find_reserved(cs: Seq<Seq<char>>) -> Option<Seq<char>>
    decreases cs.len(),
{
    if cs.len() == 0 {
        None
    } else if is_reserved_component(cs.first()) {
        Some(cs.first())
    } else {
        find_reserved(cs.drop_first())
    }
}

/// The components the validator examines: the string split on `/`, then
/// the string split on `\`.
pub open spec fn validate_components(s: Seq<char>) -> Seq<Seq<char>> {
    split_on(s, '/') + split_on(s, '\\')
}

/// What validation returns: `Ok`, or the first violated rule with its
/// payload — the original string, and for a reserved name the offending
/// component.
pub open spec fn validate_spec(s: Seq<char>) -> Result<(), Violation> {
    if blank_spec(s) {
        Err(Violation::Empty)
    } else if has_dotdot(s) {
        Err(Violation::Traversal { path: s })
    } else if has_bad_control(s) {
        Err(Violation::InvalidCharacters { path: s })
    } else if has_invalid_punct(s) {
        Err(Violation::InvalidCharacters { path: s })
    } else {
        match find_reserved(validate_components(s)) {
            Some(seg) => Err(Violation::ReservedName { filename: seg, path: s }),
            None => Ok(()),
        }
    }
}

/// Safety is exactly the validator's acceptance.
pub open spec fn is_safe_spec(s: Seq<char>) -> bool {
    validate_spec(s) is Ok
}

pub(crate) proof fn lemma_first_dot(seg: Seq<char>)
    ensures
        0 <= first_dot(seg) <= seg.len(),
        forall|j: int| 0 <= j < first_dot(seg) ==> #[trigger] seg[j] != '.',
        first_dot(seg) < seg.len() ==> seg[first_dot(seg)] == '.',
    decreases seg.len(),
{
    if seg.len() > 0 && seg.first() != '.' {
        lemma_first_dot(seg.drop_first());
        let fd = first_dot(seg);
        assert forall|j: int| 0 <= j < fd implies #[trigger] seg[j] != '.' by {
            if j > 0 {
                assert(seg.drop_first()[j - 1] == seg[j]);
            }
        }
        if fd < seg.len() {
            assert(seg.drop_first()[fd - 1] == seg[fd]);
        }
    }
}

/// Unfolding `find_reserved` at a pushed component.
pub(crate) proof fn lemma_find_reserved_push(cs: Seq<Seq<char>>, x: Seq<char>)
    ensures
        find_reserved(cs.push(x)) == match find_reserved(cs) {
            Some(seg) => Some(seg),
            None => if is_reserved_component(x) {
                Some(x)
            } else {
                None
            },
        },
    decreases cs.len(),
{
    if cs.len() == 0 {
        assert(cs.push(x).first() == x);
        assert(cs.push(x).drop_first() =~= Seq::<Seq<char>>::empty());
    } else {
        assert(cs.push(x).first() == cs.first());
        assert(cs.push(x).drop_first() =~= cs.drop_first().push(x));
        lemma_find_reserved_push(cs.drop_first(), x);
    }
}

/// The first reserved component of a concatenation comes from the left
/// list if it has one, else from the right.
pub(crate) proof fn lemma_find_reserved_concat(a: Seq<Seq<char>>, b: Seq<Seq<char>>)
    ensures
        find_reserved(a + b) == match find_reserved(a) {
            Some(seg) => Some(seg),
            None => find_reserved(b),
        },
    decreases a.len(),
{
    if a.len() == 0 {
        assert(a + b =~= b);
    } else {
        assert((a + b).first() == a.first());
        assert((a + b).drop_first() =~= a.drop_first() + b);
        lemma_find_reserved_concat(a.drop_first(), b);
    }
}

pub(crate) fn all_whitespace(v: &Vec<char>) -> (r: bool)
    ensures
        r == blank_spec(v@),
{
    let mut i: usize = 0;
    while i < v.len()
        invariant
            i <= v@.len(),
            forall|j: int| 0 <= j < i ==> is_whitespace_char(#[trigger] v@[j]),
        decreases v@.len() - i,
    {
        if !whitespace_char(v[i]) {
            return false;
        }
        i = i + 1;
    }
    true
}

pub(crate) fn contains_dotdot(v: &Vec<char>) -> (r: bool)
    ensures
        r == has_dotdot(v@),
{
    if v.len() < 2 {
        return false;
    }
    let mut i: usize = 0;
    while i < v.len() - 1
        invariant
            v@.len() >= 2,
            i < v@.len(),
            forall|j: int| 0 <= j && j + 1 < v@.len() && j < i ==> !(#[trigger] v@[j] == '.' && v@[j + 1] == '.'),
        decreases v@.len() - i,
    {
        if v[i] == '.' && v[i + 1] == '.' {
            return true;
        }
        i = i + 1;
    }
    false
}

pub(crate) fn contains_bad_control(v: &Vec<char>) -> (r: bool)
    ensures
        r == has_bad_control(v@),
{
    let mut i: usize = 0;
    while i < v.len()
        invariant
            i <= v@.len(),
            forall|j: int| 0 <= j < i ==> !is_bad_control_char(#[trigger] v@[j]),
        decreases v@.len() - i,
    {
        if bad_control_char(v[i]) {
            return true;
        }
        i = i + 1;
    }
    false
}

pub(crate) fn contains_invalid_punct(v: &Vec<char>) -> (r: bool)
    ensures
        r == has_invalid_punct(v@),
{
    let mut i: usize = 0;
    while i < v.len()
        invariant
            i <= v@.len(),
            forall|j: int| 0 <= j < i ==> !is_invalid_punct_char(#[trigger] v@[j]),
        decreases v@.len() - i,
    {
        if invalid_punct_char(v[i]) {
            return true;
        }
        i = i + 1;
    }
    false
}

/// Whether the characters `a..b` of `v` form a reserved component.
pub(crate) fn is_reserved_segment(v: &Vec<char>, a: usize, b: usize) -> (r: bool)
    requires
        a <= b <= v@.len(),
    ensures
        r == is_reserved_component(v@.subrange(a as int, b as int)),
{
    let ghost seg = v@.subrange(a as int, b as int);
    proof {
        lemma_first_dot(seg);
    }
    let mut d = a;
    while d < b && v[d] != '.'
        invariant
            a <= d <= b <= v@.len(),
            forall|j: int| a <= j < d ==> #[trigger] v@[j] != '.',
        decreases b - d,
    {
        d = d + 1;
    }
    proof {
        assert(seg.len() == b - a);
        assert forall|j: int| 0 <= j < d - a implies #[trigger] seg[j] != '.' by {
            assert(seg[j] == v@[a + j]);
            assert(v@[a + j] != '.');
        }
        if d < b {
            assert(seg[d - a] == v@[d as int]);
        }
        if first_dot(seg) < d - a {
            assert(seg[first_dot(seg)] == '.');
            assert(false);
        }
        if first_dot(seg) > d - a {
            assert(d < b);
            assert(seg[d - a] == '.');
            assert(false);
        }
        assert(first_dot(seg) == d - a);
        assert(base_of(seg).len() == d - a);
        assert(forall|j: int| 0 <= j < d - a ==> #[trigger] base_of(seg)[j] == v@[a + j]);
    }
    let n = d - a;
    if n == 3 {
        (upper_ci(v[a], 'C') && upper_ci(v[a + 1], 'O') && upper_ci(v[a + 2], 'N')) || (upper_ci(
            v[a],
            'P',
        ) && upper_ci(v[a + 1], 'R') && upper_ci(v[a + 2], 'N')) || (upper_ci(v[a], 'A')
            && upper_ci(v[a + 1], 'U') && upper_ci(v[a + 2], 'X')) || (upper_ci(v[a], 'N')
            && upper_ci(v[a + 1], 'U') && upper_ci(v[a + 2], 'L'))
    } else if n == 4 {
        digit_1_9(v[a + 3]) && ((upper_ci(v[a], 'C') && upper_ci(v[a + 1], 'O') && upper_ci(
            v[a + 2],
            'M',
        )) || (upper_ci(v[a], 'L') && upper_ci(v[a + 1], 'P') && upper_ci(v[a + 2], 'T')))
    } else {
        false
    }
}

/// The bounds of the first component of `v`, split on `sep`, whose base
/// name is reserved.
pub(crate) fn first_reserved_segment(v: &Vec<char>, sep: char) -> (r: Option<(usize, usize)>)
    ensures
        match r {
            Some(bounds) => bounds.0 <= bounds.1 <= v@.len() && find_reserved(
                split_on(v@, sep),
            ) == Some(v@.subrange(bounds.0 as int, bounds.1 as int)),
            None => find_reserved(split_on(v@, sep)) is None,
        },
{
    let ghost s = v@;
    let mut i: usize = 0;
    let mut seg_start: usize = 0;
    let mut found: Option<(usize, usize)> = None;
    proof {
        assert(s.take(0) =~= Seq::<char>::empty());
        assert(s.subrange(0, 0) =~= Seq::<char>::empty());
        assert(seq![Seq::<char>::empty()].drop_last() =~= Seq::<Seq<char>>::empty());
    }
    while i < v.len()
        invariant
            seg_start <= i <= v@.len(),
            v@ == s,
            split_on(s.take(i as int), sep).last() == s.subrange(seg_start as int, i as int),
            match found {
                Some(bounds) => bounds.0 <= bounds.1 <= i && find_reserved(
                    split_on(s.take(i as int), sep).drop_last(),
                ) == Some(s.subrange(bounds.0 as int, bounds.1 as int)),
                None => find_reserved(split_on(s.take(i as int), sep).drop_last()) is None,
            },
        decreases v@.len() - i,
    {
        let c = v[i];
        let ghost st = split_on(s.take(i as int), sep);
        proof {
            assert(s.take(i + 1 as int) =~= s.take(i as int).push(c));
            assert(s.take(i + 1 as int).drop_last() =~= s.take(i as int));
            assert(s.take(i + 1 as int).last() == c);
            lemma_split_on_len(s.take(i as int), sep);
        }
        if c == sep {
            let is_res = is_reserved_segment(v, seg_start, i);
            proof {
                let st2 = split_on(s.take(i + 1 as int), sep);
                assert(st2 == st.push(Seq::<char>::empty()));
                assert(st2.drop_last() =~= st);
                assert(st =~= st.drop_last().push(st.last()));
                lemma_find_reserved_push(st.drop_last(), st.last());
            }
            if found.is_none() && is_res {
                found = Some((seg_start, i));
            }
            seg_start = i + 1;
            proof {
                assert(s.subrange(i + 1 as int, i + 1 as int) =~= Seq::<char>::empty());
            }
        } else {
            proof {
                let st2 = split_on(s.take(i + 1 as int), sep);
                assert(st2 == st.update(st.len() - 1, st.last().push(c)));
                assert(st2.drop_last() =~= st.drop_last());
                assert(st2.last() == st.last().push(c));
                assert(s.subrange(seg_start as int, i as int).push(c) =~= s.subrange(
                    seg_start as int,
                    i + 1 as int,
                ));
            }
        }
        i = i + 1;
    }
    proof {
        assert(s.take(s.len() as int) =~= s);
        let st = split_on(s, sep);
        lemma_split_on_len(s, sep);
        assert(st =~= st.drop_last().push(st.last()));
        lemma_find_reserved_push(st.drop_last(), st.last());
    }
    let is_res = is_reserved_segment(v, seg_start, v.len());
    if found.is_none() && is_res {
        found = Some((seg_start, v.len()));
    }
    found
}

/// Validate a path and report the first violated rule.
///
/// The result is `Ok` exactly when [`is_safe_path`] accepts the path; an
/// `Err` names the rule and carries the original string.
pub fn validate_path(path: &str) -> (r: Result<(), PathError>)
    ensures
        unit_result_view(r) == validate_spec(path@),
{
    let v = chars_of(path);
    if all_whitespace(&v) {
        return Err(PathError::EmptyPath);
    }
    if contains_dotdot(&v) {
        return Err(PathError::PathTraversal { path: path.to_owned() });
    }
    if contains_bad_control(&v) {
        return Err(PathError::InvalidCharacters { path: path.to_owned() });
    }
    if contains_invalid_punct(&v) {
        return Err(PathError::InvalidCharacters { path: path.to_owned() });
    }
    proof {
        lemma_find_reserved_concat(split_on(path@, '/'), split_on(path@, '\\'));
    }
    match first_reserved_segment(&v, '/') {
        Some((a, b)) => {
            let seg = path.substring_char(a, b);
            Err(
                PathError::ReservedFilename {
                    filename: seg.to_owned(),
                    path: path.to_owned(),
                },
            )
        },
        None => {
            match first_reserved_segment(&v, '\\') {
                Some((a, b)) => {
                    let seg = path.substring_char(a, b);
                    Err(
                        PathError::ReservedFilename {
                            filename: seg.to_owned(),
                            path: path.to_owned(),
                        },
                    )
                },
                None => Ok(()),
            }
        },
    }
}

/// Whether a path passes every safety rule.
///
/// Accepts exactly the paths on which [`validate_path`] returns `Ok` — the
/// two share one rule set and differ only in return shape.
pub fn is_safe_path(path: &str) -> (r: bool)
    ensures
        r == is_safe_spec(path@),
{
    validate_path(path).is_ok()
}

} // verus!
