//! Cross-cutting security laws, proved over the specifications of the
//! validator, the sanitizer and the normalizer: a reserved device name, a
//! NUL byte, or a `..` anywhere is rejected on every path through the
//! library.

use vstd::prelude::*;

use crate::chars::{is_bad_control_char, is_sep_char, is_whitespace_char};
use crate::normalize::{
    collapse, lemma_collapse_fixed, lemma_collapse_last, lemma_collapse_push, lemma_replace_id,
    normalize_spec, replace_seps, repl_char, split_on,
};
use crate::sanitize::sanitize_spec;
use crate::validate::{
    base_of, blank_spec, find_reserved, first_dot, has_dotdot, is_reserved_base,
    is_reserved_component, is_safe_spec, lemma_first_dot, validate_components, validate_spec,
};

verus! {

/// A character survives collapsing: every non-separator character of the
/// input occurs in the collapsed string.
proof fn lemma_collapse_keeps_char(t: Seq<char>, c: char)
    requires
        c != '/',
        t.contains(c),
    ensures
        collapse(t).contains(c),
    decreases t.len(),
{
    let i = choose|i: int| 0 <= i < t.len() && t[i] == c;
    let t0 = t.drop_last();
    let last = t.last();
    assert(t =~= t0.push(last));
    lemma_collapse_push(t0, last);
    if i == t.len() - 1 {
        // The witness is the last character, so the collapsed string ends
        // with it.
        assert(last == c);
        if t0.len() > 0 && t0.last() == '/' && collapse(t0).len() > 0 {
            assert(collapse(t) == collapse(t0) + seq!['/', c]);
            assert(collapse(t).last() == c);
        } else {
            assert(collapse(t) == collapse(t0).push(c));
            assert(collapse(t).last() == c);
        }
        assert(collapse(t)[collapse(t).len() - 1] == c);
    } else {
        assert(t0[i] == c);
        assert(t0.contains(c));
        lemma_collapse_keeps_char(t0, c);
        let j = choose|j: int| 0 <= j < collapse(t0).len() && collapse(t0)[j] == c;
        if last == '/' {
            assert(collapse(t) == collapse(t0));
        } else if t0.len() > 0 && t0.last() == '/' && collapse(t0).len() > 0 {
            assert(collapse(t) == collapse(t0) + seq!['/', last]);
            assert(collapse(t)[j] == c);
        } else {
            assert(collapse(t) == collapse(t0).push(last));
            assert(collapse(t)[j] == c);
        }
    }
}

/// Two adjacent dots survive collapsing: they sit in one segment, and
/// segments pass through whole.
proof fn lemma_collapse_keeps_dotdot(t: Seq<char>)
    requires
        has_dotdot(t),
    ensures
        has_dotdot(collapse(t)),
    decreases t.len(),
{
    let i = choose|i: int| 0 <= i && i + 1 < t.len() && #[trigger] t[i] == '.' && t[i + 1] == '.';
    let t0 = t.drop_last();
    let last = t.last();
    assert(t =~= t0.push(last));
    lemma_collapse_push(t0, last);
    if i + 1 == t.len() - 1 {
        // The pair ends the string: `t0` ends with a dot, so its collapsed
        // form does too, and the appended dot lands right after it.
        assert(last == '.');
        assert(t0.last() == t[i]);
        lemma_collapse_last(t0);
        assert(collapse(t) == collapse(t0).push('.'));
        let r = collapse(t);
        let n = collapse(t0).len() as int;
        assert(r[n - 1] == '.' && r[n] == '.');
    } else {
        assert(t0[i] == '.' && t0[i + 1] == '.');
        lemma_collapse_keeps_dotdot(t0);
        let j = choose|j: int|
            0 <= j && j + 1 < collapse(t0).len() && #[trigger] collapse(t0)[j] == '.' && collapse(
                t0,
            )[j + 1] == '.';
        if last == '/' {
            assert(collapse(t) == collapse(t0));
        } else if t0.len() > 0 && t0.last() == '/' && collapse(t0).len() > 0 {
            assert(collapse(t) == collapse(t0) + seq!['/', last]);
            assert(collapse(t)[j] == '.' && collapse(t)[j + 1] == '.');
        } else {
            assert(collapse(t) == collapse(t0).push(last));
            assert(collapse(t)[j] == '.' && collapse(t)[j + 1] == '.');
        }
    }
}

/// A string with no occurrence of the separator splits into itself alone.
proof fn lemma_split_on_sepfree(s: Seq<char>, sep: char)
    requires
        forall|i: int| 0 <= i < s.len() ==> #[trigger] s[i] != sep,
    ensures
        split_on(s, sep) == seq![s],
    decreases s.len(),
{
    if s.len() == 0 {
        assert(s =~= Seq::<char>::empty());
    } else {
        let t0 = s.drop_last();
        assert(forall|i: int| 0 <= i < t0.len() ==> #[trigger] t0[i] == s[i]);
        lemma_split_on_sepfree(t0, sep);
        assert(s.last() != sep);
        assert(seq![t0].update(0, t0.push(s.last())) =~= seq![t0.push(s.last())]);
        assert(t0.push(s.last()) =~= s);
    }
}

/// A separator-free string is its own normalized form.
proof fn lemma_normalize_sepfree(s: Seq<char>)
    requires
        forall|i: int| 0 <= i < s.len() ==> !is_sep_char(#[trigger] s[i]),
    ensures
        normalize_spec(s) == s,
{
    assert(forall|i: int| 0 <= i < s.len() ==> #[trigger] s[i] != '\\');
    lemma_replace_id(s);
    assert(forall|i: int|
        0 <= i && i + 1 < s.len() ==> !(#[trigger] s[i] == '/' && s[i + 1] == '/'));
    lemma_collapse_fixed(s);
}

/// A dot is not whitespace, so a string holding one is not blank.
proof fn lemma_dot_not_blank(s: Seq<char>, i: int)
    requires
        0 <= i < s.len(),
        s[i] == '.' || s[i] == '\0' || !is_whitespace_char(s[i]),
    ensures
        !blank_spec(s),
{
    assert(!is_whitespace_char(s[i]));
}

/// Any single path component whose base name is a reserved device name —
/// `CON`, `PRN`, `AUX`, `NUL`, `COM1` through `COM9`, `LPT1` through
/// `LPT9`, in any case, with or without an extension — is rejected by the
/// validator and by the sanitizer.
pub proof fn lemma_reserved_name_rejected(s: Seq<char>)
    requires
        forall|i: int| 0 <= i < s.len() ==> !is_sep_char(#[trigger] s[i]),
        is_reserved_base(base_of(s)),
    ensures
        !is_safe_spec(s),
        validate_spec(s) is Err,
        sanitize_spec(s) is Err,
{
    lemma_first_dot(s);
    let fd = first_dot(s);
    assert(base_of(s).len() == fd);
    assert(fd >= 3);
    assert(base_of(s)[0] == s[0]);
    // The first character is an ASCII letter in either case, so the
    // string is not blank.
    assert(!is_whitespace_char(s[0]));
    lemma_dot_not_blank(s, 0);
    // Both component lists start with the whole string, which is reserved.
    lemma_split_on_sepfree(s, '/');
    lemma_split_on_sepfree(s, '\\');
    assert(is_reserved_component(s));
    let chain = validate_components(s);
    assert(chain.first() == s);
    assert(find_reserved(chain) == Some(s));
    lemma_normalize_sepfree(s);
    let n = normalize_spec(s);
    assert(split_on(n, '/').first() == s);
    assert(find_reserved(split_on(n, '/')) == Some(s));
}

/// A string containing a NUL character, at any position, is rejected by
/// the validator and by the sanitizer.
pub proof fn lemma_nul_rejected(s: Seq<char>)
    requires
        s.contains('\0'),
    ensures
        !is_safe_spec(s),
        validate_spec(s) is Err,
        sanitize_spec(s) is Err,
{
    let i = choose|i: int| 0 <= i < s.len() && s[i] == '\0';
    lemma_dot_not_blank(s, i);
    assert(is_bad_control_char('\0'));
    // The validator sees the NUL directly; the sanitizer sees it survive
    // normalization.
    let t = replace_seps(s);
    assert(t[i] == repl_char(s[i]));
    assert(t.contains('\0'));
    lemma_collapse_keeps_char(t, '\0');
    assert(normalize_spec(s).contains('\0'));
    let n = normalize_spec(s);
    let j = choose|j: int| 0 <= j < n.len() && n[j] == '\0';
    assert(is_bad_control_char(n[j]));
}

/// A string containing two adjacent dots, at any position, is rejected by
/// the validator and by the sanitizer; in particular every string matching
/// `../`, `..\`, `/..` or `\..` is.
pub proof fn lemma_dotdot_rejected(s: Seq<char>)
    requires
        has_dotdot(s),
    ensures
        !is_safe_spec(s),
        validate_spec(s) is Err,
        sanitize_spec(s) is Err,
{
    let i = choose|i: int| 0 <= i && i + 1 < s.len() && #[trigger] s[i] == '.' && s[i + 1] == '.';
    lemma_dot_not_blank(s, i);
    let t = replace_seps(s);
    assert(t[i] == repl_char(s[i]) && t[i + 1] == repl_char(s[i + 1]));
    assert(has_dotdot(t));
    lemma_collapse_keeps_dotdot(t);
}

} // verus!
