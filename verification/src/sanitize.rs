//! The sanitizer and the guarded join.
//!
//! Sanitizing turns one untrusted path into a normalized, relative,
//! validated string, or reports the first violated rule. The guarded join
//! then combines an already-canonicalized trusted root, a trusted relative
//! target and an untrusted file path into one path that cannot leave the
//! root: the untrusted part is sanitized, the target is normalized and its
//! segments are walked so that no parent-directory marker survives.

use vstd::prelude::*;

use crate::chars::{chars_of, copy_range, string_from_chars};
use crate::error::{PathError, Violation, string_result_view};
use crate::normalize::{lemma_split_on_len, normalize_chars, normalize_spec, split_on};
use crate::validate::{
    all_whitespace, blank_spec, contains_bad_control, contains_dotdot, contains_invalid_punct,
    find_reserved, first_reserved_segment, has_bad_control, has_dotdot, has_invalid_punct,
};

verus! {

/// What sanitizing returns: the normalized, relative form of the path, or
/// the first violated rule. Order matters: emptiness and traversal are
/// judged before anything else, so `/../etc` is a traversal, never a
/// silently relative `../etc`.
pub open spec fn sanitize_spec(s: Seq<char>) -> Result<Seq<char>, Violation> {
    if blank_spec(s) {
        Err(Violation::Empty)
    } else {
        let n = normalize_spec(s);
        if has_dotdot(n) {
            Err(Violation::Traversal { path: s })
        } else if n.len() >= 2 && n[1] == ':' {
            Err(Violation::DriveLetter { path: s })
        } else if has_bad_control(n) {
            Err(Violation::InvalidCharacters { path: s })
        } else if has_invalid_punct(n) {
            Err(Violation::InvalidCharacters { path: s })
        } else {
            match find_reserved(split_on(n, '/')) {
                Some(seg) => Err(Violation::ReservedName { filename: seg, path: s }),
                None => Ok(n),
            }
        }
    }
}

/// Sanitize a file path taken from untrusted directory content.
///
/// The path is normalized — which already strips any leading separators,
/// so an absolute-looking path comes back relative — and then rejected if
/// it is blank, contains `..`, begins with a drive letter, or holds a
/// control character, a forbidden character, or a reserved device name.
/// The error carries the original, untransformed string.
pub fn sanitize_directory_file_path(path: &str) -> (r: Result<String, PathError>)
    ensures
        string_result_view(r) == sanitize_spec(path@),
{
    let v = chars_of(path);
    if all_whitespace(&v) {
        return Err(PathError::EmptyPath);
    }
    let n = normalize_chars(&v);
    if contains_dotdot(&n) {
        return Err(PathError::PathTraversal { path: path.to_owned() });
    }
    if n.len() >= 2 && n[1] == ':' {
        return Err(PathError::DriveLetterPath { path: path.to_owned() });
    }
    if contains_bad_control(&n) {
        return Err(PathError::InvalidCharacters { path: path.to_owned() });
    }
    if contains_invalid_punct(&n) {
        return Err(PathError::InvalidCharacters { path: path.to_owned() });
    }
    match first_reserved_segment(&n, '/') {
        Some((a, b)) => {
            let seg = copy_range(&n, a, b);
            Err(
                PathError::ReservedFilename {
                    filename: string_from_chars(&seg),
                    path: path.to_owned(),
                },
            )
        },
        None => Ok(string_from_chars(&n)),
    }
}

/// The invariant of a sanitized path: whatever sanitizing accepts is the
/// input's normalized form — so relative, with single forward slashes —
/// and free of `..`, drive-letter prefixes, control characters, forbidden
/// characters and reserved device names.
pub proof fn lemma_sanitized_path_invariant(s: Seq<char>)
    requires
        sanitize_spec(s) is Ok,
    ensures
        sanitize_spec(s) == Ok::<Seq<char>, Violation>(crate::normalize::normalize_spec(s)),
        crate::normalize::is_normalized(sanitize_spec(s)->Ok_0),
        !has_dotdot(sanitize_spec(s)->Ok_0),
        !has_bad_control(sanitize_spec(s)->Ok_0),
        !has_invalid_punct(sanitize_spec(s)->Ok_0),
        find_reserved(split_on(sanitize_spec(s)->Ok_0, '/')) is None,
        !(sanitize_spec(s)->Ok_0.len() >= 2 && sanitize_spec(s)->Ok_0[1] == ':'),
{
    crate::normalize::lemma_normalize_well_formed(s);
}

/// A base path extended by a relative part, with a single separator in
/// between when the base needs one — the string image of pushing a
/// relative path onto a `PathBuf`.
pub open spec fn push_path(base: Seq<char>, rel: Seq<char>) -> Seq<char> {
    if base.len() > 0 && base.last() != '/' {
        base + seq!['/'] + rel
    } else {
        base + rel
    }
}

/// Whether some `/`-segment of the list is exactly `..` — a
/// parent-directory marker.
pub open spec fn has_parent_in(cs: Seq<Seq<char>>) -> bool
    decreases cs.len(),
{
    if cs.len() == 0 {
        false
    } else if cs.first() == seq!['.', '.'] {
        true
    } else {
        has_parent_in(cs.drop_first())
    }
}

/// Whether some `/`-segment of the string is exactly `..`.
pub open spec fn has_parent_segment(t: Seq<char>) -> bool {
    has_parent_in(split_on(t, '/'))
}

/// What the guarded join returns: the root, the normalized target and the
/// sanitized file path, concatenated — or the violation that stops it. No
/// parent-directory segment may appear between the root and the result.
pub open spec fn join_spec(root: Seq<char>, target: Seq<char>, raw: Seq<char>) -> Result<
    Seq<char>,
    Violation,
> {
    match sanitize_spec(raw) {
        Err(v) => Err(v),
        Ok(san) => {
            let tn = normalize_spec(target);
            if has_parent_segment(tn) {
                Err(Violation::Traversal { path: ".. components not allowed"@ })
            } else {
                Ok(push_path(push_path(root, tn), san))
            }
        },
    }
}

pub(crate) proof fn lemma_has_parent_push(cs: Seq<Seq<char>>, x: Seq<char>)
    ensures
        has_parent_in(cs.push(x)) == (has_parent_in(cs) || x == seq!['.', '.']),
    decreases cs.len(),
{
    if cs.len() == 0 {
        assert(cs.push(x).first() == x);
        assert(cs.push(x).drop_first() =~= Seq::<Seq<char>>::empty());
        assert(has_parent_in(Seq::<Seq<char>>::empty()) == false);
        assert(has_parent_in(cs) == false);
    } else {
        assert(cs.push(x).first() == cs.first());
        assert(cs.push(x).drop_first() =~= cs.drop_first().push(x));
        lemma_has_parent_push(cs.drop_first(), x);
    }
}

/// Whether the characters `a..b` of `v` are exactly `..`.
pub(crate) fn is_dotdot_segment(v: &Vec<char>, a: usize, b: usize) -> (r: bool)
    requires
        a <= b <= v@.len(),
    ensures
        r == (v@.subrange(a as int, b as int) == seq!['.', '.']),
{
    let ghost seg = v@.subrange(a as int, b as int);
    if b - a == 2 {
        let r = v[a] == '.' && v[a + 1] == '.';
        proof {
            assert(seg[0] == v@[a as int]);
            assert(seg[1] == v@[a + 1 as int]);
            if r {
                assert(seg =~= seq!['.', '.']);
            } else {
                assert(seq!['.', '.'][0] == '.' && seq!['.', '.'][1] == '.');
            }
        }
        r
    } else {
        proof {
            assert(seg.len() == b - a);
        }
        false
    }
}

/// Whether some `/`-segment of `v` is exactly `..`.
pub(crate) fn contains_parent_segment(v: &Vec<char>) -> (r: bool)
    ensures
        r == has_parent_segment(v@),
{
    let ghost s = v@;
    let mut i: usize = 0;
    let mut seg_start: usize = 0;
    let mut found: bool = false;
    proof {
        assert(s.take(0) =~= Seq::<char>::empty());
        assert(s.subrange(0, 0) =~= Seq::<char>::empty());
        assert(seq![Seq::<char>::empty()].drop_last() =~= Seq::<Seq<char>>::empty());
    }
    while i < v.len()
        invariant
            seg_start <= i <= v@.len(),
            v@ == s,
            split_on(s.take(i as int), '/').last() == s.subrange(seg_start as int, i as int),
            found == has_parent_in(split_on(s.take(i as int), '/').drop_last()),
        decreases v@.len() - i,
    {
        let c = v[i];
        let ghost st = split_on(s.take(i as int), '/');
        proof {
            assert(s.take(i + 1 as int) =~= s.take(i as int).push(c));
            assert(s.take(i + 1 as int).drop_last() =~= s.take(i as int));
            assert(s.take(i + 1 as int).last() == c);
            lemma_split_on_len(s.take(i as int), '/');
        }
        if c == '/' {
            let is_dd = is_dotdot_segment(v, seg_start, i);
            proof {
                let st2 = split_on(s.take(i + 1 as int), '/');
                assert(st2 == st.push(Seq::<char>::empty()));
                assert(st2.drop_last() =~= st);
                assert(st =~= st.drop_last().push(st.last()));
                lemma_has_parent_push(st.drop_last(), st.last());
            }
            if is_dd {
                found = true;
            }
            seg_start = i + 1;
            proof {
                assert(s.subrange(i + 1 as int, i + 1 as int) =~= Seq::<char>::empty());
            }
        } else {
            proof {
                let st2 = split_on(s.take(i + 1 as int), '/');
                assert(st2 == st.update(st.len() - 1, st.last().push(c)));
                assert(st2.drop_last() =~= st.drop_last());
                assert(st2.last() == st.last().push(c));
                assert(s.subrange(seg_start as int, i as int).push(c) =~= s.subrange(
                    seg_start as int,
                    i + 1 as int,
                ));
            }
        }
        i = i + 1;
    }
    proof {
        assert(s.take(s.len() as int) =~= s);
        let st = split_on(s, '/');
        lemma_split_on_len(s, '/');
        assert(st =~= st.drop_last().push(st.last()));
        lemma_has_parent_push(st.drop_last(), st.last());
    }
    let is_dd = is_dotdot_segment(v, seg_start, v.len());
    found || is_dd
}

/// Append a relative path to `out`, inserting a single separator when the
/// base needs one; the relative side is taken as it stands.
pub(crate) fn push_path_chars(out: &mut Vec<char>, rel: &Vec<char>)
    ensures
        final (out)@ == push_path(old(out)@, rel@),
{
    if out.len() > 0 {
        let last = out[out.len() - 1];
        if last != '/' {
            out.push('/');
        }
    }
    let ghost start = out@;
    proof {
        assert(rel@.take(0) =~= Seq::<char>::empty());
        assert(start + rel@.take(0) =~= start);
    }
    let mut i: usize = 0;
    while i < rel.len()
        invariant
            i <= rel@.len(),
            out@ == start + rel@.take(i as int),
        decreases rel@.len() - i,
    {
        out.push(rel[i]);
        proof {
            assert(rel@.take(i + 1 as int) =~= rel@.take(i as int).push(rel@[i as int]));
            assert(start + rel@.take(i + 1 as int) =~= (start + rel@.take(i as int)).push(
                rel@[i as int],
            ));
        }
        i = i + 1;
    }
    proof {
        assert(rel@.take(rel@.len() as int) =~= rel@);
        if old(out)@.len() > 0 && old(out)@.last() != '/' {
            assert(start =~= old(out)@ + seq!['/']);
        }
    }
}

/// Join a trusted, already-canonicalized repository root, a trusted
/// relative target directory and an untrusted file path into one path that
/// stays inside the root.
///
/// The file path is sanitized first and its violation reported as it
/// stands; the target is normalized, and rejected if any of its segments
/// is a parent-directory marker. On success the result is exactly the
/// root, the normalized target and the sanitized file path joined by
/// single separators — the root is always a prefix of the result.
///
/// Resolving the root against the filesystem (symlinks, existence) is the
/// caller's step; this function never touches the filesystem.
pub fn safe_repository_join(workdir: &str, target_path: &str, file_path: &str) -> (r: Result<
    String,
    PathError,
>)
    ensures
        string_result_view(r) == join_spec(workdir@, target_path@, file_path@),
        r matches Ok(p) ==> p@.len() >= workdir@.len() && p@.take(workdir@.len() as int)
            == workdir@,
{
    let sanitized = match sanitize_directory_file_path(file_path) {
        Ok(s) => s,
        Err(e) => { return Err(e) },
    };
    let tv = chars_of(target_path);
    let tn = normalize_chars(&tv);
    if contains_parent_segment(&tn) {
        return Err(PathError::PathTraversal { path: ".. components not allowed".to_owned() });
    }
    let mut out = chars_of(workdir);
    push_path_chars(&mut out, &tn);
    let sv = chars_of(sanitized.as_str());
    push_path_chars(&mut out, &sv);
    proof {
        let w = workdir@;
        let step1 = push_path(w, tn@);
        assert(step1.take(w.len() as int) =~= w);
        assert(push_path(step1, sv@).take(w.len() as int) =~= w);
    }
    Ok(string_from_chars(&out))
}

} // verus!
