//! The normalizer: backslashes become forward slashes, and empty segments
//! (doubled, leading and trailing separators) are dropped.
//!
//! The specification mirrors the definition directly: replace separators,
//! split on `/`, keep the nonempty segments, join them with a single `/`.
//! The lemmas here develop the algebra of that pipeline — one step per
//! appended character — which the executable loop and the public laws
//! (idempotence, well-formedness, associativity of joining) are proved from.

use vstd::prelude::*;

use crate::chars::is_sep_char;

verus! {

/// A single character after separator replacement.
pub open spec fn repl_char(c: char) -> char {
    if c == '\\' {
        '/'
    } else {
        c
    }
}

/// The string with every backslash replaced by a forward slash.
pub open spec fn replace_seps(s: Seq<char>) -> Seq<char> {
    Seq::new(s.len(), |i: int| repl_char(s[i]))
}

/// The segments of `s` split on the character `sep`. Splitting the empty
/// string gives one empty segment, as `str::split` does.
pub open spec fn split_on(s: Seq<char>, sep: char) -> Seq<Seq<char>>
    decreases s.len(),
{
    if s.len() == 0 {
        seq![Seq::<char>::empty()]
    } else {
        let init = split_on(s.drop_last(), sep);
        if s.last() == sep {
            init.push(Seq::<char>::empty())
        } else {
            init.update(init.len() - 1, init.last().push(s.last()))
        }
    }
}

/// The subsequence of nonempty segments, in order.
pub open spec fn nonempty_segs(segs: Seq<Seq<char>>) -> Seq<Seq<char>>
    decreases segs.len(),
{
    if segs.len() == 0 {
        Seq::empty()
    } else {
        let init = nonempty_segs(segs.drop_last());
        if segs.last().len() > 0 {
            init.push(segs.last())
        } else {
            init
        }
    }
}

/// The segments joined with a single `/` between neighbours.
pub open spec fn join_segs(segs: Seq<Seq<char>>) -> Seq<char>
    decreases segs.len(),
{
    if segs.len() == 0 {
        Seq::empty()
    } else if segs.len() == 1 {
        segs[0]
    } else {
        join_segs(segs.drop_last()) + seq!['/'] + segs.last()
    }
}

/// The nonempty `/`-segments of `t`, joined back with single slashes.
pub open spec fn collapse(t: Seq<char>) -> Seq<char> {
    join_segs(nonempty_segs(split_on(t, '/')))
}

/// What normalization returns: both separator forms unified to `/`, and
/// every empty segment dropped.
pub open spec fn normalize_spec(s: Seq<char>) -> Seq<char> {
    collapse(replace_seps(s))
}

/// Two path fragments joined by a single separator, unless one is empty.
pub open spec fn combine(u: Seq<char>, v: Seq<char>) -> Seq<char> {
    if u.len() == 0 {
        v
    } else if v.len() == 0 {
        u
    } else {
        u + seq!['/'] + v
    }
}

/// A string in the normalizer's image: forward slashes only, no doubled
/// separator, and no separator at either end.
pub open spec fn is_normalized(t: Seq<char>) -> bool {
    &&& forall|i: int| 0 <= i < t.len() ==> #[trigger] t[i] != '\\'
    &&& forall|i: int| 0 <= i && i + 1 < t.len() ==> !(#[trigger] t[i] == '/' && t[i + 1] == '/')
    &&& t.len() > 0 ==> t[0] != '/' && t.last() != '/'
}

pub(crate) proof fn lemma_split_on_len(s: Seq<char>, sep: char)
    ensures
        split_on(s, sep).len() >= 1,
    decreases s.len(),
{
    if s.len() > 0 {
        lemma_split_on_len(s.drop_last(), sep);
    }
}

/// The last segment is empty exactly when the string is empty or ends with
/// the separator.
pub(crate) proof fn lemma_split_on_last(s: Seq<char>, sep: char)
    ensures
        (split_on(s, sep).last().len() == 0) <==> (s.len() == 0 || s.last() == sep),
{
    if s.len() > 0 {
        lemma_split_on_len(s.drop_last(), sep);
    }
}

/// Every segment that `nonempty_segs` keeps is nonempty.
pub(crate) proof fn lemma_nonempty_segs_all(segs: Seq<Seq<char>>)
    ensures
        forall|k: int|
            0 <= k < nonempty_segs(segs).len() ==> #[trigger] nonempty_segs(segs)[k].len() > 0,
    decreases segs.len(),
{
    if segs.len() > 0 {
        lemma_nonempty_segs_all(segs.drop_last());
        let init = nonempty_segs(segs.drop_last());
        assert forall|k: int|
            0 <= k < nonempty_segs(segs).len() implies #[trigger] nonempty_segs(segs)[k].len()
            > 0 by {
            if segs.last().len() > 0 && k == init.len() {
                assert(nonempty_segs(segs)[k] == segs.last());
            } else {
                assert(nonempty_segs(segs)[k] == init[k]);
            }
        }
    }
}

/// Joining nonempty segments gives an empty string only for no segments.
pub(crate) proof fn lemma_join_segs_empty(segs: Seq<Seq<char>>)
    requires
        forall|k: int| 0 <= k < segs.len() ==> #[trigger] segs[k].len() > 0,
    ensures
        (join_segs(segs).len() == 0) <==> (segs.len() == 0),
{
    if segs.len() == 1 {
        assert(segs[0].len() > 0);
    }
}

/// Unfolding `join_segs` at a pushed segment.
pub(crate) proof fn lemma_join_segs_push(segs: Seq<Seq<char>>, x: Seq<char>)
    ensures
        join_segs(segs.push(x)) == if segs.len() == 0 {
            x
        } else {
            join_segs(segs) + seq!['/'] + x
        },
{
    let p = segs.push(x);
    assert(p.drop_last() =~= segs);
    if segs.len() == 0 {
        assert(p[0] == x);
    }
}

/// How one appended character changes the collapsed string: a separator
/// changes nothing; any other character extends the last segment, opening a
/// new one first when the string ended in a separator.
pub(crate) proof fn lemma_collapse_push(t: Seq<char>, c: char)
    ensures
        c == '/' ==> collapse(t.push(c)) == collapse(t),
        (c != '/' && t.len() > 0 && t.last() == '/' && collapse(t).len() > 0) ==> collapse(
            t.push(c),
        ) == collapse(t) + seq!['/', c],
        (c != '/' && (t.len() == 0 || t.last() != '/' || collapse(t).len() == 0)) ==> collapse(
            t.push(c),
        ) == collapse(t).push(c),
{
    let s = t.push(c);
    assert(s.drop_last() =~= t);
    lemma_split_on_len(t, '/');
    lemma_split_on_last(t, '/');
    let st = split_on(t, '/');
    if c == '/' {
        let pushed = st.push(Seq::<char>::empty());
        assert(split_on(s, '/') == pushed);
        assert(pushed.drop_last() =~= st);
        assert(nonempty_segs(pushed) == nonempty_segs(st));
    } else {
        let u = st.update(st.len() - 1, st.last().push(c));
        assert(split_on(s, '/') == u);
        assert(u.last() == st.last().push(c));
        assert(u.drop_last() =~= st.drop_last());
        assert(st =~= st.drop_last().push(st.last()));
        let f0 = nonempty_segs(st.drop_last());
        lemma_nonempty_segs_all(st.drop_last());
        assert(nonempty_segs(u) == f0.push(st.last().push(c)));
        if st.last().len() == 0 {
            // `t` is empty or ends in a separator: the appended character
            // opens a fresh segment.
            assert(nonempty_segs(st) == f0);
            assert(st.last().push(c) =~= seq![c]);
            lemma_join_segs_push(f0, seq![c]);
            lemma_join_segs_empty(f0);
            if f0.len() == 0 {
                assert(collapse(t).len() == 0);
                assert(collapse(s) == seq![c]);
                assert(collapse(t).push(c) =~= seq![c]);
            } else {
                assert(collapse(t).len() > 0);
                assert(t.len() > 0 && t.last() == '/');
                assert(collapse(s) == join_segs(f0) + seq!['/'] + seq![c]);
                assert(join_segs(f0) + seq!['/'] + seq![c] =~= collapse(t) + seq!['/', c]);
            }
        } else {
            // `t` ends in an ordinary character: it is extended in place.
            let last = st.last();
            assert(nonempty_segs(st) == f0.push(last));
            lemma_join_segs_push(f0, last);
            lemma_join_segs_push(f0, last.push(c));
            if f0.len() == 0 {
                assert(collapse(t) == last);
                assert(collapse(s) == last.push(c));
            } else {
                assert(collapse(s) == join_segs(f0) + seq!['/'] + last.push(c));
                assert(join_segs(f0) + seq!['/'] + last.push(c) =~= (join_segs(f0) + seq!['/']
                    + last).push(c));
            }
        }
    }
}

/// Collapsing the empty string gives the empty string.
pub(crate) proof fn lemma_collapse_empty()
    ensures
        collapse(Seq::<char>::empty()) == Seq::<char>::empty(),
{
    let e = Seq::<char>::empty();
    let single = seq![Seq::<char>::empty()];
    assert(split_on(e, '/') == single);
    assert(single.drop_last() =~= Seq::<Seq<char>>::empty());
    assert(nonempty_segs(Seq::<Seq<char>>::empty()) == Seq::<Seq<char>>::empty());
    assert(single.last() == Seq::<char>::empty());
    assert(nonempty_segs(single) == Seq::<Seq<char>>::empty());
    assert(join_segs(Seq::<Seq<char>>::empty()) == Seq::<char>::empty());
}

/// A string that ends in an ordinary character collapses to one that ends
/// in the same character.
pub(crate) proof fn lemma_collapse_last(t: Seq<char>)
    requires
        t.len() > 0,
        t.last() != '/',
    ensures
        collapse(t).len() > 0,
        collapse(t).last() == t.last(),
{
    let t0 = t.drop_last();
    let c = t.last();
    assert(t =~= t0.push(c));
    lemma_collapse_push(t0, c);
}

/// Replacement distributes over an appended character.
pub(crate) proof fn lemma_replace_push(s: Seq<char>, c: char)
    ensures
        replace_seps(s.push(c)) == replace_seps(s).push(repl_char(c)),
{
    assert(replace_seps(s.push(c)) =~= replace_seps(s).push(repl_char(c)));
}

/// Replacement leaves a backslash-free string unchanged.
pub(crate) proof fn lemma_replace_id(s: Seq<char>)
    requires
        forall|i: int| 0 <= i < s.len() ==> #[trigger] s[i] != '\\',
    ensures
        replace_seps(s) == s,
{
    assert(replace_seps(s) =~= s);
}

/// The collapsed string never doubles a separator, never starts or ends
/// with one, and introduces no character of its own besides `/`.
pub(crate) proof fn lemma_collapse_well_formed(t: Seq<char>)
    ensures
        forall|i: int|
            0 <= i && i + 1 < collapse(t).len() ==> !(#[trigger] collapse(t)[i] == '/' && collapse(t)[i
                + 1] == '/'),
        collapse(t).len() > 0 ==> collapse(t)[0] != '/' && collapse(t).last() != '/',
        (forall|j: int| 0 <= j < t.len() ==> #[trigger] t[j] != '\\') ==> (forall|i: int|
            0 <= i < collapse(t).len() ==> #[trigger] collapse(t)[i] != '\\'),
    decreases t.len(),
{
    if t.len() == 0 {
        lemma_collapse_empty();
    } else {
        let t0 = t.drop_last();
        let c = t.last();
        lemma_collapse_well_formed(t0);
        assert(t =~= t0.push(c));
        lemma_collapse_push(t0, c);
        let r0 = collapse(t0);
        let r = collapse(t);
        assert(forall|j: int| 0 <= j < t0.len() ==> #[trigger] t0[j] == t[j]);
        if c == '/' {
            assert(r == r0);
        } else if t0.len() > 0 && t0.last() == '/' && r0.len() > 0 {
            assert(r == r0 + seq!['/', c]);
            assert(r.len() == r0.len() + 2);
            assert forall|i: int|
                0 <= i && i + 1 < r.len() implies !(#[trigger] r[i] == '/' && r[i + 1] == '/') by {
                if i + 1 < r0.len() {
                    assert(r[i] == r0[i] && r[i + 1] == r0[i + 1]);
                } else if i + 1 == r0.len() {
                    assert(r[i] == r0[i] && r0.last() != '/');
                } else if i == r0.len() {
                    assert(r[i + 1] == c);
                }
            }
            assert(r[0] == r0[0]);
            assert(r.last() == c);
        } else {
            assert(r == r0.push(c));
            assert forall|i: int|
                0 <= i && i + 1 < r.len() implies !(#[trigger] r[i] == '/' && r[i + 1] == '/') by {
                if i + 1 < r0.len() {
                    assert(r[i] == r0[i] && r[i + 1] == r0[i + 1]);
                } else {
                    assert(r[i + 1] == c);
                }
            }
        }
    }
}

/// Normalization yields a normalized string: this is the well-formedness
/// law — no backslash survives, no separator is doubled, and the result is
/// relative with no trailing separator.
pub proof fn lemma_normalize_well_formed(s: Seq<char>)
    ensures
        is_normalized(normalize_spec(s)),
{
    let t = replace_seps(s);
    assert(forall|j: int| 0 <= j < t.len() ==> #[trigger] t[j] != '\\');
    lemma_collapse_well_formed(t);
}

/// A string with no doubled separator and no leading one collapses to
/// itself, except that one trailing separator is dropped.
pub(crate) proof fn lemma_collapse_fixed(u: Seq<char>)
    requires
        forall|i: int| 0 <= i && i + 1 < u.len() ==> !(#[trigger] u[i] == '/' && u[i + 1] == '/'),
        u.len() > 0 ==> u[0] != '/',
    ensures
        (u.len() == 0 || u.last() != '/') ==> collapse(u) == u,
        (u.len() > 0 && u.last() == '/') ==> collapse(u) == u.drop_last() && collapse(u).len() > 0,
    decreases u.len(),
{
    if u.len() == 0 {
        lemma_collapse_empty();
    } else {
        let u0 = u.drop_last();
        let c = u.last();
        assert(forall|j: int| 0 <= j < u0.len() ==> #[trigger] u0[j] == u[j]);
        lemma_collapse_fixed(u0);
        assert(u =~= u0.push(c));
        lemma_collapse_push(u0, c);
        if c == '/' {
            assert(u0.len() > 0);
            assert(u0.last() != '/');
        } else {
            if u0.len() > 0 && u0.last() == '/' {
                assert(u0.len() >= 2);
                assert(collapse(u0) == u0.drop_last());
                assert(collapse(u) == u0.drop_last() + seq!['/', c]);
                assert(u0.drop_last() + seq!['/', c] =~= u);
            } else {
                assert(collapse(u0) == u0);
                if u0.len() == 0 {
                    assert(collapse(u).len() == 1);
                    assert(collapse(u) =~= u);
                }
            }
        }
    }
}

/// Idempotence: normalizing a second time changes nothing.
pub proof fn lemma_normalize_idempotent(s: Seq<char>)
    ensures
        normalize_spec(normalize_spec(s)) == normalize_spec(s),
{
    lemma_normalize_well_formed(s);
    let n = normalize_spec(s);
    lemma_replace_id(n);
    lemma_collapse_fixed(n);
}

/// Collapsing around a separator seam works segment-wise.
pub(crate) proof fn lemma_collapse_concat(x: Seq<char>, y: Seq<char>)
    ensures
        collapse(x + seq!['/'] + y) == combine(collapse(x), collapse(y)),
    decreases y.len(),
{
    if y.len() == 0 {
        assert(x + seq!['/'] + y =~= x.push('/'));
        lemma_collapse_push(x, '/');
        lemma_collapse_empty();
        assert(collapse(y) == Seq::<char>::empty());
    } else {
        let y0 = y.drop_last();
        let c = y.last();
        lemma_collapse_concat(x, y0);
        let p = x + seq!['/'] + y0;
        assert(x + seq!['/'] + y =~= p.push(c));
        assert(y =~= y0.push(c));
        lemma_collapse_push(p, c);
        lemma_collapse_push(y0, c);
        let cx = collapse(x);
        let cy0 = collapse(y0);
        assert(collapse(p) == combine(cx, cy0));
        if c == '/' {
            // Both sides drop the trailing separator.
        } else if y0.len() == 0 {
            lemma_collapse_empty();
            assert(p.last() == '/');
            assert(cy0.len() == 0);
            assert(collapse(y) == cy0.push(c));
            assert(cy0.push(c) =~= seq![c]);
            if cx.len() > 0 {
                assert(collapse(p).len() > 0);
                assert(collapse(p.push(c)) == cx + seq!['/', c]);
                assert(cx + seq!['/', c] =~= cx + seq!['/'] + seq![c]);
            }
        } else if y0.last() == '/' {
            assert(p.last() == '/');
            if cy0.len() == 0 {
                assert(collapse(y) == cy0.push(c));
                assert(cy0.push(c) =~= seq![c]);
                if cx.len() > 0 {
                    assert(collapse(p.push(c)) == cx + seq!['/', c]);
                    assert(cx + seq!['/', c] =~= cx + seq!['/'] + seq![c]);
                }
            } else {
                assert(collapse(y) == cy0 + seq!['/', c]);
                if cx.len() > 0 {
                    assert(collapse(p).len() > 0);
                    assert(collapse(p.push(c)) == (cx + seq!['/'] + cy0) + seq!['/', c]);
                    assert((cx + seq!['/'] + cy0) + seq!['/', c] =~= cx + seq!['/'] + (cy0 + seq![
                        '/',
                        c,
                    ]));
                }
            }
        } else {
            lemma_collapse_last(y0);
            assert(cy0.len() > 0);
            assert(p.last() == y0.last());
            assert(collapse(y) == cy0.push(c));
            assert(collapse(p).len() > 0);
            assert(collapse(p.push(c)) == combine(cx, cy0).push(c));
            if cx.len() > 0 {
                assert((cx + seq!['/'] + cy0).push(c) =~= cx + seq!['/'] + cy0.push(c));
            }
        }
    }
}

/// Normalizing around a separator seam works side-by-side.
pub(crate) proof fn lemma_normalize_concat(x: Seq<char>, y: Seq<char>)
    ensures
        normalize_spec(x + seq!['/'] + y) == combine(normalize_spec(x), normalize_spec(y)),
{
    assert(replace_seps(x + seq!['/'] + y) =~= replace_seps(x) + seq!['/'] + replace_seps(y));
    lemma_collapse_concat(replace_seps(x), replace_seps(y));
}

pub(crate) proof fn lemma_combine_assoc(a: Seq<char>, b: Seq<char>, c: Seq<char>)
    ensures
        combine(a, combine(b, c)) == combine(combine(a, b), c),
{
    if a.len() > 0 && b.len() > 0 && c.len() > 0 {
        assert(a + seq!['/'] + (b + seq!['/'] + c) =~= (a + seq!['/'] + b) + seq!['/'] + c);
    }
}

/// Associativity: joining three fragments gives the same path whichever
/// pair is joined first.
pub proof fn lemma_join_and_normalize_associative(a: Seq<char>, b: Seq<char>, c: Seq<char>)
    ensures
        join_norm_spec(a, join_norm_spec(b, c)) == join_norm_spec(join_norm_spec(a, b), c),
{
    let jbc = join_norm_spec(b, c);
    let jab = join_norm_spec(a, b);
    lemma_normalize_idempotent(b + seq!['/'] + c);
    lemma_normalize_idempotent(a + seq!['/'] + b);
    lemma_normalize_concat(b, c);
    lemma_normalize_concat(a, b);
    lemma_normalize_concat(a, jbc);
    lemma_normalize_concat(jab, c);
    lemma_combine_assoc(normalize_spec(a), normalize_spec(b), normalize_spec(c));
}

/// The normalizer's loop: one pass over the characters, emitting a single
/// `/` between runs of ordinary characters.
pub(crate) fn normalize_chars(v: &Vec<char>) -> (out: Vec<char>)
    ensures
        out@ == normalize_spec(v@),
{
    let mut out: Vec<char> = Vec::new();
    let mut pending: bool = false;
    let mut i: usize = 0;
    proof {
        assert(v@.take(0) =~= Seq::<char>::empty());
        lemma_replace_id(Seq::<char>::empty());
        lemma_collapse_empty();
    }
    while i < v.len()
        invariant
            i <= v@.len(),
            out@ == normalize_spec(v@.take(i as int)),
            pending == (normalize_spec(v@.take(i as int)).len() > 0 && i > 0 && is_sep_char(
                v@[i - 1],
            )),
        decreases v@.len() - i,
    {
        let c = v[i];
        let ghost p = v@.take(i as int);
        let ghost t = replace_seps(p);
        proof {
            assert(v@.take(i + 1 as int) =~= p.push(c));
            lemma_replace_push(p, c);
            lemma_collapse_push(t, repl_char(c));
            if i > 0 {
                assert(t.last() == repl_char(p.last()));
            }
        }
        if c == '/' || c == '\\' {
            if out.len() > 0 {
                pending = true;
            }
        } else {
            if pending {
                out.push('/');
                proof {
                    assert(collapse(t) + seq!['/', c] =~= normalize_spec(p).push('/').push(c));
                }
            }
            out.push(c);
            pending = false;
        }
        i = i + 1;
    }
    proof {
        assert(v@.take(v@.len() as int) =~= v@);
    }
    out
}

/// Normalize a path string for cross-platform consistency: backslashes
/// become forward slashes, and empty segments — doubled, leading and
/// trailing separators — are dropped.
///
/// This is a total function: any string is accepted, and the empty string
/// comes back empty. `.` and `..` segments pass through unchanged; judging
/// them is the validator's concern, not the normalizer's.
pub fn normalize_path_str(path: &str) -> (r: String)
    ensures
        r@ == normalize_spec(path@),
{
    let v = crate::chars::chars_of(path);
    let n = normalize_chars(&v);
    crate::chars::string_from_chars(&n)
}

/// Normalize a path into a fresh owned value: the same transform as
/// [`normalize_path_str`], named for callers that go on to build a path
/// buffer from the result.
pub fn normalize_path_buf(path: &str) -> (r: String)
    ensures
        r@ == normalize_spec(path@),
{
    normalize_path_str(path)
}

/// What joining means: the two sides around a single separator, normalized
/// as one string. Extra separators at the seam collapse with the rest.
pub open spec fn join_norm_spec(base: Seq<char>, path: Seq<char>) -> Seq<char> {
    normalize_spec(base + seq!['/'] + path)
}

/// Join two path fragments and normalize the result, so that the seam never
/// doubles a separator and an absolute-looking right side cannot escape.
pub fn join_and_normalize(base: &str, path: &str) -> (r: String)
    ensures
        r@ == join_norm_spec(base@, path@),
{
    let mut v = crate::chars::chars_of(base);
    v.push('/');
    let w = crate::chars::chars_of(path);
    let mut i: usize = 0;
    while i < w.len()
        invariant
            i <= w@.len(),
            w@ == path@,
            v@ == base@ + seq!['/'] + path@.take(i as int),
        decreases w@.len() - i,
    {
        v.push(w[i]);
        proof {
            assert(path@.take(i + 1 as int) =~= path@.take(i as int).push(path@[i as int]));
            assert(base@ + seq!['/'] + path@.take(i + 1 as int) =~= (base@ + seq!['/']
                + path@.take(i as int)).push(path@[i as int]));
        }
        i = i + 1;
    }
    proof {
        assert(path@.take(path@.len() as int) =~= path@);
    }
    let n = normalize_chars(&v);
    crate::chars::string_from_chars(&n)
}

} // verus!
