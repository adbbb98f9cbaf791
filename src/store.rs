//! The package store and the relocation of its paths under a target root.
//!
//! Whether a path lies in the store is decided by its segments, as `Path`
//! reads them: separators that repeat and `.` segments count for nothing, so
//! `/nix//store/a` and `/nix/./store/a` lie in the store, `/nix/storex/a` does not.
use crate::error::BundleError;
use crate::paths::{below_dir, join, join_path, trim_leading_slashes, under_dir};
use vstd::prelude::*;
use vstd::string::*;

verus! {

/// `p` is absolute: it starts at the root directory.
pub open spec fn is_absolute(p: Seq<char>) -> bool {
    p.len() > 0 && p[0] == '/'
}

/// Drops what comes before the first segment that counts: separators, and
/// `.` segments.
pub open spec fn skip_noise(s: Seq<char>) -> Seq<char>
    decreases s.len(),
{
    if s.len() > 0 && (s[0] == '/' || (s[0] == '.' && (s.len() == 1 || s[1] == '/'))) {
        skip_noise(s.drop_first())
    } else {
        s
    }
}

/// The index of the first `/` in `s`, or its length when there is none.
pub open spec fn first_slash(s: Seq<char>) -> int
    decreases s.len(),
{
    if s.len() == 0 || s[0] == '/' {
        0
    } else {
        1 + first_slash(s.drop_first())
    }
}

/// The first segment of `s`.
pub open spec fn first_seg(s: Seq<char>) -> Seq<char> {
    s.subrange(0, first_slash(s))
}

/// What follows the first segment of `s`.
pub open spec fn after_seg(s: Seq<char>) -> Seq<char> {
    s.subrange(first_slash(s), s.len() as int)
}

/// The part of `p` below the store, when `p` lies in it: `p` is absolute and
/// its first two segments that count are `nix` and `store`.
pub open spec fn store_tail(p: Seq<char>) -> Option<Seq<char>> {
    if !is_absolute(p) {
        None
    } else {
        let a = skip_noise(p);
        if first_seg(a) != "nix"@ {
            None
        } else {
            let b = skip_noise(after_seg(a));
            if first_seg(b) != "store"@ {
                None
            } else {
                Some(skip_noise(after_seg(b)))
            }
        }
    }
}

/// `p` names the store or something in it.
pub open spec fn is_store_path(p: Seq<char>) -> bool {
    store_tail(p) is Some
}

/// Where the store path `p` lands under `root`: the part of `p` below the
/// store, joined to `root`.
pub open spec fn relocate(p: Seq<char>, root: Seq<char>) -> Seq<char> {
    join(root, store_tail(p)->0)
}

/// `p` has a segment `..`.
pub open spec fn has_parent_segment(p: Seq<char>) -> bool {
    exists|i: int|
        0 <= i && i + 2 <= p.len() && #[trigger] p[i] == '.' && p[i + 1] == '.' && (i == 0
            || p[i - 1] == '/') && (i + 2 == p.len() || p[i + 2] == '/')
}

/// The relative path from the directory `base` to `path`, as pathdiff computes it.
pub uninterp spec fn diff_paths_of(path: Seq<char>, base: Seq<char>) -> Option<Seq<char>>;

/// Relies on pathdiff::diff_paths: the relative path from `base` to `path`.
/// Its source returns `path` itself when only `path` is absolute, nothing when
/// only `base` is, and otherwise walks the segments of both: it gives up on a
/// `..` segment of `base`, and what it builds from two absolute paths holds
/// `..` and segments of `path` only, so it is relative.
#[verifier::external_body]
fn relative_path(path: &str, base: &str) -> (r: Option<String>)
    ensures
        r matches Some(s) ==> diff_paths_of(path@, base@) == Some(s@),
        r is None ==> diff_paths_of(path@, base@) is None,
        is_absolute(path@) && !is_absolute(base@) ==> r is Some,
        is_absolute(path@) && !is_absolute(base@) ==> (r matches Some(s) ==> s@ == path@),
        !is_absolute(path@) && is_absolute(base@) ==> r is None,
        is_absolute(path@) && is_absolute(base@) && !has_parent_segment(base@) ==> r is Some,
        is_absolute(path@) && is_absolute(base@) ==> (r matches Some(s) ==> !is_absolute(s@)),
{
    match pathdiff::diff_paths(path, base) {
        Some(p) => Some(p.to_string_lossy().into_owned()),
        None => None,
    }
}

/// The relative path from the directory `base` to `path`.
pub fn diff_paths(path: &str, base: &str) -> (r: Result<String, BundleError>)
    ensures
        r matches Ok(s) ==> diff_paths_of(path@, base@) == Some(s@),
        r matches Err(e) ==> e == BundleError::NoRelativePath && diff_paths_of(path@, base@) is None,
        is_absolute(path@) && !is_absolute(base@) ==> (r matches Ok(s) && s@ == path@),
        !is_absolute(path@) && is_absolute(base@) ==> r is Err,
        is_absolute(path@) && is_absolute(base@) && !has_parent_segment(base@) ==> r is Ok,
        is_absolute(path@) && is_absolute(base@) ==> (r matches Ok(s) ==> !is_absolute(s@)),
{
    match relative_path(path, base) {
        Some(s) => Ok(s),
        None => Err(BundleError::NoRelativePath),
    }
}

/// What `skip_noise` leaves does not start with a separator.
pub proof fn lemma_skip_noise_head(s: Seq<char>)
    ensures
        skip_noise(s).len() > 0 ==> skip_noise(s)[0] != '/',
    decreases s.len(),
{
    if s.len() > 0 && (s[0] == '/' || (s[0] == '.' && (s.len() == 1 || s[1] == '/'))) {
        lemma_skip_noise_head(s.drop_first());
    }
}

/// A store path relocated under an absolute root is absolute.
pub proof fn lemma_relocate_absolute(p: Seq<char>, root: Seq<char>)
    requires
        is_store_path(p),
        is_absolute(root),
    ensures
        is_absolute(relocate(p, root)),
{
    let b = skip_noise(after_seg(skip_noise(p)));
    let rel = store_tail(p)->0;
    lemma_skip_noise_head(after_seg(b));
    if rel.len() > 0 && rel[0] == '/' {
    } else if root.last() == '/' {
        assert((root + rel)[0] == root[0]);
    } else {
        assert((root + seq!['/'] + rel)[0] == root[0]);
    }
}

/// The first separator of `s` lies within it.
proof fn lemma_first_slash_bounds(s: Seq<char>)
    ensures
        0 <= first_slash(s) <= s.len(),
    decreases s.len(),
{
    if !(s.len() == 0 || s[0] == '/') {
        lemma_first_slash_bounds(s.drop_first());
    }
}

/// Text appended after a separator does not move the first one.
proof fn lemma_first_slash_append(x: Seq<char>, y: Seq<char>)
    requires
        first_slash(x) < x.len(),
    ensures
        first_slash(x + y) == first_slash(x),
    decreases x.len(),
{
    lemma_first_slash_bounds(x);
    if x[0] != '/' {
        assert((x + y).drop_first() =~= x.drop_first() + y);
        lemma_first_slash_append(x.drop_first(), y);
    }
}

/// Once something that counts is left of `x`, text appended to it is kept.
proof fn lemma_skip_noise_append(x: Seq<char>, y: Seq<char>)
    requires
        skip_noise(x).len() > 0,
    ensures
        skip_noise(x + y) == skip_noise(x) + y,
    decreases x.len(),
{
    if x.len() > 0 && (x[0] == '/' || (x[0] == '.' && (x.len() == 1 || x[1] == '/'))) {
        if x.len() == 1 && x[0] == '.' {
            assert(x.drop_first().len() == 0);
        }
        assert((x + y).drop_first() =~= x.drop_first() + y);
        assert((x + y)[0] == x[0]);
        if x.len() > 1 {
            assert((x + y)[1] == x[1]);
        }
        lemma_skip_noise_append(x.drop_first(), y);
    } else {
        assert((x + y)[0] == x[0]);
        if x.len() > 1 {
            assert((x + y)[1] == x[1]);
        }
    }
}

/// What `skip_noise` leaves is a suffix.
proof fn lemma_skip_noise_suffix(x: Seq<char>)
    ensures
        skip_noise(x).len() <= x.len(),
        skip_noise(x) == x.subrange(x.len() - skip_noise(x).len(), x.len() as int),
    decreases x.len(),
{
    if x.len() > 0 && (x[0] == '/' || (x[0] == '.' && (x.len() == 1 || x[1] == '/'))) {
        lemma_skip_noise_suffix(x.drop_first());
        assert(x.drop_first().subrange(
            x.drop_first().len() - skip_noise(x).len(),
            x.drop_first().len() as int,
        ) =~= x.subrange(x.len() - skip_noise(x).len(), x.len() as int));
    } else {
        assert(x.subrange(0, x.len() as int) =~= x);
    }
}

/// The last character of a nonempty suffix is that of the whole.
proof fn lemma_suffix_last(x: Seq<char>, k: int)
    requires
        0 <= k < x.len(),
    ensures
        x.subrange(k, x.len() as int).last() == x.last(),
{
}

/// Relocation is a function of the path and the root alone, and it agrees
/// with the copy of a whole tree: an entry `t/s` below the store path `t`,
/// walked as part of `t`'s relocated copy, lands at its own relocation, at
/// whatever depth of links and dependencies that copy was reached.
pub proof fn lemma_relocate_walk(t: Seq<char>, s: Seq<char>, root: Seq<char>)
    requires
        is_store_path(t),
        store_tail(t)->0.len() > 0,
        t.last() != '/',
        s.len() > 0,
        s[0] != '/',
    ensures
        under_dir(t + seq!['/'] + s, t),
        is_store_path(t + seq!['/'] + s),
        join(relocate(t, root), below_dir(t + seq!['/'] + s, t)) == relocate(
            t + seq!['/'] + s,
            root,
        ),
{
    let y = seq!['/'] + s;
    let e = t + seq!['/'] + s;
    assert(e =~= t + y);
    // the walk's side
    assert(e.subrange(0, t.len() as int) =~= t);
    let tail = e.subrange(t.len() as int, e.len() as int);
    assert(tail =~= y);
    assert(tail.drop_first() =~= s);
    assert(trim_leading_slashes(s) == s);
    assert(trim_leading_slashes(tail) == trim_leading_slashes(s));
    assert(below_dir(e, t) == s);
    // the store side, one segment at a time
    let a = skip_noise(t);
    let aa = after_seg(a);
    let b = skip_noise(aa);
    let bb = after_seg(b);
    let rt = skip_noise(bb);
    lemma_first_slash_bounds(a);
    lemma_first_slash_bounds(b);
    lemma_skip_noise_suffix(t);
    lemma_skip_noise_suffix(aa);
    lemma_skip_noise_suffix(bb);
    reveal_strlit("nix");
    reveal_strlit("store");
    assert(first_seg(b).len() == 5);
    assert(first_seg(a).len() == 3);
    assert(first_slash(a) < a.len());
    assert(first_slash(b) < b.len());
    lemma_skip_noise_append(t, y);
    assert(skip_noise(e) == a + y);
    lemma_first_slash_append(a, y);
    assert(first_seg(a + y) =~= first_seg(a));
    assert(after_seg(a + y) =~= aa + y);
    lemma_skip_noise_append(aa, y);
    lemma_first_slash_append(b, y);
    assert(first_seg(b + y) =~= first_seg(b));
    assert(after_seg(b + y) =~= bb + y);
    lemma_skip_noise_append(bb, y);
    assert(e[0] == t[0]);
    assert(store_tail(e) == Some(rt + y));
    // the last character of the tail is that of `t`
    lemma_suffix_last(t, t.len() - a.len());
    lemma_suffix_last(a, first_slash(a));
    lemma_suffix_last(aa, aa.len() - b.len());
    lemma_suffix_last(b, first_slash(b));
    lemma_suffix_last(bb, bb.len() - rt.len());
    assert(rt.last() == t.last());
    lemma_skip_noise_head(bb);
    let r1 = relocate(t, root);
    if root.len() == 0 || root.last() == '/' {
        assert(r1 == root + rt);
        assert(r1.last() == rt.last());
        assert((rt + y)[0] == rt[0]);
        assert(join(r1, s) =~= root + (rt + y));
    } else {
        assert(r1 == root + seq!['/'] + rt);
        assert(r1.last() == rt.last());
        assert((rt + y)[0] == rt[0]);
        assert(join(r1, s) =~= root + seq!['/'] + (rt + y));
    }
}

/// The index at which `skip_noise` leaves `s@.subrange(i, ..)`.
fn skip_noise_from(s: &str, i: usize) -> (j: usize)
    requires
        i <= s@.len(),
    ensures
        i <= j <= s@.len(),
        skip_noise(s@.subrange(i as int, s@.len() as int)) == s@.subrange(j as int, s@.len() as int),
{
    let n = s.unicode_len();
    let mut j = i;
    while j < n && (s.get_char(j) == '/' || (s.get_char(j) == '.' && (j + 1 == n || s.get_char(j + 1) == '/')))
        invariant
            n == s@.len(),
            i <= j <= n,
            skip_noise(s@.subrange(i as int, n as int)) == skip_noise(s@.subrange(j as int, n as int)),
        decreases n - j,
    {
        assert(s@.subrange(j as int, n as int).drop_first() =~= s@.subrange(j + 1, n as int));
        j = j + 1;
    }
    j
}

/// The end of the segment that starts at `i`.
fn segment_end(s: &str, i: usize) -> (j: usize)
    requires
        i <= s@.len(),
    ensures
        i <= j <= s@.len(),
        first_slash(s@.subrange(i as int, s@.len() as int)) == j - i,
{
    let n = s.unicode_len();
    let mut j = i;
    while j < n && s.get_char(j) != '/'
        invariant
            n == s@.len(),
            i <= j <= n,
            first_slash(s@.subrange(i as int, n as int)) == (j - i) + first_slash(
                s@.subrange(j as int, n as int),
            ),
        decreases n - j,
    {
        assert(s@.subrange(j as int, n as int).drop_first() =~= s@.subrange(j + 1, n as int));
        j = j + 1;
    }
    j
}

/// Tests whether the characters of `s` from `i` to `j` spell `word`.
fn segment_is(s: &str, i: usize, j: usize, word: &str) -> (r: bool)
    requires
        i <= j <= s@.len(),
    ensures
        r == (s@.subrange(i as int, j as int) == word@),
{
    let m = word.unicode_len();
    if j - i != m {
        return false;
    }
    let mut k: usize = 0;
    while k < m
        invariant
            m == word@.len(),
            j - i == m,
            i <= j <= s@.len(),
            k <= m,
            forall|x: int| 0 <= x < k ==> s@[i + x] == word@[x],
        decreases m - k,
    {
        if s.get_char(i + k) != word.get_char(k) {
            assert(s@.subrange(i as int, j as int)[k as int] != word@[k as int]);
            return false;
        }
        k = k + 1;
    }
    assert(s@.subrange(i as int, j as int) =~= word@);
    true
}

/// Where the part of `p` below the store starts, if `p` lies in the store.
fn store_tail_start(p: &str) -> (r: Option<usize>)
    ensures
        r matches Some(c) ==> c <= p@.len() && store_tail(p@) == Some(
            p@.subrange(c as int, p@.len() as int),
        ),
        r is None ==> store_tail(p@) is None,
{
    let n = p.unicode_len();
    if n == 0 || p.get_char(0) != '/' {
        return None;
    }
    assert(p@.subrange(0, n as int) =~= p@);
    let a = skip_noise_from(p, 0);
    let ae = segment_end(p, a);
    let ghost sa = p@.subrange(a as int, n as int);
    assert(first_seg(sa) =~= p@.subrange(a as int, ae as int));
    assert(after_seg(sa) =~= p@.subrange(ae as int, n as int));
    if !segment_is(p, a, ae, "nix") {
        return None;
    }
    let b = skip_noise_from(p, ae);
    let be = segment_end(p, b);
    let ghost sb = p@.subrange(b as int, n as int);
    assert(first_seg(sb) =~= p@.subrange(b as int, be as int));
    assert(after_seg(sb) =~= p@.subrange(be as int, n as int));
    if !segment_is(p, b, be, "store") {
        return None;
    }
    Some(skip_noise_from(p, be))
}

/// Tests whether `p` lies in the store.
pub fn in_store(p: &str) -> (r: bool)
    ensures
        r == is_store_path(p@),
{
    store_tail_start(p).is_some()
}

/// Where the store path `src_path` lands under `target_store`; an error when
/// `src_path` does not lie in the store.
pub fn dependency_path(src_path: &str, target_store: &str) -> (r: Result<String, BundleError>)
    ensures
        r is Ok <==> is_store_path(src_path@),
        r matches Ok(s) ==> s@ == relocate(src_path@, target_store@),
        r matches Err(e) ==> e == BundleError::NotInStore,
{
    match store_tail_start(src_path) {
        Some(c) => {
            let n = src_path.unicode_len();
            Ok(join_path(target_store, src_path.substring_char(c, n)))
        },
        None => Err(BundleError::NotInStore),
    }
}

} // verus!
