//! A textual model of filesystem paths: prefix tests by whole segments,
//! joining, and the parent directory.
use vstd::prelude::*;
use vstd::string::*;

verus! {

/// The texts of a sequence of strings.
pub open spec fn strings_view(v: Seq<String>) -> Seq<Seq<char>> {
    v.map_values(|s: String| s@)
}

/// Drops every leading `/`.
pub open spec fn trim_leading_slashes(s: Seq<char>) -> Seq<char>
    decreases s.len(),
{
    if s.len() > 0 && s[0] == '/' {
        trim_leading_slashes(s.drop_first())
    } else {
        s
    }
}

/// Drops every trailing `/`.
pub open spec fn trim_trailing_slashes(s: Seq<char>) -> Seq<char>
    decreases s.len(),
{
    if s.len() > 0 && s.last() == '/' {
        trim_trailing_slashes(s.drop_last())
    } else {
        s
    }
}

/// `p` lies at or below the directory `d`, comparing whole segments:
/// `/a/bc` lies below `/a` but not below `/a/b`.
pub open spec fn under_dir(p: Seq<char>, d: Seq<char>) -> bool {
    &&& d.len() <= p.len()
    &&& p.subrange(0, d.len() as int) == d
    &&& (p.len() == d.len() || p[d.len() as int] == '/' || (d.len() > 0 && d.last() == '/'))
}

/// What is left of `p` below the directory `d`, as a relative path.
pub open spec fn below_dir(p: Seq<char>, d: Seq<char>) -> Seq<char> {
    trim_leading_slashes(p.subrange(d.len() as int, p.len() as int))
}

/// `p` with the prefix `d` taken off, when `p` lies under `d`.
pub open spec fn strip_dir_spec(p: Seq<char>, d: Seq<char>) -> Option<Seq<char>> {
    if under_dir(p, d) {
        Some(below_dir(p, d))
    } else {
        None
    }
}

/// `rel` appended to `base` with one separator; an absolute `rel` replaces `base`.
pub open spec fn join(base: Seq<char>, rel: Seq<char>) -> Seq<char> {
    if rel.len() > 0 && rel[0] == '/' {
        rel
    } else if base.len() == 0 || base.last() == '/' {
        base + rel
    } else {
        base + seq!['/'] + rel
    }
}

/// The index of the last `/` in `s`, or -1 when there is none.
pub open spec fn last_slash(s: Seq<char>) -> int
    decreases s.len(),
{
    if s.len() == 0 {
        -1
    } else if s.last() == '/' {
        s.len() - 1
    } else {
        last_slash(s.drop_last())
    }
}

/// The directory that holds `p`: its last segment and the separators around
/// it taken off. A path made of one relative segment has the empty path as
/// parent; the root and the empty path have none.
pub open spec fn parent_of(p: Seq<char>) -> Option<Seq<char>> {
    let q = trim_trailing_slashes(p);
    if q.len() == 0 {
        None
    } else if last_slash(q) < 0 {
        Some(Seq::empty())
    } else {
        let r = trim_trailing_slashes(q.subrange(0, last_slash(q)));
        if r.len() == 0 {
            Some(seq!['/'])
        } else {
            Some(r)
        }
    }
}

/// Tests whether `p` lies at or below the directory `d`.
pub fn starts_with_dir(p: &str, d: &str) -> (r: bool)
    ensures
        r == under_dir(p@, d@),
{
    let n = p.unicode_len();
    let m = d.unicode_len();
    if m > n {
        return false;
    }
    let mut i: usize = 0;
    while i < m
        invariant
            m == d@.len(),
            n == p@.len(),
            m <= n,
            i <= m,
            forall|j: int| 0 <= j < i ==> p@[j] == d@[j],
        decreases m - i,
    {
        if p.get_char(i) != d.get_char(i) {
            assert(p@.subrange(0, m as int)[i as int] != d@[i as int]);
            return false;
        }
        i = i + 1;
    }
    assert(p@.subrange(0, m as int) =~= d@);
    m == n || p.get_char(m) == '/' || (m > 0 && d.get_char(m - 1) == '/')
}

/// The index of the first character at or after `i` that is not `/`.
fn skip_slashes(s: &str, start: usize) -> (r: usize)
    requires
        start <= s@.len(),
    ensures
        start <= r <= s@.len(),
        trim_leading_slashes(s@.subrange(start as int, s@.len() as int)) == s@.subrange(
            r as int,
            s@.len() as int,
        ),
{
    let n = s.unicode_len();
    let mut i = start;
    while i < n && s.get_char(i) == '/'
        invariant
            n == s@.len(),
            start <= i <= n,
            trim_leading_slashes(s@.subrange(start as int, n as int)) == trim_leading_slashes(
                s@.subrange(i as int, n as int),
            ),
        decreases n - i,
    {
        assert(s@.subrange(i as int, n as int).drop_first() =~= s@.subrange(i + 1, n as int));
        i = i + 1;
    }
    i
}

/// `p` with the directory `d` taken off, or `None` when `p` does not lie under `d`.
pub fn strip_dir(p: &str, d: &str) -> (r: Option<String>)
    ensures
        r matches Some(s) ==> strip_dir_spec(p@, d@) == Some(s@),
        r is None ==> strip_dir_spec(p@, d@) is None,
{
    if !starts_with_dir(p, d) {
        return None;
    }
    let start = d.unicode_len();
    let i = skip_slashes(p, start);
    let n = p.unicode_len();
    Some(String::from_str(p.substring_char(i, n)))
}

/// `rel` appended to `base`, as `join` states.
pub fn join_path(base: &str, rel: &str) -> (r: String)
    ensures
        r@ == join(base@, rel@),
{
    let rn = rel.unicode_len();
    if rn > 0 && rel.get_char(0) == '/' {
        return String::from_str(rel);
    }
    let bn = base.unicode_len();
    let mut r = String::from_str(base);
    if !(bn == 0 || base.get_char(bn - 1) == '/') {
        r.append("/");
        proof {
            reveal_strlit("/");
            assert(r@ =~= base@ + seq!['/']);
        }
    }
    r.append(rel);
    r
}

/// The end of `s.subrange(0, end)` once its trailing `/` are dropped.
fn trailing_end(s: &str, end: usize) -> (r: usize)
    requires
        end <= s@.len(),
    ensures
        r <= end,
        trim_trailing_slashes(s@.subrange(0, end as int)) == s@.subrange(0, r as int),
{
    let mut e = end;
    while e > 0 && s.get_char(e - 1) == '/'
        invariant
            e <= end <= s@.len(),
            trim_trailing_slashes(s@.subrange(0, end as int)) == trim_trailing_slashes(
                s@.subrange(0, e as int),
            ),
        decreases e,
    {
        assert(s@.subrange(0, e as int).drop_last() =~= s@.subrange(0, e - 1));
        e = e - 1;
    }
    e
}

/// The index of the last `/` before `end`, if any.
fn find_last_slash(s: &str, end: usize) -> (r: Option<usize>)
    requires
        end <= s@.len(),
    ensures
        r matches Some(k) ==> k < end && last_slash(s@.subrange(0, end as int)) == k,
        r is None ==> last_slash(s@.subrange(0, end as int)) == -1,
{
    let mut e = end;
    while e > 0
        invariant
            e <= end <= s@.len(),
            last_slash(s@.subrange(0, end as int)) == last_slash(s@.subrange(0, e as int)),
        decreases e,
    {
        if s.get_char(e - 1) == '/' {
            return Some(e - 1);
        }
        assert(s@.subrange(0, e as int).drop_last() =~= s@.subrange(0, e - 1));
        e = e - 1;
    }
    None
}

/// The directory that holds `p`, as `parent_of` states.
pub fn parent_dir(p: &str) -> (r: Option<String>)
    ensures
        r matches Some(s) ==> parent_of(p@) == Some(s@),
        r is None ==> parent_of(p@) is None,
{
    let n = p.unicode_len();
    assert(p@.subrange(0, n as int) =~= p@);
    let q = trailing_end(p, n);
    if q == 0 {
        return None;
    }
    let ghost qs = p@.subrange(0, q as int);
    match find_last_slash(p, q) {
        None => Some(String::new()),
        Some(k) => {
            assert(qs.subrange(0, k as int) =~= p@.subrange(0, k as int));
            let e = trailing_end(p, k);
            if e == 0 {
                let r = String::from_str("/");
                proof {
                    reveal_strlit("/");
                }
                assert(r@ =~= seq!['/']);
                Some(r)
            } else {
                Some(String::from_str(p.substring_char(0, e)))
            }
        },
    }
}

} // verus!
