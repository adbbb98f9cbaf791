//! Finding store paths in text.
use crate::paths::strings_view;
use grep::matcher::Matcher;
use vstd::prelude::*;
use vstd::string::*;

verus! {

#[verifier::external_type_specification]
#[verifier::external_body]
pub struct ExRegexError(grep::regex::Error);

/// The pattern of a store path: the store directory and a slash, then one or
/// more of `[a-zA-Z0-9/.\-_\\]`.
pub open spec fn store_path_pattern() -> Seq<char> {
    "/nix/store/[a-zA-Z0-9/.\\-_\\\\]+"@
}

/// The text that starts every store path.
pub open spec fn store_path_lead() -> Seq<char> {
    "/nix/store/"@
}

/// A character that the pattern's class admits.
pub open spec fn is_path_char(c: char) -> bool {
    ('a' <= c && c <= 'z') || ('A' <= c && c <= 'Z') || ('0' <= c && c <= '9') || c == '/' || c
        == '.' || c == '-' || c == '_' || c == '\\'
}

/// A match of the pattern starts at `i`.
pub open spec fn match_at(s: Seq<char>, i: int) -> bool {
    let n = store_path_lead().len();
    &&& 0 <= i
    &&& i + n < s.len()
    &&& s.subrange(i, i + n) == store_path_lead()
    &&& is_path_char(s[i + n])
}

/// The end of the run of path characters that starts at `j`.
pub open spec fn run_end(s: Seq<char>, j: int) -> int
    decreases s.len() - j,
{
    if 0 <= j < s.len() && is_path_char(s[j]) {
        run_end(s, j + 1)
    } else {
        j
    }
}

/// The leftmost match of the pattern in `s`, as long as the class lets it run.
#[verifier::opaque]
pub open spec fn first_store_path(s: Seq<char>) -> Option<Seq<char>> {
    if exists|i: int| match_at(s, i) {
        let i = choose|i: int| match_at(s, i) && forall|j: int| 0 <= j < i ==> !match_at(s, j);
        Some(s.subrange(i, run_end(s, i + store_path_lead().len())))
    } else {
        None
    }
}

/// Relies on grep_regex::RegexMatcher::new, which compiles `pattern` with the
/// regex crate's default leftmost-first semantics, and on Matcher::find, which
/// gives the leftmost match in `line`; for this pattern that is the first
/// place where the store directory and a path character stand, run on as far
/// as path characters go. The pattern holds ASCII only, so matching the
/// bytes of `line` matches its characters. This pattern is valid under the
/// default configuration, so compiling it succeeds.
#[verifier::external_body]
fn find_first(pattern: &str, line: &str) -> (r: Result<Option<String>, grep::regex::Error>)
    requires
        pattern@ == store_path_pattern(),
    ensures
        r is Ok,
        r matches Ok(m) ==> (m matches Some(p) ==> first_store_path(line@) == Some(p@)),
        r matches Ok(m) ==> (m is None ==> first_store_path(line@) is None),
{
    let matcher = grep::regex::RegexMatcher::new(pattern)?;
    match matcher.find(line.as_bytes()) {
        Ok(Some(m)) => Ok(Some(line[m].to_string())),
        _ => Ok(None),
    }
}

/// The store paths that `lines` hold, the first of each line, in order.
pub open spec fn store_paths_in_spec(lines: Seq<Seq<char>>) -> Seq<Seq<char>>
    decreases lines.len(),
{
    if lines.len() == 0 {
        Seq::empty()
    } else {
        let rest = store_paths_in_spec(lines.drop_last());
        match first_store_path(lines.last()) {
            Some(p) => rest.push(p),
            None => rest,
        }
    }
}

/// The pattern of a store path, for the search that selects lines.
pub fn store_path_regex() -> (r: String)
    ensures
        r@ == store_path_pattern(),
{
    String::from_str("/nix/store/[a-zA-Z0-9/.\\-_\\\\]+")
}

/// Collects the first store path of each of `lines`.
pub fn store_paths_in(lines: &Vec<String>) -> (r: Vec<String>)
    ensures
        strings_view(r@) == store_paths_in_spec(strings_view(lines@)),
{
    let pattern = store_path_regex();
    let mut out: Vec<String> = Vec::new();
    let mut i: usize = 0;
    while i < lines.len()
        invariant
            i <= lines@.len(),
            pattern@ == store_path_pattern(),
            strings_view(out@) == store_paths_in_spec(strings_view(lines@.subrange(0, i as int))),
        decreases lines@.len() - i,
    {
        let ghost before = out@;
        proof {
            let sub = strings_view(lines@.subrange(0, i + 1));
            assert(sub.drop_last() =~= strings_view(lines@.subrange(0, i as int)));
            assert(sub.last() == lines@[i as int]@);
        }
        match find_first(pattern.as_str(), lines[i].as_str()) {
            Ok(Some(p)) => {
                out.push(p);
                assert(strings_view(out@) =~= strings_view(before).push(out@.last()@));
            },
            Ok(None) | Err(_) => {},
        }
        i = i + 1;
    }
    assert(lines@.subrange(0, lines@.len() as int) =~= lines@);
    out
}

} // verus!
