//! The command lines handed to the package manager, and the layout of a bundle.
use crate::paths::{join, join_path, strings_view};
use vstd::prelude::*;
use vstd::string::*;

verus! {

/// The options that every call of the package manager starts with.
pub open spec fn feature_args() -> Seq<Seq<char>> {
    seq!["--extra-experimental-features"@, "nix-command flakes"@]
}

/// The arguments that build `installables` and print their output paths,
/// with `extra` passed on to the build.
pub open spec fn build_args_spec(installables: Seq<Seq<char>>, extra: Seq<Seq<char>>) -> Seq<
    Seq<char>,
> {
    feature_args() + seq!["build"@, "--no-link"@, "--print-out-paths"@] + extra + installables
}

/// The arguments that show the derivations of `installable`.
pub open spec fn show_args_spec(installable: Seq<char>) -> Seq<Seq<char>> {
    feature_args() + seq!["derivation"@, "show"@, installable]
}

/// The options that a build gets from the command line: with `programs` the
/// installables are read from nixpkgs, else from `file` if one is given.
pub open spec fn extra_args_spec(programs: bool, file: Option<Seq<char>>, build_args: Seq<Seq<char>>) -> Seq<
    Seq<char>,
> {
    if programs {
        build_args + seq!["--file"@, "<nixpkgs>"@]
    } else {
        match file {
            Some(f) => build_args + seq!["--file"@, f],
            None => build_args,
        }
    }
}

/// Appends clones of `items` to `out`.
fn extend_cloned(out: &mut Vec<String>, items: &Vec<String>)
    ensures
        strings_view(final(out)@) == strings_view(old(out)@) + strings_view(items@),
{
    let mut i: usize = 0;
    while i < items.len()
        invariant
            i <= items@.len(),
            strings_view(out@) == strings_view(old(out)@) + strings_view(
                items@.subrange(0, i as int),
            ),
        decreases items@.len() - i,
    {
        let ghost before = out@;
        out.push(items[i].clone());
        assert(strings_view(items@.subrange(0, i + 1)) =~= strings_view(
            items@.subrange(0, i as int),
        ).push(items@[i as int]@));
        assert(strings_view(out@) =~= strings_view(before).push(items@[i as int]@));
        i = i + 1;
    }
    assert(items@.subrange(0, items@.len() as int) =~= items@);
}

/// The common options as strings.
fn feature_strings() -> (r: Vec<String>)
    ensures
        strings_view(r@) == feature_args(),
{
    let mut r: Vec<String> = Vec::new();
    r.push(String::from_str("--extra-experimental-features"));
    r.push(String::from_str("nix-command flakes"));
    assert(strings_view(r@) =~= feature_args());
    r
}

/// The arguments of the build of `installables`, with `extra` passed on.
pub fn build_arguments(installables: &Vec<String>, extra: &Vec<String>) -> (r: Vec<String>)
    ensures
        strings_view(r@) == build_args_spec(strings_view(installables@), strings_view(extra@)),
{
    let mut r = feature_strings();
    let ghost f = r@;
    r.push(String::from_str("build"));
    r.push(String::from_str("--no-link"));
    r.push(String::from_str("--print-out-paths"));
    assert(strings_view(r@) =~= feature_args() + seq!["build"@, "--no-link"@, "--print-out-paths"@]);
    extend_cloned(&mut r, extra);
    extend_cloned(&mut r, installables);
    r
}

/// The arguments that show the derivations of `installable`.
pub fn show_arguments(installable: &str) -> (r: Vec<String>)
    ensures
        strings_view(r@) == show_args_spec(installable@),
{
    let mut r = feature_strings();
    r.push(String::from_str("derivation"));
    r.push(String::from_str("show"));
    r.push(String::from_str(installable));
    assert(strings_view(r@) =~= show_args_spec(installable@));
    r
}

/// The options of the build, from the command line's `programs` and `file`.
pub fn extra_build_arguments(programs: bool, file: Option<String>, build_args: Vec<String>) -> (r:
    Vec<String>)
    ensures
        strings_view(r@) == extra_args_spec(
            programs,
            match file {
                Some(f) => Some(f@),
                None => None,
            },
            strings_view(build_args@),
        ),
{
    let mut r = build_args;
    let ghost before = r@;
    if programs {
        r.push(String::from_str("--file"));
        r.push(String::from_str("<nixpkgs>"));
        assert(strings_view(r@) =~= strings_view(before) + seq!["--file"@, "<nixpkgs>"@]);
    } else {
        match file {
            Some(f) => {
                r.push(String::from_str("--file"));
                let ghost fv = f@;
                r.push(f);
                assert(strings_view(r@) =~= strings_view(before) + seq!["--file"@, fv]);
            },
            None => {},
        }
    }
    r
}

/// What becomes of a bundle that is already there.
#[derive(Debug, Clone, Copy, PartialEq, Eq, Structural)]
pub enum ExistingTarget {
    /// There is none: go on.
    Proceed,
    /// Remove it first, as asked.
    Replace,
    /// Stop with an error: replacing was not asked for.
    Refuse,
}

/// Decides on a bundle directory that may already exist.
pub fn existing_target(exists: bool, force: bool) -> (r: ExistingTarget)
    ensures
        !exists ==> r == ExistingTarget::Proceed,
        exists && force ==> r == ExistingTarget::Replace,
        exists && !force ==> r == ExistingTarget::Refuse,
{
    if !exists {
        ExistingTarget::Proceed
    } else if force {
        ExistingTarget::Replace
    } else {
        ExistingTarget::Refuse
    }
}

/// Where the bundle of the application `app_name` is written under `results`.
pub open spec fn bundle_path(results: Seq<char>, app_name: Seq<char>) -> Seq<char> {
    join(results, app_name)
}

/// Where a bundle keeps the store paths that it carries.
pub open spec fn bundle_store(bundle: Seq<char>) -> Seq<char> {
    join(join(bundle, "Contents"@), "nix"@)
}

/// The bundle directory of `app_name` under `results`, and its private store.
pub fn bundle_paths(results: &str, app_name: &str) -> (r: (String, String))
    ensures
        r.0@ == bundle_path(results@, app_name@),
        r.1@ == bundle_store(r.0@),
{
    let target = join_path(results, app_name);
    let contents = join_path(target.as_str(), "Contents");
    let store = join_path(contents.as_str(), "nix");
    (target, store)
}

/// The file name ends in the extension `.app`, as `Path::extension` reads it:
/// the name has more than the dot and `app`.
pub open spec fn has_app_extension(name: Seq<char>) -> bool {
    let n = name.len() as int;
    &&& n >= 5
    &&& name.subrange(n - 4, n) == ".app"@
}

/// Tests whether a directory's file name marks an application.
pub fn is_app_name(name: &str) -> (r: bool)
    ensures
        r == has_app_extension(name@),
{
    let n = name.unicode_len();
    if n < 5 {
        return false;
    }
    let ok = name.get_char(n - 4) == '.' && name.get_char(n - 3) == 'a' && name.get_char(n - 2)
        == 'p' && name.get_char(n - 1) == 'p';
    proof {
        reveal_strlit(".app");
        if ok {
            assert(name@.subrange(n - 4, n as int) =~= ".app"@);
        } else if name@.subrange(n - 4, n as int) == ".app"@ {
            assert(name@.subrange(n - 4, n as int)[0] == name@[n - 4]);
            assert(name@.subrange(n - 4, n as int)[1] == name@[n - 3]);
            assert(name@.subrange(n - 4, n as int)[2] == name@[n - 2]);
            assert(name@.subrange(n - 4, n as int)[3] == name@[n - 1]);
        }
    }
    ok
}

} // verus!
