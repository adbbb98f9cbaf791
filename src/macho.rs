//! Mach-O binaries: recognising one by its header, and the request that
//! rewrites the libraries it loads.
use crate::copy::{dep_copies, dep_copies_view, is_kept, lemma_dep_copies_members, DepCopy, Dependency};
use crate::error::BundleError;
use crate::paths::{join, join_path, strings_view};
use crate::store::{diff_paths, diff_paths_of};
use vstd::prelude::*;
use vstd::string::*;

verus! {

/// The first four bytes of a file hold the magic number of a 32-bit
/// (`0xFEEDFACE`) or 64-bit (`0xFEEDFACF`) Mach-O image, most significant
/// byte first. Fat images, which hold several, are not recognised.
pub open spec fn is_macho_header(b: Seq<u8>) -> bool {
    &&& b.len() >= 4
    &&& b[0] == 0xFEu8
    &&& b[1] == 0xEDu8
    &&& b[2] == 0xFAu8
    &&& (b[3] == 0xCEu8 || b[3] == 0xCFu8)
}

/// Tests the leading bytes of a file for the Mach-O magic number; fewer than
/// four bytes are no Mach-O image.
pub fn is_mach_object(header: &[u8]) -> (r: bool)
    ensures
        r == is_macho_header(header@),
{
    header.len() >= 4 && header[0] == 0xFEu8 && header[1] == 0xEDu8 && header[2] == 0xFAu8 && (
    header[3] == 0xCEu8 || header[3] == 0xCFu8)
}

pub open spec fn change_flag() -> Seq<char> {
    "-change"@
}

pub open spec fn add_rpath_flag() -> Seq<char> {
    "-add_rpath"@
}

/// The placeholder that the loader reads as "the directory of this binary".
pub open spec fn loader_dir() -> Seq<char> {
    "@loader_path"@
}

/// One `-change <old> <new>` triple for each copied dependency, in order.
pub open spec fn change_args(copies: Seq<(Seq<char>, Seq<char>, Seq<char>)>) -> Seq<Seq<char>>
    decreases copies.len(),
{
    if copies.len() == 0 {
        Seq::empty()
    } else {
        change_args(copies.drop_last()) + seq![
            change_flag(),
            copies.last().0,
            copies.last().2,
        ]
    }
}

/// The arguments of the rewrite tool for one binary: every change, then the
/// search path to add, then the binary itself.
pub open spec fn patch_args(
    binary: Seq<char>,
    rpath: Seq<char>,
    copies: Seq<(Seq<char>, Seq<char>, Seq<char>)>,
) -> Seq<Seq<char>> {
    change_args(copies) + seq![add_rpath_flag(), rpath, binary]
}

/// The request for a binary at `binary`, in the directory `parent`, whose
/// dependencies were copied as `copies` into `target_store`: none when nothing
/// was copied; else the arguments, with the search path leading from the
/// binary's directory to `target_store`. `None` when no relative path leads there.
pub open spec fn patch_request(
    binary: Seq<char>,
    parent: Seq<char>,
    copies: Seq<(Seq<char>, Seq<char>, Seq<char>)>,
    target_store: Seq<char>,
) -> Option<Option<Seq<Seq<char>>>> {
    if copies.len() == 0 {
        Some(None)
    } else {
        match diff_paths_of(target_store, parent) {
            Some(rel) => Some(Some(patch_args(binary, join(loader_dir(), rel), copies))),
            None => None,
        }
    }
}

/// Appends the `-change` triples of `copies` to `args`.
fn push_changes(args: &mut Vec<String>, copies: &Vec<DepCopy>)
    ensures
        strings_view(final(args)@) == strings_view(old(args)@) + change_args(
            dep_copies_view(copies@),
        ),
{
    let mut i: usize = 0;
    while i < copies.len()
        invariant
            i <= copies@.len(),
            strings_view(args@) == strings_view(old(args)@) + change_args(
                dep_copies_view(copies@.subrange(0, i as int)),
            ),
        decreases copies@.len() - i,
    {
        let ghost before = args@;
        let c = &copies[i];
        args.push(String::from_str("-change"));
        args.push(c.src.clone());
        args.push(c.install_name.clone());
        proof {
            let sub = dep_copies_view(copies@.subrange(0, i + 1));
            assert(sub.drop_last() =~= dep_copies_view(copies@.subrange(0, i as int)));
            assert(sub.last() == c@);
            assert(strings_view(args@) =~= strings_view(before) + seq![
                change_flag(),
                c.src@,
                c.install_name@,
            ]);
        }
        i = i + 1;
    }
    assert(copies@.subrange(0, copies@.len() as int) =~= copies@);
}

/// The rewrite request for the binary at `binary`, whose directory is
/// `parent`, after its dependencies were copied as `copies` into
/// `target_store`. No request at all when `copies` is empty: a binary that
/// loads nothing from the store stays as it was copied.
pub fn patch_arguments(binary: &str, parent: &str, copies: &Vec<DepCopy>, target_store: &str) -> (r:
    Result<Option<Vec<String>>, BundleError>)
    ensures
        r is Ok <==> patch_request(binary@, parent@, dep_copies_view(copies@), target_store@) is Some,
        r matches Ok(None) ==> patch_request(binary@, parent@, dep_copies_view(copies@), target_store@)
            == Some(None::<Seq<Seq<char>>>),
        r matches Ok(Some(v)) ==> patch_request(binary@, parent@, dep_copies_view(copies@), target_store@)
            == Some(Some(strings_view(v@))),
        r matches Err(e) ==> e == BundleError::NoRelativePath,
        copies@.len() == 0 <==> (r matches Ok(None)),
{
    if copies.len() == 0 {
        return Ok(None);
    }
    let rel = match diff_paths(target_store, parent) {
        Ok(rel) => rel,
        Err(e) => {
            return Err(e);
        },
    };
    let rpath = join_path("@loader_path", rel.as_str());
    let mut args: Vec<String> = Vec::new();
    push_changes(&mut args, copies);
    let ghost before = args@;
    args.push(String::from_str("-add_rpath"));
    args.push(rpath);
    args.push(String::from_str(binary));
    assert(strings_view(args@) =~= strings_view(before) + seq![add_rpath_flag(), join(loader_dir(), rel@), binary@]);
    assert(strings_view(Seq::<String>::empty()) =~= Seq::<Seq<char>>::empty());
    Ok(Some(args))
}

/// A binary none of whose libraries is a store path that still exists is
/// copied and left unpatched: no copy is owed and no request is made.
pub proof fn lemma_no_store_dependency_no_patch(
    deps: Seq<Dependency>,
    binary: Seq<char>,
    parent: Seq<char>,
    target_store: Seq<char>,
)
    requires
        forall|i: int| 0 <= i < deps.len() ==> !is_kept(#[trigger] deps[i]),
    ensures
        dep_copies(deps, target_store).len() == 0,
        patch_request(binary, parent, dep_copies(deps, target_store), target_store) == Some(
            None::<Seq<Seq<char>>>,
        ),
{
    lemma_dep_copies_members(deps, target_store);
    let cs = dep_copies(deps, target_store);
    if cs.len() > 0 {
        assert(cs.contains(cs[0]));
    }
}

} // verus!
