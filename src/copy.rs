//! The decisions of the closure copier.
//!
//! The copier walks a source tree and handles each entry by what the
//! filesystem shows of it. The caller observes (does the destination exist,
//! what kind of entry is it, where does a link resolve to, which libraries does
//! a binary load) and the functions here decide what is written where.
use crate::error::BundleError;
use crate::paths::{below_dir, join, join_path, parent_dir, parent_of, strip_dir, under_dir};
use crate::store::{
    dependency_path, diff_paths, diff_paths_of, has_parent_segment, in_store, is_absolute,
    is_store_path, relocate,
};
use vstd::prelude::*;
use vstd::string::*;

verus! {

/// What an entry of the source tree is, read without following links.
#[derive(Debug, Clone, Copy, PartialEq, Eq, Structural)]
pub enum EntryKind {
    File,
    Symlink,
    /// A directory, or a device, socket or pipe.
    Other,
}

/// What the copier does with one entry.
#[derive(Debug, Clone, Copy, PartialEq, Eq, Structural)]
pub enum EntryStep {
    /// Nothing: the destination is already there, or the entry is no file or link.
    Skip,
    /// Recreate the link at the destination.
    Link,
    /// Copy the bytes, make them writable and relink a binary.
    CopyFile,
}

pub open spec fn entry_step_spec(dst_exists: bool, kind: EntryKind) -> EntryStep {
    if dst_exists {
        EntryStep::Skip
    } else {
        match kind {
            EntryKind::File => EntryStep::CopyFile,
            EntryKind::Symlink => EntryStep::Link,
            EntryKind::Other => EntryStep::Skip,
        }
    }
}

/// Decides what to do with an entry. An existing destination ends the work on
/// it: that is what keeps a second run, a shared dependency or a cycle of
/// links from being copied again.
pub fn entry_step(dst_exists: bool, kind: EntryKind) -> (r: EntryStep)
    ensures
        r == entry_step_spec(dst_exists, kind),
        dst_exists ==> r == EntryStep::Skip,
{
    if dst_exists {
        return EntryStep::Skip;
    }
    match kind {
        EntryKind::File => EntryStep::CopyFile,
        EntryKind::Symlink => EntryStep::Link,
        EntryKind::Other => EntryStep::Skip,
    }
}

/// A second copy into the same destination writes nothing: every entry that
/// the first copy materialised is found in place and skipped, whatever it is.
pub proof fn lemma_second_copy_writes_nothing(kinds: Seq<EntryKind>)
    ensures
        forall|i: int| 0 <= i < kinds.len() ==> entry_step_spec(true, #[trigger] kinds[i])
            == EntryStep::Skip,
{
}

/// The directory that a destination is created in.
pub fn destination_parent(dst_path: &str) -> (r: Result<String, BundleError>)
    ensures
        r is Ok <==> parent_of(dst_path@) is Some,
        r matches Ok(p) ==> parent_of(dst_path@) == Some(p@),
        r matches Err(e) ==> e == BundleError::NoParent,
{
    match parent_dir(dst_path) {
        Some(p) => Ok(p),
        None => Err(BundleError::NoParent),
    }
}

/// Where a walked entry lands: its path below the walked directory, joined to
/// the destination directory.
pub fn walk_destination(entry_path: &str, src_dir: &str, dst_dir: &str) -> (r: Result<
    String,
    BundleError,
>)
    ensures
        r is Ok <==> under_dir(entry_path@, src_dir@),
        r matches Ok(p) ==> p@ == join(dst_dir@, below_dir(entry_path@, src_dir@)),
        r matches Err(e) ==> e == BundleError::OutsideWalkedDir,
{
    match strip_dir(entry_path, src_dir) {
        Some(rel) => Ok(join_path(dst_dir, rel.as_str())),
        None => Err(BundleError::OutsideWalkedDir),
    }
}

/// A copy that the copier still owes: one entry, or a whole tree.
#[derive(Debug, Clone, PartialEq, Eq)]
pub struct Job {
    pub src: String,
    pub dst: String,
    pub whole_tree: bool,
}

impl View for Job {
    type V = (Seq<char>, Seq<char>, bool);

    open spec fn view(&self) -> Self::V {
        (self.src@, self.dst@, self.whole_tree)
    }
}

/// How a link is recreated at its destination.
#[derive(Debug, Clone, PartialEq, Eq)]
pub struct LinkPlan {
    /// What the new link holds.
    pub value: String,
    /// The copy of the link's target that the bundle needs, if the target is in the store.
    pub follow: Option<Job>,
}

/// The link value and follow-up copy for a link whose resolved target is
/// `target`, recreated in the directory `parent`.
pub open spec fn link_plan_spec(
    parent: Seq<char>,
    target: Seq<char>,
    target_is_dir: bool,
    target_store: Seq<char>,
) -> Option<(Seq<char>, Option<(Seq<char>, Seq<char>, bool)>)> {
    if is_store_path(target) {
        let dst = relocate(target, target_store);
        match diff_paths_of(dst, parent) {
            Some(value) => Some((value, Some((target, dst, target_is_dir)))),
            None => None,
        }
    } else {
        Some((target, None))
    }
}

pub open spec fn follow_view(f: Option<Job>) -> Option<(Seq<char>, Seq<char>, bool)> {
    match f {
        Some(j) => Some(j@),
        None => None,
    }
}

/// Plans a link whose resolved target is `link_target`, to be created in the
/// directory `parent`. A target in the store is relocated under
/// `target_store`, the new link points there by a path relative to `parent`,
/// and the target's content is owed as a copy (a whole tree for a directory).
/// A target outside the store is linked as it is.
pub fn plan_link(parent: &str, link_target: &str, target_is_dir: bool, target_store: &str) -> (r:
    Result<LinkPlan, BundleError>)
    ensures
        r is Ok <==> link_plan_spec(parent@, link_target@, target_is_dir, target_store@) is Some,
        r matches Ok(p) ==> link_plan_spec(parent@, link_target@, target_is_dir, target_store@)
            == Some((p.value@, follow_view(p.follow))),
        r matches Err(e) ==> e == BundleError::NoRelativePath,
        is_store_path(link_target@) && is_absolute(parent@) && is_absolute(target_store@)
            && !has_parent_segment(parent@) ==> r is Ok,
        is_store_path(link_target@) && is_absolute(parent@) && is_absolute(target_store@) ==> (
        r matches Ok(p) ==> !is_absolute(p.value@)),
{
    if in_store(link_target) {
        let dst = match dependency_path(link_target, target_store) {
            Ok(d) => d,
            Err(e) => {
                return Err(e);
            },
        };
        proof {
            if is_absolute(target_store@) {
                crate::store::lemma_relocate_absolute(link_target@, target_store@);
            }
        }
        let value = match diff_paths(dst.as_str(), parent) {
            Ok(v) => v,
            Err(e) => {
                return Err(e);
            },
        };
        let job = Job { src: String::from_str(link_target), dst, whole_tree: target_is_dir };
        Ok(LinkPlan { value, follow: Some(job) })
    } else {
        Ok(LinkPlan { value: String::from_str(link_target), follow: None })
    }
}

/// The permission bits of a copied file: those of the source, with the
/// owner's write bit set.
pub fn writable_mode(mode: u32) -> (r: u32)
    ensures
        r == mode | 0o200u32,
{
    mode | 0o200u32
}

/// A library that a binary loads, and whether its path exists on disk.
#[derive(Debug, Clone, PartialEq, Eq)]
pub struct Dependency {
    pub path: String,
    pub exists: bool,
}

/// A dependency that the copier brings along: where it is copied from and to,
/// and the name under the search path that the binary loads it by afterwards.
#[derive(Debug, Clone, PartialEq, Eq)]
pub struct DepCopy {
    pub src: String,
    pub dst: String,
    pub install_name: String,
}

impl View for DepCopy {
    type V = (Seq<char>, Seq<char>, Seq<char>);

    open spec fn view(&self) -> Self::V {
        (self.src@, self.dst@, self.install_name@)
    }
}

/// The placeholder that the loader reads as "the search path".
pub open spec fn rpath_dir() -> Seq<char> {
    seq!['@', 'r', 'p', 'a', 't', 'h']
}

/// A dependency is brought along when it lies in the store and still exists;
/// one that was collected since is passed over.
pub open spec fn is_kept(d: Dependency) -> bool {
    is_store_path(d.path@) && d.exists
}

/// The copy owed for the store path `p`: to its place under `root`, and
/// renamed to its place under the search path.
pub open spec fn copy_of(p: Seq<char>, root: Seq<char>) -> (Seq<char>, Seq<char>, Seq<char>) {
    (p, relocate(p, root), relocate(p, rpath_dir()))
}

/// The copies owed for `deps`, in their order.
pub open spec fn dep_copies(deps: Seq<Dependency>, root: Seq<char>) -> Seq<
    (Seq<char>, Seq<char>, Seq<char>),
>
    decreases deps.len(),
{
    if deps.len() == 0 {
        Seq::empty()
    } else {
        let rest = dep_copies(deps.drop_last(), root);
        if is_kept(deps.last()) {
            rest.push(copy_of(deps.last().path@, root))
        } else {
            rest
        }
    }
}

pub open spec fn dep_copies_view(v: Seq<DepCopy>) -> Seq<(Seq<char>, Seq<char>, Seq<char>)> {
    v.map_values(|c: DepCopy| c@)
}

/// The placeholder path as a string.
fn rpath_dir_string() -> (r: String)
    ensures
        r@ == rpath_dir(),
{
    let r = String::from_str("@rpath");
    proof {
        reveal_strlit("@rpath");
    }
    assert(r@ =~= rpath_dir());
    r
}

/// The copies that the libraries of a binary call for, each relocated under
/// `target_store` and renamed under the search path.
pub fn plan_dependencies(deps: &Vec<Dependency>, target_store: &str) -> (r: Vec<DepCopy>)
    ensures
        dep_copies_view(r@) == dep_copies(deps@, target_store@),
{
    let rpath = rpath_dir_string();
    let mut out: Vec<DepCopy> = Vec::new();
    let mut i: usize = 0;
    while i < deps.len()
        invariant
            i <= deps@.len(),
            rpath@ == rpath_dir(),
            dep_copies_view(out@) == dep_copies(deps@.subrange(0, i as int), target_store@),
        decreases deps@.len() - i,
    {
        let d = &deps[i];
        assert(deps@.subrange(0, i + 1).drop_last() =~= deps@.subrange(0, i as int));
        if d.exists && in_store(d.path.as_str()) {
            let dst = dependency_path(d.path.as_str(), target_store);
            let name = dependency_path(d.path.as_str(), rpath.as_str());
            match (dst, name) {
                (Ok(dst), Ok(install_name)) => {
                    let c = DepCopy { src: d.path.clone(), dst, install_name };
                    assert(c.src@ == d.path@);
                    let ghost before = out@;
                    out.push(c);
                    assert(dep_copies_view(out@) =~= dep_copies_view(before).push(c@));
                },
                _ => {},
            }
        }
        i = i + 1;
    }
    assert(deps@.subrange(0, deps@.len() as int) =~= deps@);
    out
}

/// What is in the copies owed for `deps`: one for each kept dependency.
pub proof fn lemma_dep_copies_members(deps: Seq<Dependency>, root: Seq<char>)
    ensures
        forall|c| #[trigger]
            dep_copies(deps, root).contains(c) <==> exists|i: int|
                0 <= i < deps.len() && is_kept(#[trigger] deps[i]) && c == copy_of(
                    deps[i].path@,
                    root,
                ),
    decreases deps.len(),
{
    if deps.len() > 0 {
        let init = deps.drop_last();
        lemma_dep_copies_members(init, root);
        assert forall|c| #[trigger]
            dep_copies(deps, root).contains(c) <==> exists|i: int|
                0 <= i < deps.len() && is_kept(#[trigger] deps[i]) && c == copy_of(
                    deps[i].path@,
                    root,
                ) by {
            let rest = dep_copies(init, root);
            if dep_copies(deps, root).contains(c) {
                if rest.contains(c) {
                    let i = choose|i: int|
                        0 <= i < init.len() && is_kept(#[trigger] init[i]) && c == copy_of(
                            init[i].path@,
                            root,
                        );
                    assert(deps[i] == init[i]);
                } else {
                    assert(is_kept(deps.last()));
                    assert(c == copy_of(deps[deps.len() - 1].path@, root));
                }
            }
            if exists|i: int|
                0 <= i < deps.len() && is_kept(#[trigger] deps[i]) && c == copy_of(
                    deps[i].path@,
                    root,
                ) {
                let i = choose|i: int|
                    0 <= i < deps.len() && is_kept(#[trigger] deps[i]) && c == copy_of(
                        deps[i].path@,
                        root,
                    );
                if i < deps.len() - 1 {
                    assert(init[i] == deps[i]);
                    assert(rest.contains(c));
                    if is_kept(deps.last()) {
                        let j = rest.index_of(c);
                        assert(rest.push(copy_of(deps.last().path@, root))[j] == c);
                    }
                } else {
                    assert(dep_copies(deps, root) == rest.push(c));
                    assert(rest.push(c)[rest.len() as int] == c);
                }
            }
        }
    }
}

/// A dependency shared by two binaries is relocated to one place and renamed
/// to one name in both: whatever each binary loads besides, the copies owed
/// for the shared store path `d` agree, so the second copy finds the first in
/// place and both patch requests name the same path.
pub proof fn lemma_shared_dependency_agrees(
    a: Seq<Dependency>,
    b: Seq<Dependency>,
    root: Seq<char>,
    d: Seq<char>,
)
    ensures
        forall|x, y|
            dep_copies(a, root).contains(x) && dep_copies(b, root).contains(y) && x.0 == d && y.0
                == d ==> x == y,
        forall|x| dep_copies(a, root).contains(x) && x.0 == d ==> x == copy_of(d, root),
        (exists|i: int| 0 <= i < a.len() && is_kept(#[trigger] a[i]) && a[i].path@ == d)
            ==> dep_copies(a, root).contains(copy_of(d, root)),
{
    lemma_dep_copies_members(a, root);
    lemma_dep_copies_members(b, root);
}

} // verus!
