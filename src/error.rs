//! The errors of the library.
use vstd::prelude::*;

verus! {

/// Why a relocation step could not be decided.
#[derive(Debug, Clone, Copy, PartialEq, Eq, Structural)]
pub enum BundleError {
    /// A path that was taken for a store path does not lie under the store.
    NotInStore,
    /// No relative path leads from one path to the other.
    NoRelativePath,
    /// A destination has no parent directory to be created in.
    NoParent,
    /// A walked entry does not lie under the directory that was walked.
    OutsideWalkedDir,
}

} // verus!
