//! Relocation of package-store closures into self-contained application bundles.
//!
//! Paths are handled as text. The mapping from a store path to its place in a
//! bundle, the decisions of the closure copier and the arguments of the binary
//! patch request are computed here; the filesystem work itself is done by the
//! caller, which hands the observed facts in and carries the decisions out.
pub mod copy;
pub mod error;
pub mod macho;
pub mod nix;
pub mod paths;
pub mod scan;
pub mod store;
