//! Core engine of a static-site build tool: classification of a source tree,
//! composition of a typed site model, template resolution and rendering, and a
//! manifest-tracked build plan whose deletion order is proved safe.
//!
//! The engine itself never touches the filesystem: a thin front end walks the
//! source tree, hands the walk to [`compose`], performs the reads, writes and
//! copies that the build plan calls for, and reports errors.

use vstd::prelude::*;

pub mod plan;
pub mod compose;
pub mod config;
pub mod laws;
pub mod manifest;
pub mod paths;
pub mod profile;
pub mod render;
pub mod strutil;

verus! {

/// The subsystem a fatal error originated from.
#[derive(Clone, Copy, Debug, PartialEq, Eq, Structural)]
pub enum ErrorKind {
    /// An I/O failure during a read, write or delete.
    Io,
    /// A failure while traversing the source tree.
    Walk,
    /// A malformed configuration document.
    Toml,
    /// A composition invariant was broken (duplicate page file, missing content root).
    Composition,
    /// A resolved template is unusable.
    Generator,
    /// A malformed entry in the previous build's manifest.
    Manifest,
}

/// A fatal build error: the failing subsystem plus a human-readable message.
#[derive(Debug)]
pub struct QuiltError {
    pub kind: ErrorKind,
    pub message: String,
}

impl QuiltError {
    /// The printable name of the failing subsystem.
    pub fn source_name(&self) -> (r: String)
        ensures
            self.kind == ErrorKind::Io ==> r@ == "IO"@,
            self.kind == ErrorKind::Walk ==> r@ == "WalkDir"@,
            self.kind == ErrorKind::Toml ==> r@ == "Toml"@,
            self.kind == ErrorKind::Composition ==> r@ == "Composition"@,
            self.kind == ErrorKind::Generator ==> r@ == "Generator"@,
            self.kind == ErrorKind::Manifest ==> r@ == "Manifest"@,
    {
        match self.kind {
            ErrorKind::Io => String::from_str("IO"),
            ErrorKind::Walk => String::from_str("WalkDir"),
            ErrorKind::Toml => String::from_str("Toml"),
            ErrorKind::Composition => String::from_str("Composition"),
            ErrorKind::Generator => String::from_str("Generator"),
            ErrorKind::Manifest => String::from_str("Manifest"),
        }
    }
}

/// Checks a composition invariant: `Ok` when the condition holds, otherwise a
/// composition error carrying the given message.
pub fn quilt_assert(cond: bool, err: &str) -> (r: Result<(), QuiltError>)
    ensures
        cond ==> r is Ok,
        !cond ==> (r matches Err(e) && e.kind == ErrorKind::Composition && e.message@ == err@),
{
    if cond {
        Ok(())
    } else {
        Err(QuiltError { kind: ErrorKind::Composition, message: String::from_str(err) })
    }
}

/// Returns `false`: the default value for a build profile's `default` flag.
pub fn false_val() -> (r: bool)
    ensures
        r == false,
{
    false
}

} // verus!
