//! A minimal content-addressed version-control core.
//!
//! The library reduces a working tree to a set of content fingerprints,
//! chains fingerprints into timestamped commits, and persists the commit
//! history as a single structured store file. All file-system and console
//! work is left to the surrounding application; the library computes on
//! plain values.

use vstd::prelude::*;

pub mod clock;
pub mod codec;
pub mod digest;
pub mod history;
pub mod hex;
pub mod ident;
pub mod model;
pub mod snapshot;
pub mod store;
pub mod strutil;

verus! {

/// The failures the engine distinguishes.
///
/// `NotInitialized` is returned when an operation needs the metadata
/// directory and it is absent; `CorruptStore` when the store file does not
/// hold a well-formed commit sequence; `IoFailure` when the surrounding
/// application could not list a directory or touch the store file at all.
#[derive(Clone, Copy, Debug, PartialEq, Eq, Structural)]
pub enum RepoError {
    NotInitialized,
    CorruptStore,
    IoFailure,
}

} // verus!
