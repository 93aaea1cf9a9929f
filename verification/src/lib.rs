//! A file-backed workbench for crystallography projects.
//!
//! Projects and their derived resources (band structures, Fermi surfaces)
//! live in a directory hierarchy on disk. This crate holds the verified
//! core: the record types and their transformations, the in-memory store
//! semantics, the metadata codec, the on-disk path layout, and the scripted
//! run event sequence. The unverified shell around it performs the actual
//! file reads and writes and feeds plain values in and out.

pub mod codec;
pub mod json;
pub mod keyed;
pub mod laws;
pub mod paths;
pub mod records;
pub mod run;
pub mod store;
pub mod sys;

use vstd::prelude::*;

verus! {

/// The error taxonomy every store operation draws from.
#[derive(Clone, Copy, Debug, PartialEq, Eq, Structural)]
pub enum StoreError {
    /// A referenced project, resource or file is absent.
    NotFound,
    /// An underlying read, write, copy or remove failed.
    IoFailure,
    /// Metadata bytes are present but do not parse.
    Corrupt,
    /// The base storage root cannot be resolved or created.
    StorageUnavailable,
}

impl StoreError {
    /// The message the host surfaces verbatim.
    pub fn message(&self) -> (r: String)
        ensures
            self is NotFound ==> r@ == "not found"@,
            self is IoFailure ==> r@ == "a read, write, copy or remove failed"@,
            self is Corrupt ==> r@ == "the stored metadata does not parse"@,
            self is StorageUnavailable ==> r@ == "the storage root cannot be resolved or created"@,
    {
        match self {
            StoreError::NotFound => String::from_str("not found"),
            StoreError::IoFailure => String::from_str("a read, write, copy or remove failed"),
            StoreError::Corrupt => String::from_str("the stored metadata does not parse"),
            StoreError::StorageUnavailable => String::from_str(
                "the storage root cannot be resolved or created",
            ),
        }
    }
}

} // verus!
