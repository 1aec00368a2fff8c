//! The manifest: how a tree is put together again from chunks.

use vstd::prelude::*;
use crate::hash::{hash_manifest, manifest_id, EntryView};

verus! {

/// The format tag of the manifests this crate writes.
pub const MANIFEST_FORMAT: u8 = 1;

/// The files of a tree, in the order in which they were found. Each entry
/// gives the path of a file below the root of the tree, the identifier of
/// the chunk that holds its content, and whether it is executable.
#[derive(Clone, Debug, PartialEq, Eq)]
pub struct Manifest {
    pub files: Vec<(String, String, bool)>,
    pub format: u8,
}

/// A manifest as a value.
pub struct ManifestView {
    pub files: Seq<EntryView>,
    pub format: u8,
}

impl View for Manifest {
    type V = ManifestView;

    open spec fn view(&self) -> ManifestView {
        ManifestView { files: self.files.deep_view(), format: self.format }
    }
}

impl Manifest {
    /// The manifest of the given files, in the current format.
    pub fn new(files: Vec<(String, String, bool)>) -> (m: Manifest)
        ensures
            m@ == (ManifestView { files: files.deep_view(), format: MANIFEST_FORMAT }),
    {
        Manifest { files, format: MANIFEST_FORMAT }
    }

    /// The identifier of the manifest. It depends on the entries and their
    /// order, not on the format tag.
    pub fn id(&self) -> (id: String)
        ensures
            id@ == manifest_id(self@.files),
    {
        hash_manifest(&self.files)
    }
}

} // verus!
