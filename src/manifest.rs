//! The manifest: a tree of items, each a fetch, an optional build and a set
//! of assets to place, with optional child items.
use vstd::prelude::*;

verus! {

/// One node of the manifest tree.
///
/// Paths (`assets`, `source`, `dest`) are held as their bytes; commands are
/// handed to a shell as they stand.
pub struct Item {
    /// Shell command that fetches content into the item's workspace.
    pub get: String,
    /// Shell command run after the fetch, in the item's source directory.
    pub build: Option<String>,
    /// Files or directories to copy out, relative to the source directory.
    pub assets: Vec<Vec<u8>>,
    /// Overwrite switch: its presence enables overwriting, whatever its value.
    pub overwrite: Option<bool>,
    /// Subdirectory of the workspace that assets are taken from.
    pub source: Option<Vec<u8>>,
    /// Subdirectory of the base directory that assets are placed in.
    pub dest: Option<Vec<u8>>,
    /// Items processed after this one's assets, with its destination as base.
    pub children: Option<Vec<Item>>,
}

/// The root of a manifest: its top-level items, in order.
pub struct Manifest {
    pub items: Vec<Item>,
}

impl Item {
    /// The child items, none when the field is absent.
    pub open spec fn kids(self) -> Seq<Item> {
        match self.children {
            Some(c) => c@,
            None => Seq::empty(),
        }
    }

    /// Whether existing destination files are replaced: the switch counts
    /// as on whenever it is present, even when it reads `false`.
    pub fn overwrite_enabled(&self) -> (r: bool)
        ensures
            r == self.overwrite is Some,
    {
        self.overwrite.is_some()
    }
}

} // verus!
