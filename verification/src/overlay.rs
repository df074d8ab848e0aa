//! The overlay: a directory of its own for files that may be written but not seen in the
//! source tree.

use crate::path::{joined, parent, FsPath};
use vstd::prelude::*;

verus! {

/// The overlay's directory.
pub struct Overlay {
    base: FsPath,
}

impl View for Overlay {
    type V = Seq<u8>;

    closed spec fn view(&self) -> Seq<u8> {
        self.base@
    }
}

impl Overlay {
    /// The overlay in a directory.
    pub fn new(base: FsPath) -> (o: Overlay)
        ensures
            o@ == base@,
    {
        Overlay { base }
    }

    /// The overlay's directory.
    pub fn base_path(&self) -> (p: &FsPath)
        ensures
            p@ == self@,
    {
        &self.base
    }

    /// Where the overlay has a path. Nothing need be there yet.
    pub fn resolve(&self, rel: &FsPath) -> (p: FsPath)
        ensures
            p@ == joined(self@, rel@),
    {
        self.base.join(rel)
    }

    /// The directory that has to be there before a path can be created.
    pub fn dir_of(&self, rel: &FsPath) -> (dir: Option<FsPath>)
        ensures
            match dir {
                Some(d) => parent(joined(self@, rel@)) == Some(d@),
                None => parent(joined(self@, rel@)) is None,
            },
    {
        self.resolve(rel).parent()
    }
}

} // verus!
