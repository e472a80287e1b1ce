//! A snapshot of the asset directory: which files and directories there
//! were when it was taken.
//!
//! Taking the snapshot means reading the disk, which is done elsewhere.
//! A file comes with the extension of its name, without the dot, so that
//! what is decided here does not depend on how paths are written.

use vstd::prelude::*;

verus! {

/// A directory tree, or the lack of one.
#[derive(Debug, PartialEq, Eq)]
pub enum FileTree {
    /// No snapshot was taken yet, or the last one was discarded.
    Unknown,
    /// A file. `extension` is empty where the name has none.
    Leaf { path: String, extension: String },
    /// A directory and what is in it.
    Node { path: String, children: Vec<FileTree> },
}

/// The extension of mesh files.
pub open spec fn mesh_extension() -> Seq<char> {
    seq!['o', 'b', 'j']
}

impl FileTree {
    /// This is a file whose extension is that of a mesh.
    pub open spec fn spec_is_mesh(&self) -> bool {
        match *self {
            FileTree::Leaf { path, extension } => extension@ == mesh_extension(),
            _ => false,
        }
    }

    /// Whether a snapshot has to be taken before the tree can be shown.
    pub fn needs_scan(&self) -> (needed: bool)
        ensures
            needed == (*self is Unknown),
    {
        match self {
            FileTree::Unknown => true,
            _ => false,
        }
    }

    /// Whether this is a file that can be offered as a mesh.
    pub fn is_mesh(&self) -> (mesh: bool)
        ensures
            mesh == self.spec_is_mesh(),
    {
        match self {
            FileTree::Leaf { path, extension } => {
                let wanted: String = "obj".to_owned();
                proof {
                    reveal_strlit("obj");
                    assert(wanted@ =~= mesh_extension());
                }
                *extension == wanted
            },
            _ => false,
        }
    }
}

} // verus!
