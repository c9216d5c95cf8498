//! A value-level model of a directory tree.
//!
//! The planner and the archive writer work on this type; the surrounding
//! application reads a real directory into it and performs the planned
//! actions afterwards.

use vstd::prelude::*;

verus! {

/// One node of a source tree: a file, or a directory with its children
/// in directory-read order.
pub enum FsTree {
    File { name: String },
    Dir { name: String, children: Vec<FsTree> },
}

impl FsTree {
    /// The name of this entry, without any path separators.
    pub open spec fn spec_name(&self) -> Seq<char> {
        match self {
            FsTree::File { name } => name@,
            FsTree::Dir { name, .. } => name@,
        }
    }

    /// The name of this entry.
    pub fn name(&self) -> (r: &String)
        ensures
            r@ == self.spec_name(),
    {
        match self {
            FsTree::File { name } => name,
            FsTree::Dir { name, .. } => name,
        }
    }

}

} // verus!
