//! Laying out an archive from a materialized output tree.
//!
//! Every directory below the root becomes a directory entry, every file a
//! compressed file entry, depth first in directory order with parents
//! before children; paths are relative to the root and every entry carries
//! the same fixed permission bits, whatever the source had. The archive of
//! a build is named `{id}-{versionCode}.zip`.

use vstd::prelude::*;

verus! {

use crate::text::dec_rep;
use crate::text::path_join;
use crate::text::u64_to_dec;
use crate::tree::FsTree;
use vstd::string::StringExecFns;

/// The fixed permission bits of every archive entry: read for everyone,
/// write for the owner, search or run for everyone.
pub const ENTRY_MODE: u32 = 0o755;

/// One archive entry: a relative path, whether it is a directory, and its
/// permission bits.
pub struct ArchiveEntry {
    pub rel_path: String,
    pub is_dir: bool,
    pub mode: u32,
}

/// Mathematical image of `ArchiveEntry`.
pub struct EntryModel {
    pub rel_path: Seq<char>,
    pub is_dir: bool,
    pub mode: u32,
}

impl View for ArchiveEntry {
    type V = EntryModel;

    open spec fn view(&self) -> EntryModel {
        EntryModel { rel_path: self.rel_path@, is_dir: self.is_dir, mode: self.mode }
    }
}

impl DeepView for ArchiveEntry {
    type V = EntryModel;

    open spec fn deep_view(&self) -> EntryModel {
        self.view()
    }
}

/// The archive entries of one tree node at relative path `rel`: the node
/// itself, and below a directory all of its children in order.
pub open spec fn entries_of_node(t: FsTree, rel: Seq<char>) -> Seq<EntryModel>
    decreases t,
{
    match t {
        FsTree::File { .. } => seq![
            EntryModel { rel_path: rel, is_dir: false, mode: ENTRY_MODE },
        ],
        FsTree::Dir { children, .. } => seq![
            EntryModel { rel_path: rel, is_dir: true, mode: ENTRY_MODE },
        ] + entries_of_children(children@, 0, rel),
    }
}

/// The archive entries of `children[from..]` under directory `rel`.
pub open spec fn entries_of_children(children: Seq<FsTree>, from: int, rel: Seq<char>) -> Seq<
    EntryModel,
>
    decreases children, children.len() - from,
{
    if from < 0 || from >= children.len() {
        Seq::empty()
    } else {
        entries_of_node(children[from], rel + seq!['/'] + children[from].spec_name())
            + entries_of_children(children, from + 1, rel)
    }
}

/// The archive entries of the root's children from `from` on, under their
/// bare names.
pub open spec fn entries_top(children: Seq<FsTree>, from: int) -> Seq<EntryModel>
    decreases children, children.len() - from,
{
    if from < 0 || from >= children.len() {
        Seq::empty()
    } else {
        entries_of_node(children[from], children[from].spec_name()) + entries_top(
            children,
            from + 1,
        )
    }
}

/// The whole archive layout of a materialized tree: every entry below the
/// root, and nothing else. The root itself gets no entry.
pub open spec fn archive_entries_spec(root: FsTree) -> Seq<EntryModel> {
    match root {
        FsTree::File { .. } => Seq::empty(),
        FsTree::Dir { children, .. } => entries_top(children@, 0),
    }
}

#[verifier::loop_isolation(false)]
fn package_node(t: &FsTree, rel: &str, out: &mut Vec<ArchiveEntry>)
    ensures
        final(out).deep_view() =~= old(out).deep_view() + entries_of_node(*t, rel@),
    decreases *t,
{
    let ghost base = out.deep_view();
    match t {
        FsTree::File { .. } => {
            out.push(
                ArchiveEntry {
                    rel_path: String::from_str(rel),
                    is_dir: false,
                    mode: ENTRY_MODE,
                },
            );
            proof {
                assert(out.deep_view() =~= base + entries_of_node(*t, rel@));
            }
        },
        FsTree::Dir { children, .. } => {
            out.push(
                ArchiveEntry { rel_path: String::from_str(rel), is_dir: true, mode: ENTRY_MODE },
            );
            let ghost mid = out.deep_view();
            let n = children.len();
            let mut ci: usize = 0;
            while ci < n
                invariant
                    ci <= n,
                    out.deep_view() + entries_of_children(children@, ci as int, rel@) =~= mid
                        + entries_of_children(children@, 0, rel@),
                decreases n - ci,
            {
                let child = &children[ci];
                let child_rel = path_join(rel, child.name().as_str());
                let ghost pre = out.deep_view();
                proof {
                    assert(decreases_to!(children@ => children@[ci as int]));
                }
                package_node(child, child_rel.as_str(), out);
                proof {
                    assert(out.deep_view() + entries_of_children(children@, ci + 1, rel@) =~= mid
                        + entries_of_children(children@, 0, rel@));
                }
                ci = ci + 1;
            }
            proof {
                assert(out.deep_view() =~= base + entries_of_node(*t, rel@));
            }
        },
    }
}

/// The archive layout of one materialized tree, parents before children,
/// in directory order.
#[verifier::loop_isolation(false)]
pub fn package_entries(root: &FsTree) -> (entries: Vec<ArchiveEntry>)
    ensures
        entries.deep_view() =~= archive_entries_spec(*root),
{
    let mut out: Vec<ArchiveEntry> = Vec::new();
    proof {
        assert(out.deep_view() =~= Seq::<EntryModel>::empty());
    }
    match root {
        FsTree::File { .. } => out,
        FsTree::Dir { children, .. } => {
            let n = children.len();
            let mut ci: usize = 0;
            while ci < n
                invariant
                    ci <= n,
                    out.deep_view() + entries_top(children@, ci as int) =~= entries_top(
                        children@,
                        0,
                    ),
                decreases n - ci,
            {
                let child = &children[ci];
                let child_rel = String::from_str(child.name().as_str());
                proof {
                    assert(decreases_to!(children@ => children@[ci as int]));
                }
                package_node(child, child_rel.as_str(), &mut out);
                proof {
                    assert(out.deep_view() + entries_top(children@, ci + 1) =~= entries_top(
                        children@,
                        0,
                    ));
                }
                ci = ci + 1;
            }
            out
        },
    }
}

/// The archive file name of one build: the module id, a hyphen, the
/// version code, and the `.zip` ending.
pub fn archive_file_name(id: &str, version_code: u64) -> (r: String)
    ensures
        r@ == id@ + "-"@ + dec_rep(version_code as nat) + ".zip"@,
{
    let mut s = String::from_str(id);
    s.append("-");
    let num = u64_to_dec(version_code);
    s.append(num.as_str());
    s.append(".zip");
    s
}

} // verus!
