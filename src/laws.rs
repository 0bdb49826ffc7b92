//! Properties of the trees that `index_file_tree` builds.
use vstd::prelude::*;
use crate::tree::{all_index, dir_entries, Entry, TreeNode};

verus! {

/// Every directory named in the listing, at any depth, has a non-empty path.
pub open spec fn dir_paths_nonempty(s: Seq<Entry>) -> bool
    decreases s,
{
    s.len() == 0 || (dir_paths_nonempty(s.drop_last()) && match s.last() {
        Entry::Dir { path, entries } => path@.len() > 0 && dir_paths_nonempty(entries@),
        _ => true,
    })
}

/// No node of `s`, nor any node beneath one, is marked as the root.
pub open spec fn none_marked_root(s: Seq<TreeNode>) -> bool
    decreases s,
{
    s.len() == 0 || (none_marked_root(s.drop_last()) && !s.last().is_root
        && none_marked_root(s.last().dir_list@))
}

/// The directories of a listing each have a non-empty path, and so do those
/// beneath them.
pub open spec fn dirs_nonempty(d: Seq<(Seq<char>, Seq<Entry>)>) -> bool {
    forall|i: int|
        0 <= i < d.len() ==> (#[trigger] d[i]).0.len() > 0 && dir_paths_nonempty(d[i].1)
}

proof fn lemma_dir_entries_nonempty(s: Seq<Entry>)
    requires
        dir_paths_nonempty(s),
    ensures
        dirs_nonempty(dir_entries(s)),
    decreases s.len(),
{
    if s.len() > 0 {
        lemma_dir_entries_nonempty(s.drop_last());
    }
}

proof fn lemma_children_not_root(nodes: Seq<TreeNode>, parent: Seq<char>, d: Seq<(Seq<char>, Seq<Entry>)>)
    requires
        all_index(nodes, parent, d),
        parent.len() > 0,
        dirs_nonempty(d),
    ensures
        none_marked_root(nodes),
    decreases nodes,
{
    if nodes.len() > 0 {
        let last = nodes.last();
        assert(all_index(nodes.drop_last(), parent, d.drop_last()));
        assert(last.indexes(d.last().0, parent, d.last().1));
        assert(all_index(last.dir_list@, d.last().0, dir_entries(d.last().1)));
        assert(!last.is_root);
        assert forall|i: int| 0 <= i < d.drop_last().len() implies (#[trigger] d.drop_last()[i]).0.len() > 0
            && dir_paths_nonempty(d.drop_last()[i].1) by {
            assert(d.drop_last()[i] == d[i]);
        }
        lemma_children_not_root(nodes.drop_last(), parent, d.drop_last());
        assert(d[d.len() - 1] == d.last());
        lemma_dir_entries_nonempty(d.last().1);
        lemma_children_not_root(last.dir_list@, d.last().0, dir_entries(d.last().1));
    }
}

/// A scan marks exactly one node as the root: the node of the path it was
/// given, built with an empty parent path. This holds whenever the scanned
/// path and the paths of the directories in the listing are non-empty.
pub proof fn lemma_single_root(root: TreeNode, path: Seq<char>, entries: Seq<Entry>)
    requires
        root.indexes(path, Seq::empty(), entries),
        path.len() > 0,
        dir_paths_nonempty(entries),
    ensures
        root.is_root,
        root.path@ == path,
        none_marked_root(root.dir_list@),
{
    lemma_dir_entries_nonempty(entries);
    lemma_children_not_root(root.dir_list@, path, dir_entries(entries));
}

proof fn lemma_child_paths(nodes: Seq<TreeNode>, parent: Seq<char>, d: Seq<(Seq<char>, Seq<Entry>)>)
    requires
        all_index(nodes, parent, d),
    ensures
        nodes.map_values(|n: TreeNode| n.path@) == d.map_values(|e: (Seq<char>, Seq<Entry>)| e.0),
    decreases nodes.len(),
{
    if nodes.len() > 0 {
        assert(all_index(nodes.drop_last(), parent, d.drop_last()));
        assert(nodes.last().indexes(d.last().0, parent, d.last().1));
        lemma_child_paths(nodes.drop_last(), parent, d.drop_last());
        assert(nodes.map_values(|n: TreeNode| n.path@) =~= nodes.drop_last().map_values(
            |n: TreeNode| n.path@,
        ).push(nodes.last().path@));
        assert(d.map_values(|e: (Seq<char>, Seq<Entry>)| e.0) =~= d.drop_last().map_values(
            |e: (Seq<char>, Seq<Entry>)| e.0,
        ).push(d.last().0));
    } else {
        assert(nodes.map_values(|n: TreeNode| n.path@) =~= d.map_values(
            |e: (Seq<char>, Seq<Entry>)| e.0,
        ));
    }
}

/// Scanning an unchanged listing twice gives the same total size, the same
/// subdirectory paths and the same files.
pub proof fn lemma_rescan_same(
    a: TreeNode,
    b: TreeNode,
    path: Seq<char>,
    parent: Seq<char>,
    entries: Seq<Entry>,
)
    requires
        a.indexes(path, parent, entries),
        b.indexes(path, parent, entries),
    ensures
        a.size == b.size,
        a.dir_list@.map_values(|n: TreeNode| n.path@).to_set() == b.dir_list@.map_values(
            |n: TreeNode| n.path@,
        ).to_set(),
        a.file_list@.map_values(|f: crate::tree::File| crate::tree::file_view(f)).to_set()
            == b.file_list@.map_values(|f: crate::tree::File| crate::tree::file_view(f)).to_set(),
{
    lemma_child_paths(a.dir_list@, path, dir_entries(entries));
    lemma_child_paths(b.dir_list@, path, dir_entries(entries));
}

} // verus!
