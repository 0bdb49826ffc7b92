//! The directory tree: a listing of the filesystem as read, the owned tree of
//! aggregated sizes built from it, and the warnings for what could not be read.
use vstd::prelude::*;

verus! {

/// Which read failed for an entry of a directory listing.
#[derive(Clone, Copy, PartialEq, Eq, Debug)]
pub enum ReadFailure {
    /// The entry itself could not be read from the listing.
    Entry,
    /// The entry's path is not valid text.
    Path,
    /// The entry's metadata could not be read.
    Metadata,
    /// The entry is a directory whose own listing could not be read.
    Listing,
}

/// One entry of a directory listing, as read from the filesystem.
pub enum Entry {
    /// An entry that could not be read, with the error's description.
    Failed { part: ReadFailure, detail: String },
    /// Anything that is not a directory, with the size its metadata reports.
    File { path: String, size: u64 },
    /// A directory, with the listing of its own entries.
    Dir { path: String, entries: Vec<Entry> },
}

/// A file of the tree.
pub struct File {
    pub size: u64,
    pub path: String,
}

/// A directory of the tree.
pub struct TreeNode {
    /// Path to the directory.
    pub path: String,
    /// Path to the directory above this one; empty for the scan root.
    pub upward_path: String,
    /// Bytes taken by everything from this node down.
    pub size: u64,
    /// Whether this node is the root of the scan.
    pub is_root: bool,
    /// Subdirectories, in listing order.
    pub dir_list: Vec<TreeNode>,
    /// Files, in listing order.
    pub file_list: Vec<File>,
}

/// Why a tree could not be built.
#[derive(Clone, Copy, PartialEq, Eq, Debug)]
pub enum IndexError {
    /// The total size beneath some directory exceeds `u64::MAX` bytes.
    SizeOverflow,
}

/// Bytes that an entry contributes to its directory: a file its size, a
/// directory the total of its listing, an unreadable entry nothing.
pub open spec fn entries_total(s: Seq<Entry>) -> int
    decreases s,
{
    if s.len() == 0 {
        0
    } else {
        entries_total(s.drop_last()) + match s.last() {
            Entry::File { size, .. } => size as int,
            Entry::Dir { entries, .. } => entries_total(entries@),
            Entry::Failed { .. } => 0,
        }
    }
}

/// The files of a listing, as path and size, in order.
pub open spec fn file_entries(s: Seq<Entry>) -> Seq<(Seq<char>, u64)>
    decreases s.len(),
{
    if s.len() == 0 {
        Seq::empty()
    } else {
        let rest = file_entries(s.drop_last());
        match s.last() {
            Entry::File { path, size } => rest.push((path@, size)),
            _ => rest,
        }
    }
}

/// The directories of a listing, as path and own listing, in order.
pub open spec fn dir_entries(s: Seq<Entry>) -> Seq<(Seq<char>, Seq<Entry>)>
    decreases s.len(),
{
    if s.len() == 0 {
        Seq::empty()
    } else {
        let rest = dir_entries(s.drop_last());
        match s.last() {
            Entry::Dir { path, entries } => rest.push((path@, entries@)),
            _ => rest,
        }
    }
}

/// Sum of the sizes of the directories of `s`.
pub open spec fn sum_dir_sizes(s: Seq<TreeNode>) -> int
    decreases s.len(),
{
    if s.len() == 0 {
        0
    } else {
        sum_dir_sizes(s.drop_last()) + s.last().size
    }
}

/// Sum of the sizes of the files of `s`.
pub open spec fn sum_file_sizes(s: Seq<File>) -> int
    decreases s.len(),
{
    if s.len() == 0 {
        0
    } else {
        sum_file_sizes(s.drop_last()) + s.last().size
    }
}

/// A file as path and size.
pub open spec fn file_view(f: File) -> (Seq<char>, u64) {
    (f.path@, f.size)
}

/// Every node of `s` is well formed.
pub open spec fn all_well_formed(s: Seq<TreeNode>) -> bool
    decreases s,
{
    s.len() == 0 || (all_well_formed(s.drop_last()) && s.last().well_formed())
}

/// Each node of `nodes` is the tree of the directory that stands at the same
/// position in `dirs`, reached from `parent`.
pub open spec fn all_index(
    nodes: Seq<TreeNode>,
    parent: Seq<char>,
    dirs: Seq<(Seq<char>, Seq<Entry>)>,
) -> bool
    decreases nodes,
{
    &&& nodes.len() == dirs.len()
    &&& (nodes.len() == 0 || (all_index(nodes.drop_last(), parent, dirs.drop_last())
        && nodes.last().indexes(dirs.last().0, parent, dirs.last().1)))
}

impl TreeNode {
    /// The size of every node is the sum of the sizes of its subdirectories
    /// and files.
    pub open spec fn well_formed(self) -> bool
        decreases self,
    {
        &&& self.size == sum_dir_sizes(self.dir_list@) + sum_file_sizes(self.file_list@)
        &&& all_well_formed(self.dir_list@)
    }

    /// This node is the tree of the directory `path`, reached from `parent`,
    /// whose listing is `entries`: files and subdirectories in listing order,
    /// unreadable entries left out, sizes aggregated.
    pub open spec fn indexes(self, path: Seq<char>, parent: Seq<char>, entries: Seq<Entry>) -> bool
        decreases self,
    {
        &&& self.path@ == path
        &&& self.upward_path@ == parent
        &&& self.is_root == (parent.len() == 0)
        &&& self.size == entries_total(entries)
        &&& self.file_list@.map_values(|f: File| file_view(f)) == file_entries(entries)
        &&& all_index(self.dir_list@, path, dir_entries(entries))
    }
}

proof fn lemma_total_nonneg(s: Seq<Entry>)
    ensures
        entries_total(s) >= 0,
    decreases s,
{
    if s.len() > 0 {
        lemma_total_nonneg(s.drop_last());
        if let Entry::Dir { entries, .. } = s.last() {
            lemma_total_nonneg(entries@);
        }
    }
}

proof fn lemma_total_prefix(s: Seq<Entry>, i: int)
    requires
        0 <= i <= s.len(),
    ensures
        entries_total(s.take(i)) <= entries_total(s),
    decreases s.len(),
{
    if i == s.len() {
        assert(s.take(i) =~= s);
    } else {
        lemma_total_prefix(s.drop_last(), i);
        assert(s.drop_last().take(i) =~= s.take(i));
        if let Entry::Dir { entries, .. } = s.last() {
            lemma_total_nonneg(entries@);
        }
    }
}

/// Builds the tree of the directory `curr_path`, reached from `old_path`
/// (empty for the scan root), from its listing. Unreadable entries are
/// skipped; the build fails only when a total does not fit in a `u64`.
pub fn index_file_tree(curr_path: String, old_path: String, entries: &Vec<Entry>) -> (r: Result<
    TreeNode,
    IndexError,
>)
    ensures
        r is Err <==> entries_total(entries@) > u64::MAX,
        r is Ok ==> r->Ok_0.indexes(curr_path@, old_path@, entries@),
        r is Ok ==> r->Ok_0.well_formed(),
    decreases entries,
{
    let is_root = old_path == String::new();
    proof {
        if old_path@.len() == 0 {
            assert(old_path@ =~= Seq::<char>::empty());
        }
    }
    let mut dir_list: Vec<TreeNode> = Vec::new();
    let mut file_list: Vec<File> = Vec::new();
    let mut total: u64 = 0;
    let mut i: usize = 0;
    while i < entries.len()
        invariant
            i <= entries.len(),
            total == entries_total(entries@.take(i as int)),
            total == sum_dir_sizes(dir_list@) + sum_file_sizes(file_list@),
            file_list@.map_values(|f: File| file_view(f)) == file_entries(entries@.take(i as int)),
            all_index(dir_list@, curr_path@, dir_entries(entries@.take(i as int))),
            all_well_formed(dir_list@),
        decreases entries.len() - i,
    {
        let ghost prefix = entries@.take(i as int);
        let ghost next = entries@.take(i + 1);
        proof {
            assert(next.drop_last() =~= prefix);
            assert(next.last() == entries@[i as int]);
            lemma_total_prefix(entries@, i + 1);
        }
        match &entries[i] {
            Entry::Failed { .. } => {},
            Entry::File { path, size } => {
                match total.checked_add(*size) {
                    None => {
                        return Err(IndexError::SizeOverflow);
                    },
                    Some(t) => {
                        total = t;
                    },
                }
                let ghost old_files = file_list@;
                file_list.push(File { size: *size, path: path.clone() });
                proof {
                    assert(file_list@.drop_last() =~= old_files);
                    assert(file_list@.map_values(|f: File| file_view(f)) =~= old_files.map_values(
                        |f: File| file_view(f),
                    ).push((path@, *size)));
                }
            },
            Entry::Dir { path, entries: sub } => {
                proof {
                    lemma_total_nonneg(prefix);
                }
                let child = index_file_tree(path.clone(), curr_path.clone(), sub);
                match child {
                    Err(e) => {
                        return Err(e);
                    },
                    Ok(node) => {
                        match total.checked_add(node.size) {
                            None => {
                                return Err(IndexError::SizeOverflow);
                            },
                            Some(t) => {
                                total = t;
                            },
                        }
                        let ghost old_dirs = dir_list@;
                        dir_list.push(node);
                        proof {
                            assert(dir_list@.drop_last() =~= old_dirs);
                            assert(dir_entries(next) == dir_entries(prefix).push((path@, sub@)));
                            assert(dir_entries(next).drop_last() =~= dir_entries(prefix));
                        }
                    },
                }
            },
        }
        i = i + 1;
    }
    proof {
        assert(entries@.take(entries.len() as int) =~= entries@);
    }
    Ok(TreeNode { path: curr_path, upward_path: old_path, size: total, is_root, dir_list, file_list })
}

/// The opening of the warning for an entry that could not be read.
pub open spec fn failure_prefix(part: ReadFailure) -> Seq<char> {
    match part {
        ReadFailure::Entry => "Unable to read entry due to "@,
        ReadFailure::Path => "Unable to read path due to "@,
        ReadFailure::Metadata => "Unable to read metadata due to "@,
        ReadFailure::Listing => "Unable to read directory due to "@,
    }
}

/// The warnings for the unreadable entries of a listing and of the listings
/// beneath it, depth first, in listing order.
pub open spec fn warnings_of(s: Seq<Entry>) -> Seq<Seq<char>>
    decreases s,
{
    if s.len() == 0 {
        Seq::empty()
    } else {
        warnings_of(s.drop_last()) + match s.last() {
            Entry::Failed { part, detail } => seq![failure_prefix(part) + detail@],
            Entry::Dir { entries, .. } => warnings_of(entries@),
            Entry::File { .. } => Seq::empty(),
        }
    }
}

/// The text of each string of `v`.
pub open spec fn texts(v: Seq<String>) -> Seq<Seq<char>> {
    v.map_values(|w: String| w@)
}

/// The warning for an entry that could not be read.
pub fn warning_text(part: ReadFailure, detail: &String) -> (r: String)
    ensures
        r@ == failure_prefix(part) + detail@,
{
    let prefix = match part {
        ReadFailure::Entry => "Unable to read entry due to ",
        ReadFailure::Path => "Unable to read path due to ",
        ReadFailure::Metadata => "Unable to read metadata due to ",
        ReadFailure::Listing => "Unable to read directory due to ",
    };
    proof {
        reveal_strlit("Unable to read entry due to ");
        reveal_strlit("Unable to read path due to ");
        reveal_strlit("Unable to read metadata due to ");
        reveal_strlit("Unable to read directory due to ");
    }
    String::from_str(prefix).concat(detail.as_str())
}

/// Appends to `out` the warnings for everything in `entries` that could not
/// be read, including what lies in the listings of its subdirectories.
pub fn collect_warnings(entries: &Vec<Entry>, out: &mut Vec<String>)
    ensures
        texts(final(out)@) == texts(old(out)@) + warnings_of(entries@),
    decreases entries,
{
    let mut i: usize = 0;
    while i < entries.len()
        invariant
            i <= entries.len(),
            texts(out@) == texts(old(out)@) + warnings_of(entries@.take(i as int)),
        decreases entries.len() - i,
    {
        let ghost prefix = entries@.take(i as int);
        let ghost next = entries@.take(i + 1);
        let ghost before = out@;
        proof {
            assert(next.drop_last() =~= prefix);
            assert(next.last() == entries@[i as int]);
        }
        match &entries[i] {
            Entry::Failed { part, detail } => {
                let w = warning_text(*part, detail);
                out.push(w);
                proof {
                    assert(texts(out@) =~= texts(before).push(w@));
                    assert(texts(out@) =~= texts(old(out)@) + warnings_of(next));
                }
            },
            Entry::Dir { entries: sub, .. } => {
                collect_warnings(sub, out);
                proof {
                    assert(texts(out@) =~= texts(old(out)@) + warnings_of(next));
                }
            },
            Entry::File { .. } => {
                proof {
                    assert(warnings_of(next) =~= warnings_of(prefix));
                }
            },
        }
        i = i + 1;
    }
    proof {
        assert(entries@.take(entries.len() as int) =~= entries@);
    }
}

} // verus!
