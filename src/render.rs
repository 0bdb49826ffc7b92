//! The one-level report of a directory: its header and total, its
//! subdirectories largest first, then its files.
use vstd::prelude::*;
use crate::format::{last_segment, last_segment_spec, pp_bytes, pp_bytes_spec};
use crate::tree::{texts, File, TreeNode};

verus! {

/// `p` lists each position of `dirs` once, largest size first; positions of
/// equal size keep their listing order.
pub open spec fn is_size_order(dirs: Seq<TreeNode>, p: Seq<usize>) -> bool {
    &&& p.len() == dirs.len()
    &&& p.no_duplicates()
    &&& forall|k: int| 0 <= k < p.len() ==> p[k] < dirs.len()
    &&& forall|a: int, b: int|
        0 <= a < b < p.len() ==> dirs[p[a] as int].size >= dirs[p[b] as int].size
    &&& forall|a: int, b: int|
        0 <= a < b < p.len() && dirs[p[a] as int].size == dirs[p[b] as int].size ==> p[a] < p[b]
}

/// The positions `0..n` ordered as `is_size_order` asks, over the first `n`
/// entries of `dirs`.
pub open spec fn is_prefix_order(dirs: Seq<TreeNode>, p: Seq<usize>, n: int) -> bool {
    &&& p.len() == n
    &&& p.no_duplicates()
    &&& forall|k: int| 0 <= k < p.len() ==> p[k] < n
    &&& forall|a: int, b: int|
        0 <= a < b < p.len() ==> dirs[p[a] as int].size >= dirs[p[b] as int].size
    &&& forall|a: int, b: int|
        0 <= a < b < p.len() && dirs[p[a] as int].size == dirs[p[b] as int].size ==> p[a] < p[b]
}

/// The order in which the report lists the subdirectories of `node`:
/// largest first, ties in listing order.
pub fn order_by_size(node: &TreeNode) -> (r: Vec<usize>)
    ensures
        is_size_order(node.dir_list@, r@),
{
    let dirs = &node.dir_list;
    let mut r: Vec<usize> = Vec::new();
    let mut i: usize = 0;
    while i < dirs.len()
        invariant
            i <= dirs.len(),
            is_prefix_order(dirs@, r@, i as int),
        decreases dirs.len() - i,
    {
        let s = dirs[i].size;
        let mut pos: usize = 0;
        while pos < r.len() && dirs[r[pos]].size >= s
            invariant
                pos <= r.len(),
                is_prefix_order(dirs@, r@, i as int),
                i < dirs.len(),
                s == dirs@[i as int].size,
                forall|k: int| 0 <= k < pos ==> dirs@[r@[k] as int].size >= s,
            decreases r.len() - pos,
        {
            pos = pos + 1;
        }
        let ghost old_r = r@;
        r.insert(pos, i);
        proof {
            old_r.insert_ensures(pos as int, i);
            let n = r@;
            assert(forall|k: int| pos <= k < old_r.len() ==> dirs@[old_r[k] as int].size < s) by {
                if pos < old_r.len() {
                    assert(dirs@[old_r[pos as int] as int].size < s);
                }
            }
            assert forall|a: int, b: int| 0 <= a < b < n.len() implies n[a] != n[b] by {
                if b < pos {
                    assert(n[a] == old_r[a] && n[b] == old_r[b]);
                } else if b == pos {
                    assert(n[a] == old_r[a]);
                } else if a < pos {
                    assert(n[a] == old_r[a] && n[b] == old_r[b - 1]);
                } else if a == pos {
                    assert(n[b] == old_r[b - 1]);
                } else {
                    assert(n[a] == old_r[a - 1] && n[b] == old_r[b - 1]);
                }
            }
            assert forall|k: int| 0 <= k < n.len() implies n[k] < i + 1 by {
                if k < pos {
                    assert(n[k] == old_r[k]);
                } else if k > pos {
                    assert(n[k] == old_r[k - 1]);
                }
            }
            assert forall|a: int, b: int| 0 <= a < b < n.len() implies dirs@[n[a] as int].size
                >= dirs@[n[b] as int].size && (dirs@[n[a] as int].size == dirs@[n[b] as int].size
                ==> n[a] < n[b]) by {
                if b < pos {
                    assert(n[a] == old_r[a] && n[b] == old_r[b]);
                } else if b == pos {
                    assert(n[a] == old_r[a]);
                } else if a < pos {
                    assert(n[a] == old_r[a] && n[b] == old_r[b - 1]);
                } else if a == pos {
                    assert(n[b] == old_r[b - 1]);
                } else {
                    assert(n[a] == old_r[a - 1] && n[b] == old_r[b - 1]);
                }
            }
        }
        i = i + 1;
    }
    r
}

/// The first line of the report: the directory's path, marked when it is the
/// scan root.
pub open spec fn header_line(node: TreeNode) -> Seq<char> {
    if node.is_root {
        "==== "@ + node.path@ + " (root) ===="@
    } else {
        "==== "@ + node.path@ + " ===="@
    }
}

/// The line for one subdirectory or file: its last path segment and its size.
pub open spec fn entry_line(path: Seq<char>, size: u64) -> Seq<char> {
    " - "@ + last_segment_spec(path) + ", size: "@ + pp_bytes_spec(size as nat)
}

/// The subdirectory lines, in the order `p`.
pub open spec fn dir_lines(dirs: Seq<TreeNode>, p: Seq<usize>) -> Seq<Seq<char>> {
    p.map_values(|k: usize| entry_line(dirs[k as int].path@, dirs[k as int].size))
}

/// The file lines, in listing order.
pub open spec fn file_lines(files: Seq<File>) -> Seq<Seq<char>> {
    files.map_values(|f: File| entry_line(f.path@, f.size))
}

/// The report of `node` with its subdirectories in the order `p`.
pub open spec fn report_lines(node: TreeNode, p: Seq<usize>) -> Seq<Seq<char>> {
    seq![
        header_line(node),
        "Directory size: "@ + pp_bytes_spec(node.size as nat),
        ""@,
        "Subdirectories:"@,
    ] + dir_lines(node.dir_list@, p) + seq![""@, "Files:"@] + file_lines(node.file_list@)
}

/// The line for one subdirectory or file.
fn entry_text(path: &String, size: u64) -> (r: String)
    ensures
        r@ == entry_line(path@, size),
{
    let name = last_segment(path.as_str());
    let bytes = pp_bytes(size);
    String::from_str(" - ").concat(name.as_str()).concat(", size: ").concat(bytes.as_str())
}

/// The lines of the one-level report of `node`: a header, the total size,
/// the subdirectories largest first and then the files, each with its last
/// path segment and size. Nothing beneath the subdirectories is shown.
pub fn render_lines(node: &TreeNode) -> (r: Vec<String>)
    ensures
        exists|p: Seq<usize>|
            is_size_order(node.dir_list@, p) && texts(r@) == report_lines(*node, p),
{
    let order = order_by_size(node);
    let mut out: Vec<String> = Vec::new();
    let header = if node.is_root {
        String::from_str("==== ").concat(node.path.as_str()).concat(" (root) ====")
    } else {
        String::from_str("==== ").concat(node.path.as_str()).concat(" ====")
    };
    out.push(header);
    out.push(String::from_str("Directory size: ").concat(pp_bytes(node.size).as_str()));
    out.push(String::from_str(""));
    out.push(String::from_str("Subdirectories:"));
    let ghost head = texts(out@);
    proof {
        assert(head =~= seq![
            header_line(*node),
            "Directory size: "@ + pp_bytes_spec(node.size as nat),
            ""@,
            "Subdirectories:"@,
        ]);
    }
    let mut j: usize = 0;
    while j < order.len()
        invariant
            j <= order.len(),
            is_size_order(node.dir_list@, order@),
            texts(out@) == head + dir_lines(node.dir_list@, order@.take(j as int)),
        decreases order.len() - j,
    {
        let d = &node.dir_list[order[j]];
        let line = entry_text(&d.path, d.size);
        let ghost before = out@;
        out.push(line);
        proof {
            assert(order@.take(j + 1) =~= order@.take(j as int).push(order@[j as int]));
            assert(texts(out@) =~= texts(before).push(line@));
            assert(texts(out@) =~= head + dir_lines(node.dir_list@, order@.take(j + 1)));
        }
        j = j + 1;
    }
    proof {
        assert(order@.take(order.len() as int) =~= order@);
    }
    out.push(String::from_str(""));
    out.push(String::from_str("Files:"));
    let ghost mid = texts(out@);
    proof {
        assert(mid =~= head + dir_lines(node.dir_list@, order@) + seq![""@, "Files:"@]);
    }
    let mut k: usize = 0;
    while k < node.file_list.len()
        invariant
            k <= node.file_list.len(),
            texts(out@) == mid + file_lines(node.file_list@.take(k as int)),
        decreases node.file_list.len() - k,
    {
        let f = &node.file_list[k];
        let line = entry_text(&f.path, f.size);
        let ghost before = out@;
        out.push(line);
        proof {
            assert(node.file_list@.take(k + 1) =~= node.file_list@.take(k as int).push(
                node.file_list@[k as int],
            ));
            assert(texts(out@) =~= texts(before).push(line@));
            assert(texts(out@) =~= mid + file_lines(node.file_list@.take(k + 1)));
        }
        k = k + 1;
    }
    proof {
        assert(node.file_list@.take(node.file_list.len() as int) =~= node.file_list@);
        assert(texts(out@) =~= report_lines(*node, order@));
    }
    out
}

} // verus!
