use disk_usage::render::{order_by_size, render_lines};
use disk_usage::tree::{collect_warnings, index_file_tree, warning_text, Entry, IndexError, ReadFailure, TreeNode};

fn file(path: &str, size: u64) -> Entry {
    Entry::File { path: path.to_string(), size }
}

fn dir(path: &str, entries: Vec<Entry>) -> Entry {
    Entry::Dir { path: path.to_string(), entries }
}

fn failed(part: ReadFailure, detail: &str) -> Entry {
    Entry::Failed { part, detail: detail.to_string() }
}

fn scan(path: &str, entries: &Vec<Entry>) -> TreeNode {
    match index_file_tree(path.to_string(), String::new(), entries) {
        Ok(n) => n,
        Err(_) => panic!("scan failed"),
    }
}

fn assert_sizes_add_up(n: &TreeNode) {
    let dirs: u64 = n.dir_list.iter().map(|d| d.size).sum();
    let files: u64 = n.file_list.iter().map(|f| f.size).sum();
    assert_eq!(n.size, dirs + files);
    for d in &n.dir_list {
        assert_sizes_add_up(d);
    }
}

fn count_roots(n: &TreeNode) -> usize {
    let own = if n.is_root { 1 } else { 0 };
    own + n.dir_list.iter().map(count_roots).sum::<usize>()
}

fn sample() -> Vec<Entry> {
    vec![
        dir("/r/A", vec![file("/r/A/x", 150), dir("/r/A/deep", vec![file("/r/A/deep/y", 50)])]),
        file("/r/f.txt", 10),
        dir("/r/B", vec![file("/r/B/z", 50)]),
    ]
}

#[test]
fn empty_directory() {
    let n = scan("/empty", &Vec::new());
    assert_eq!(n.size, 0);
    assert!(n.dir_list.is_empty());
    assert!(n.file_list.is_empty());
    assert!(n.is_root);
    assert_eq!(n.path, "/empty");
    assert_eq!(n.upward_path, "");
}

#[test]
fn unreadable_entry_is_skipped_with_warning() {
    let entries = vec![failed(ReadFailure::Metadata, "permission denied"), file("/d/ok", 100)];
    let n = scan("/d", &entries);
    assert_eq!(n.size, 100);
    assert_eq!(n.file_list.len(), 1);
    assert!(n.dir_list.is_empty());
    let mut warnings = Vec::new();
    collect_warnings(&entries, &mut warnings);
    assert_eq!(warnings, vec!["Unable to read metadata due to permission denied".to_string()]);
}

#[test]
fn unlistable_subdirectory_is_skipped() {
    let entries = vec![failed(ReadFailure::Listing, "/d/locked: denied"), file("/d/ok", 3)];
    let n = scan("/d", &entries);
    assert_eq!(n.size, 3);
    assert!(n.dir_list.is_empty());
}

#[test]
fn warnings_follow_listing_order_at_every_depth() {
    let entries = vec![
        failed(ReadFailure::Entry, "e1"),
        dir("/d/s", vec![failed(ReadFailure::Path, "p1"), file("/d/s/f", 1)]),
        failed(ReadFailure::Listing, "l1"),
    ];
    let mut warnings = vec!["earlier".to_string()];
    collect_warnings(&entries, &mut warnings);
    assert_eq!(
        warnings,
        vec![
            "earlier".to_string(),
            "Unable to read entry due to e1".to_string(),
            "Unable to read path due to p1".to_string(),
            "Unable to read directory due to l1".to_string(),
        ]
    );
}

#[test]
fn warning_texts() {
    let d = "boom".to_string();
    assert_eq!(warning_text(ReadFailure::Entry, &d), "Unable to read entry due to boom");
    assert_eq!(warning_text(ReadFailure::Path, &d), "Unable to read path due to boom");
    assert_eq!(warning_text(ReadFailure::Metadata, &d), "Unable to read metadata due to boom");
    assert_eq!(warning_text(ReadFailure::Listing, &d), "Unable to read directory due to boom");
}

#[test]
fn sizes_aggregate_through_the_tree() {
    let n = scan("/r", &sample());
    assert_eq!(n.size, 260);
    assert_eq!(n.dir_list.len(), 2);
    assert_eq!(n.dir_list[0].path, "/r/A");
    assert_eq!(n.dir_list[0].size, 200);
    assert_eq!(n.dir_list[0].dir_list[0].size, 50);
    assert_eq!(n.dir_list[1].path, "/r/B");
    assert_eq!(n.dir_list[1].size, 50);
    assert_eq!(n.file_list[0].path, "/r/f.txt");
    assert_eq!(n.file_list[0].size, 10);
    assert_sizes_add_up(&n);
}

#[test]
fn only_the_scanned_node_is_root() {
    let n = scan("/r", &sample());
    assert!(n.is_root);
    assert_eq!(count_roots(&n), 1);
    assert_eq!(n.dir_list[0].upward_path, "/r");
    assert_eq!(n.dir_list[0].dir_list[0].upward_path, "/r/A");
    let sub = index_file_tree("/r/A".to_string(), "/r".to_string(), &Vec::new()).unwrap();
    assert!(!sub.is_root);
}

#[test]
fn rescanning_gives_the_same_tree() {
    let entries = sample();
    let a = scan("/r", &entries);
    let b = scan("/r", &entries);
    assert_eq!(a.size, b.size);
    let pa: Vec<&String> = a.dir_list.iter().map(|d| &d.path).collect();
    let pb: Vec<&String> = b.dir_list.iter().map(|d| &d.path).collect();
    assert_eq!(pa, pb);
}

#[test]
fn total_beyond_u64_is_an_error() {
    let entries = vec![file("/a", u64::MAX), file("/b", 1)];
    assert!(matches!(
        index_file_tree("/".to_string(), String::new(), &entries),
        Err(IndexError::SizeOverflow)
    ));
    let nested = vec![dir("/s", vec![file("/s/a", u64::MAX - 1), file("/s/b", 2)])];
    assert!(matches!(
        index_file_tree("/".to_string(), String::new(), &nested),
        Err(IndexError::SizeOverflow)
    ));
    let exact = vec![file("/a", u64::MAX - 1), file("/b", 1)];
    assert_eq!(scan("/", &exact).size, u64::MAX);
}

#[test]
fn end_to_end_report() {
    let n = scan("/r", &sample());
    let lines = render_lines(&n);
    assert_eq!(
        lines,
        vec![
            "==== /r (root) ====".to_string(),
            "Directory size: 260 B".to_string(),
            "".to_string(),
            "Subdirectories:".to_string(),
            " - A, size: 200 B".to_string(),
            " - B, size: 50 B".to_string(),
            "".to_string(),
            "Files:".to_string(),
            " - f.txt, size: 10 B".to_string(),
        ]
    );
}

#[test]
fn report_lists_largest_subdirectory_first() {
    let entries = vec![
        dir("/r/small", vec![file("/r/small/a", 5)]),
        dir("/r/big", vec![file("/r/big/a", 5000)]),
        dir("/r/mid", vec![file("/r/mid/a", 700)]),
        dir("/r/mid2", vec![file("/r/mid2/a", 700)]),
    ];
    let n = scan("/r", &entries);
    assert_eq!(order_by_size(&n), vec![1, 2, 3, 0]);
    let lines = render_lines(&n);
    assert_eq!(lines[4], " - big, size: 5 KB");
    assert_eq!(lines[5], " - mid, size: 700 B");
    assert_eq!(lines[6], " - mid2, size: 700 B");
    assert_eq!(lines[7], " - small, size: 5 B");
    let sizes: Vec<u64> = order_by_size(&n).iter().map(|&k| n.dir_list[k].size).collect();
    assert!(sizes.windows(2).all(|w| w[0] >= w[1]));
}

#[test]
fn report_of_a_non_root_node() {
    let n = index_file_tree("/r/A".to_string(), "/r".to_string(), &vec![file("/r/A/x", 1500)]).unwrap();
    let lines = render_lines(&n);
    assert_eq!(lines[0], "==== /r/A ====");
    assert_eq!(lines[1], "Directory size: 1 KB");
    assert_eq!(lines[4], "");
    assert_eq!(lines[5], "Files:");
    assert_eq!(lines[6], " - x, size: 1 KB");
    assert_eq!(lines.len(), 7);
}
