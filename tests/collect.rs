use webp_batch::engine::tally;
use webp_batch::tree::{descends, flatten, Node};

fn parts(s: &str) -> Vec<String> {
    let mut v: Vec<String> = Vec::new();
    if s.starts_with('/') {
        v.push("/".to_string());
    }
    for c in s.split('/').filter(|c| !c.is_empty()) {
        v.push(c.to_string());
    }
    v
}

fn file(s: &str) -> Node {
    Node::File(parts(s))
}

fn dir(s: &str, entries: Vec<Node>) -> Node {
    Node::Dir(parts(s), entries)
}

/// A chain of directories `root/d1/.../d{depth-1}` holding one file at `depth`.
fn chain(depth: usize) -> Node {
    let mut names: Vec<String> = vec!["root".to_string()];
    for i in 1..depth {
        names.push(format!("d{}", i));
    }
    let mut file_path = names.clone();
    file_path.push("deep.png".to_string());
    let mut node = Node::File(file_path);
    for k in (1..=names.len()).rev() {
        node = Node::Dir(names[..k].to_vec(), vec![node]);
    }
    node
}

#[test]
fn single_file_root_ignores_depth() {
    for max_depth in [0u16, 1, 8, u16::MAX] {
        let got = flatten(&file("a/img.png"), max_depth);
        assert_eq!(got, vec![parts("a/img.png")]);
    }
}

#[test]
fn file_at_depth_nine_is_left_out_at_eight() {
    let tree = chain(9);
    let files = flatten(&tree, 8);
    assert!(files.is_empty());
    let outcomes: Vec<(u64, Result<u64, webp_batch::paths::FileError>)> =
        files.iter().map(|_| (1, Ok(1))).collect();
    let totals = tally(&outcomes).unwrap();
    assert_eq!((totals.count, totals.input_size, totals.output_size), (0, 0, 0));
    assert_eq!(flatten(&tree, 9).len(), 1);
}

#[test]
fn nested_tree_is_cut_at_the_bound() {
    let tree = dir(
        "a",
        vec![
            file("a/top.png"),
            dir("a/b", vec![file("a/b/img.png"), dir("a/b/c", vec![file("a/b/c/low.png")])]),
            Node::Other,
        ],
    );
    assert!(flatten(&tree, 0).is_empty());
    assert_eq!(flatten(&tree, 1), vec![parts("a/top.png")]);
    assert_eq!(flatten(&tree, 2), vec![parts("a/top.png"), parts("a/b/img.png")]);
    assert_eq!(
        flatten(&tree, 8),
        vec![parts("a/top.png"), parts("a/b/img.png"), parts("a/b/c/low.png")]
    );
}

#[test]
fn unreadable_entry_skips_only_itself() {
    let tree = dir("a", vec![Node::Other, file("a/x.png"), Node::Other, file("a/y.png")]);
    assert_eq!(flatten(&tree, 8), vec![parts("a/x.png"), parts("a/y.png")]);
}

#[test]
fn empty_directory_gives_nothing() {
    assert!(flatten(&dir("a", vec![]), 8).is_empty());
    assert!(flatten(&Node::Other, 8).is_empty());
}

#[test]
fn descends_below_the_bound_only() {
    assert!(descends(0, 8));
    assert!(descends(7, 8));
    assert!(!descends(8, 8));
    assert!(!descends(0, 0));
}
