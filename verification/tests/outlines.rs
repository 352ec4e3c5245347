use tide::outline::{tree_rows, TreeItem, TreeRow, TreeStyle};
use tide::path::{FilePath, PathSet};

fn item(p: &str, id: usize) -> TreeItem {
    TreeItem { comps: p.split('/').map(|s| s.to_string()).collect(), id }
}

fn show(rows: &[TreeRow]) -> Vec<String> {
    rows.iter()
        .map(|r| match r {
            TreeRow::Dir { depth, key, label, ids } => format!("{} {} [{}] {:?}", depth, label, key.to_text(), ids),
            TreeRow::Leaf { depth, name, id } => format!("{} {} {}", depth, name, id),
        })
        .collect()
}

#[test]
fn directories_come_before_files() {
    let v = vec![item("z.rs", 0), item("src/b.rs", 1), item("src/a.rs", 2), item("a.rs", 3)];
    let rows = tree_rows(&v, 0, TreeStyle { compress: false, sort_leaves: true }, &PathSet::new());
    assert_eq!(show(&rows), vec!["0 src [src] [1, 2]", "1 a.rs 2", "1 b.rs 1", "0 a.rs 3", "0 z.rs 0"]);
}

#[test]
fn chains_of_single_directories_are_joined() {
    let v = vec![item("a/b/c/x", 0), item("a/b/c/y", 1)];
    let joined = tree_rows(&v, 1, TreeStyle { compress: true, sort_leaves: true }, &PathSet::new());
    assert_eq!(show(&joined), vec!["1 a/b/c [a/b/c] [0, 1]", "2 x 0", "2 y 1"]);
    let plain = tree_rows(&v, 1, TreeStyle { compress: false, sort_leaves: true }, &PathSet::new());
    assert_eq!(plain.len(), 5);
}

#[test]
fn collapsed_directories_hide_what_is_in_them() {
    let v = vec![item("a/x", 0), item("b/y", 1)];
    let mut c = PathSet::new();
    c.insert(FilePath::parse("a"));
    let rows = tree_rows(&v, 0, TreeStyle { compress: false, sort_leaves: true }, &c);
    assert_eq!(show(&rows), vec!["0 a [a] [0]", "0 b [b] [1]", "1 y 1"]);
}

#[test]
fn nothing_has_no_rows() {
    assert!(tree_rows(&Vec::new(), 0, TreeStyle { compress: true, sort_leaves: false }, &PathSet::new()).is_empty());
}
