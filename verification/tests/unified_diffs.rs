use tide::diff::DiffKind;
use tide::unified::{same_rows, unified_rows};

#[test]
fn changed_lines_stand_beside_each_other() {
    let v = unified_rows("diff --git a b\n--- a\n+++ b\n@@ -1,4 +1,4 @@\n one\n-two\n-three\n+TWO\n four\n+five\n\\ No newline at end of file\n");
    let got: Vec<(Option<&str>, Option<&str>, Option<usize>, Option<usize>, DiffKind)> =
        v.iter().map(|r| (r.left.as_deref(), r.right.as_deref(), r.left_no, r.right_no, r.kind)).collect();
    assert_eq!(
        got,
        vec![
            (Some("one"), Some("one"), Some(1), Some(1), DiffKind::Equal),
            (Some("two"), Some("TWO"), Some(2), Some(2), DiffKind::Replace),
            (Some("three"), None, Some(3), None, DiffKind::Del),
            (Some("four"), Some("four"), Some(4), Some(3), DiffKind::Equal),
            (None, Some("five"), None, Some(4), DiffKind::Ins),
        ]
    );
}

#[test]
fn both_texts_can_be_read_off_the_rows() {
    let v = unified_rows("@@ -1,3 +1,3 @@\n-a\n b\n-c\n+d\n+e\n");
    let left: Vec<&str> = v.iter().filter_map(|r| r.left.as_deref()).collect();
    let right: Vec<&str> = v.iter().filter_map(|r| r.right.as_deref()).collect();
    assert_eq!(left, vec!["a", "b", "c"]);
    assert_eq!(right, vec!["b", "d", "e"]);
}

#[test]
fn the_same_text_has_equal_rows() {
    let v = same_rows("x\ny\n");
    assert_eq!(v.len(), 2);
    assert!(v.iter().all(|r| r.kind == DiffKind::Equal && r.left == r.right));
    assert_eq!(v[1].right_no, Some(2));
    assert!(unified_rows("no heading\n+x\n").is_empty());
}
