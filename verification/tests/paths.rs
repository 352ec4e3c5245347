use std::path::{Path, PathBuf};
use tide::order::{add_name, has_text, less_text, sort};
use tide::path::{copy_paths, path_position, FilePath, PathSet};

const SAMPLES: [&str; 16] = [
    "", "/", "a", "/a", "/a/b.rs", "a/./b", "./a", "a//b/", "..", "/a/..", "a/../b", ".hidden", "x.tar.gz", "/a/.b",
    "b.", "é/ü.ts",
];

#[test]
fn components_are_those_of_std() {
    for s in SAMPLES {
        let p = FilePath::parse(s);
        let q = Path::new(s);
        assert_eq!(p.file_name(), q.file_name().map(|n| n.to_string_lossy().to_string()), "{:?}", s);
        assert_eq!(p.extension(), q.extension().map(|n| n.to_string_lossy().to_string()), "{:?}", s);
        let parent = p.parent().map(|d| PathBuf::from(d.to_text()));
        assert_eq!(parent, q.parent().map(|d| d.to_path_buf()), "{:?}", s);
        assert_eq!(PathBuf::from(p.to_text()), q.to_path_buf(), "{:?}", s);
    }
}

#[test]
fn comparisons_are_those_of_std() {
    for s in SAMPLES {
        for t in SAMPLES {
            let (p, q) = (FilePath::parse(s), FilePath::parse(t));
            let (a, b) = (Path::new(s), Path::new(t));
            assert_eq!(p.same(&q), a == b, "{:?} {:?}", s, t);
            assert_eq!(p.less(&q), a < b, "{:?} {:?}", s, t);
            assert_eq!(p.starts_with(&q), a.starts_with(b), "{:?} {:?}", s, t);
            let stripped = p.strip_prefix(&q).map(|x| PathBuf::from(x.to_text()));
            assert_eq!(stripped, a.strip_prefix(b).ok().map(|x| x.to_path_buf()), "{:?} {:?}", s, t);
            assert_eq!(PathBuf::from(p.join(&q).to_text()), a.join(b), "{:?} {:?}", s, t);
        }
    }
}

#[test]
fn a_path_is_shown_below_its_root() {
    let root = FilePath::parse("/work/tide");
    assert_eq!(root.rel(&FilePath::parse("/work/tide/src/main.rs")), "src/main.rs");
    assert_eq!(root.rel(&FilePath::parse("/elsewhere/x")), "/elsewhere/x");
    assert_eq!(root.rel(&root), "");
    assert_eq!(root.join_text("a/b").to_text(), "/work/tide/a/b");
    assert_eq!(root.file_name_text(), "tide");
}

#[test]
fn stripping_and_joining_cancel() {
    let root = FilePath::parse("/r");
    let p = FilePath::parse("/r/x/y");
    let q = p.strip_prefix(&root).unwrap();
    assert!(root.join(&q).same(&p));
}

#[test]
fn a_set_holds_each_path_once() {
    let a = FilePath::parse("/a");
    let b = FilePath::parse("/b");
    let mut s = PathSet::new();
    assert!(s.is_empty());
    assert!(s.insert(a.copy()));
    assert!(!s.insert(a.copy()));
    assert!(s.contains(&a) && !s.contains(&b));
    assert!(s.contains_all(&vec![a.copy(), a.copy()]));
    assert!(!s.contains_all(&vec![a.copy(), b.copy()]));
    assert!(s.remove(&a) && !s.remove(&a));
    assert!(s.is_empty());
}

#[test]
fn toggling_twice_changes_nothing() {
    let a = FilePath::parse("/a");
    let mut s = PathSet::new();
    s.insert(FilePath::parse("/b"));
    let before = s.copy();
    s.toggle(&a);
    assert!(!s.equal(&before));
    s.toggle(&a);
    assert!(s.equal(&before));
}

#[test]
fn equal_sets_may_be_made_in_any_order() {
    let (mut s, mut t) = (PathSet::new(), PathSet::new());
    for p in ["/a", "/b", "/c"] {
        s.insert(FilePath::parse(p));
    }
    for p in ["/c", "/a", "/b"] {
        t.insert(FilePath::parse(p));
    }
    assert!(s.equal(&t));
    t.remove(&FilePath::parse("/b"));
    assert!(!s.equal(&t) && !t.equal(&s));
}

#[test]
fn paths_are_found_by_place() {
    let v = vec![FilePath::parse("/a"), FilePath::parse("/b"), FilePath::parse("/b")];
    assert_eq!(path_position(&v, &FilePath::parse("/b")), Some(1));
    assert_eq!(path_position(&v, &FilePath::parse("/c")), None);
    assert_eq!(copy_paths(&v).len(), 3);
}

#[test]
fn paths_are_sorted_by_components() {
    let v: Vec<FilePath> = ["/a-b/x", "/a/y", "/a", "/a/x"].iter().map(|s| FilePath::parse(s)).collect();
    let got: Vec<String> = sort(v).iter().map(|p| p.to_text()).collect();
    assert_eq!(got, vec!["/a", "/a/x", "/a/y", "/a-b/x"]);
}

#[test]
fn texts_are_ordered_by_their_characters() {
    for (a, b) in [("", "a"), ("a", "ab"), ("B", "a"), ("z", "é"), ("é", "\u{1f512}"), ("a", "a")] {
        assert_eq!(less_text(a, b), a < b, "{} {}", a, b);
        assert_eq!(less_text(b, a), b < a, "{} {}", b, a);
    }
}

#[test]
fn names_are_kept_ascending_and_once() {
    let mut v: Vec<String> = Vec::new();
    for n in ["m", "a", "z", "m", "b"] {
        add_name(&mut v, n);
    }
    assert_eq!(v, vec!["a", "b", "m", "z"]);
    assert!(has_text(&v, "z") && !has_text(&v, "q"));
}
