use tide::filetree::{confirm_key, unique_dest, visit, Child, ConfirmKey, FileTree, Listing, TreeKey, Visit};
use tide::keys::Keystroke;
use tide::path::{FilePath, PathSet};
use tide::tabs::{ActiveList, Opened, Tabs};

fn p(s: &str) -> FilePath {
    FilePath::parse(s)
}

fn dir(d: &str, names: &[(&str, bool)]) -> Listing {
    Listing {
        dir: p(d),
        children: names.iter().map(|(n, is_dir)| Child { name: n.to_string(), is_dir: *is_dir }).collect(),
    }
}

fn world() -> Vec<Listing> {
    vec![
        dir("/p", &[("zeta.rs", false), ("src", true), (".git", true), ("Alpha.md", false), ("target", true), (".DS_Store", false)]),
        dir("/p/src", &[("main.rs", false), ("lib.rs", false)]),
        dir("/p/target", &[("out", false)]),
    ]
}

fn tree() -> FileTree {
    let mut ignored = PathSet::new();
    ignored.insert(p("/p/target"));
    let mut t = FileTree::new(p("/p"), ignored);
    t.rebuild(&world());
    t
}

fn rows(t: &FileTree) -> Vec<(String, usize, bool)> {
    t.entries.iter().map(|e| (e.name.clone(), e.depth, e.ignored)).collect()
}

fn cmd(k: &str) -> Keystroke {
    let mut s = Keystroke::plain(k);
    s.platform = true;
    s
}

#[test]
fn closing_moves_the_active_place() {
    let mut l: ActiveList<char> = ActiveList::new();
    for c in ['a', 'b', 'c'] {
        l.open(c);
    }
    assert_eq!(l.active, 2);
    assert_eq!(l.close(0), Some('a'));
    assert_eq!(l.items[l.active], 'c');
    assert_eq!(l.close(1), Some('c'));
    assert_eq!(l.items[l.active], 'b');
    assert_eq!(l.close(7), None);
    assert_eq!(l.close(0), Some('b'));
    assert!(l.items.is_empty());
}

#[test]
fn closing_another_item_keeps_the_active_one() {
    for ix in [0usize, 1, 3] {
        let mut l: ActiveList<usize> = ActiveList::new();
        for c in 0..4 {
            l.open(c);
        }
        l.switch(2);
        l.close(ix);
        assert_eq!(l.items[l.active], 2);
    }
}

#[test]
fn the_active_item_is_kept_alone() {
    let mut l: ActiveList<char> = ActiveList::new();
    assert!(l.close_others().is_empty());
    for c in ['a', 'b', 'c'] {
        l.open(c);
    }
    assert!(l.switch(1));
    assert!(!l.switch(3));
    assert_eq!(l.close_others(), vec!['a', 'c']);
    assert_eq!((l.items.clone(), l.active), (vec!['b'], 0));
}

#[test]
fn a_file_is_opened_once() {
    let mut t = Tabs::new();
    assert_eq!(t.open_file(&p("/p/a"), 10), Opened::Fresh(0));
    assert_eq!(t.open_file(&p("/p/b"), 11), Opened::Fresh(1));
    assert_eq!(t.open_file(&p("/p/a"), 12), Opened::Existing(0));
    assert_eq!(t.list.items.len(), 2);
    assert_eq!(t.active_path().unwrap().to_text(), "/p/a");
    assert_eq!(t.position(&p("/p/b")), Some(1));
}

#[test]
fn scratch_buffers_are_not_saved() {
    let mut t = Tabs::new();
    t.new_scratch(5);
    t.new_scratch(6);
    assert_eq!(t.active_path().unwrap().to_text(), "scratch 2");
    assert_eq!(t.saved_on_leave(1), None);
    t.open_file(&p("/p/a"), 7);
    assert_eq!(t.saved_on_leave(2), Some(7));
    assert_eq!(t.saved_on_leave(9), None);
}

#[test]
fn tabs_under_a_deleted_path_go() {
    let mut t = Tabs::new();
    t.open_file(&p("/p/src/a"), 1);
    t.open_file(&p("/p/b"), 2);
    t.open_file(&p("/p/src/c"), 3);
    t.drop_under(&p("/p/src"));
    assert_eq!(t.list.items.len(), 1);
    assert_eq!(t.list.active, 0);
    assert_eq!(t.active_path().unwrap().to_text(), "/p/b");
}

#[test]
fn directories_come_first_and_noise_is_hidden() {
    let t = tree();
    assert_eq!(
        rows(&t),
        vec![
            ("p".to_string(), 0, false),
            ("src".to_string(), 1, false),
            ("target".to_string(), 1, true),
            ("Alpha.md".to_string(), 1, false),
            ("zeta.rs".to_string(), 1, false),
        ]
    );
    assert_eq!(t.project_name(), "p");
}

#[test]
fn expanding_shows_what_is_inside() {
    let mut t = tree();
    assert!(t.on_entry(1).is_none());
    assert!(t.on_entry(2).is_none());
    t.rebuild(&world());
    assert_eq!(
        rows(&t).iter().map(|r| r.0.as_str()).collect::<Vec<_>>(),
        vec!["p", "src", "lib.rs", "main.rs", "target", "out", "Alpha.md", "zeta.rs"]
    );
    assert!(t.entries[5].ignored && t.entries[5].depth == 2);
    assert_eq!(t.on_entry(2).unwrap().to_text(), "/p/src/lib.rs");
    assert!(t.is_tree_selected(&p("/p/src/lib.rs")));
    assert!(t.on_entry(99).is_none());
}

#[test]
fn revealing_expands_all_above() {
    let mut t = tree();
    t.show(&p("/p/src/deep/x.rs"));
    assert!(t.expanded.contains(&p("/p/src")) && t.expanded.contains(&p("/p/src/deep")));
    assert!(!t.expanded.contains(&p("/")));
    assert!(t.expanded.contains(&p("/p")));
    assert_eq!(t.selected.as_ref().unwrap().to_text(), "/p/src/deep/x.rs");
}

#[test]
fn rows_are_selected_in_ranges_and_one_by_one() {
    let mut t = tree();
    t.select_entry(1, false, false);
    t.select_entry(3, true, false);
    assert_eq!(t.multi.items.len(), 3);
    assert!(t.is_tree_selected(&p("/p/target")));
    t.select_entry(4, false, false);
    assert!(t.multi.is_empty());
    t.select_entry(1, false, true);
    assert!(t.is_tree_selected(&p("/p/zeta.rs")) && t.is_tree_selected(&p("/p/src")));
    t.select_entry(1, false, true);
    assert!(!t.is_tree_selected(&p("/p/src")));
}

#[test]
fn keys_in_the_tree() {
    let mut t = tree();
    assert!(matches!(t.tree_key(&cmd("c"), false), TreeKey::Nothing));
    match t.tree_key(&Keystroke::plain("enter"), false) {
        TreeKey::Open(f) => assert_eq!(f.to_text(), "/p/Alpha.md"),
        other => panic!("{:?}", other),
    }
    t.select_entry(4, false, false);
    assert!(matches!(t.tree_key(&cmd("c"), true), TreeKey::Copied));
    assert_eq!(t.clipboard.as_ref().unwrap().to_text(), "/p/zeta.rs");
    assert!(matches!(t.tree_key(&cmd("v"), true), TreeKey::Paste));
    let mut shifted = cmd("c");
    shifted.shift = true;
    assert!(matches!(t.tree_key(&shifted, true), TreeKey::CopyReference(_)));
    assert!(matches!(t.tree_key(&Keystroke::plain("f4"), true), TreeKey::Open(_)));
    assert!(matches!(t.tree_key(&Keystroke::plain("f4"), false), TreeKey::Nothing));
    assert!(matches!(t.tree_key(&Keystroke::plain("backspace"), true), TreeKey::ConfirmDelete));
    assert_eq!(t.take_confirmed().unwrap().to_text(), "/p/zeta.rs");
    assert!(t.take_confirmed().is_none());
}

#[test]
fn pasting_goes_into_the_selected_directory() {
    let mut t = tree();
    assert_eq!(t.paste_target(false).to_text(), "/p");
    t.select_entry(1, false, false);
    assert_eq!(t.paste_target(true).to_text(), "/p/src");
    t.selected = Some(p("/p/src/main.rs"));
    assert_eq!(t.paste_target(false).to_text(), "/p/src");
    t.pasted(&p("/p/src"), &p("/p/src/new.rs"));
    assert!(t.expanded.contains(&p("/p/src")));
    assert_eq!(t.selected.as_ref().unwrap().to_text(), "/p/src/new.rs");
}

#[test]
fn deleting_forgets_the_path() {
    let mut t = tree();
    t.select_entry(1, false, false);
    t.clipboard = Some(p("/p/src"));
    t.expanded.insert(p("/p/src"));
    t.deleted(&p("/p/src"));
    assert!(t.selected.is_none() && t.clipboard.is_none() && !t.expanded.contains(&p("/p/src")));
}

#[test]
fn confirming_takes_a_key() {
    for (k, want) in [
        ("enter", ConfirmKey::Delete),
        ("y", ConfirmKey::Delete),
        ("escape", ConfirmKey::Cancel),
        ("n", ConfirmKey::Cancel),
        ("x", ConfirmKey::Nothing),
    ] {
        assert_eq!(confirm_key(&Keystroke::plain(k)), want);
    }
}

#[test]
fn a_free_name_is_found() {
    let mut taken = PathSet::new();
    assert_eq!(unique_dest(&p("/p/foo.ts"), &taken).to_text(), "/p/foo.ts");
    taken.insert(p("/p/foo.ts"));
    assert_eq!(unique_dest(&p("/p/foo.ts"), &taken).to_text(), "/p/foo copy.ts");
    taken.insert(p("/p/foo copy.ts"));
    assert_eq!(unique_dest(&p("/p/foo.ts"), &taken).to_text(), "/p/foo copy 2.ts");
    taken.insert(p("/p/foo copy 2.ts"));
    assert_eq!(unique_dest(&p("/p/foo.ts"), &taken).to_text(), "/p/foo copy 3.ts");
    taken.insert(p("/p/dir"));
    assert_eq!(unique_dest(&p("/p/dir"), &taken).to_text(), "/p/dir copy");
    taken.insert(p("/p/.env"));
    assert_eq!(unique_dest(&p("/p/.env"), &taken).to_text(), "/p/.env copy");
}

#[test]
fn walking_skips_noise() {
    assert_eq!(visit("node_modules", true, 0), Visit::Skip);
    assert_eq!(visit(".next", true, 0), Visit::Skip);
    assert_eq!(visit(".env", false, 0), Visit::Take);
    assert_eq!(visit("src", true, 0), Visit::Enter);
    assert_eq!(visit("main.rs", false, 10), Visit::Take);
    assert_eq!(visit("main.rs", false, 50_000), Visit::Stop);
}

#[test]
fn one_click_selects_and_two_open() {
    let mut t = tree();
    assert!(t.click(4, 1, false, false).is_none());
    assert!(t.is_tree_selected(&p("/p/zeta.rs")));
    assert_eq!(t.click(4, 2, false, false).unwrap().to_text(), "/p/zeta.rs");
    assert!(t.click(1, 2, false, false).is_none());
    assert!(t.expanded.contains(&p("/p/src")));
    t.click(1, 3, false, false);
    assert!(!t.expanded.contains(&p("/p/src")));
}
