use tide::badge::Icon;
use tide::finder::{
    finder_row, finder_score, fuzzy_score, goto_accept, goto_target, rank_files, split_finder_query, update_finder,
    Finder, FinderKey,
};
use tide::keys::Keystroke;
use tide::path::FilePath;
use tide::theme::{DIR, FOLDER_ICON, MUTED, SEL_TEXT, TEXT};

fn paths(v: &[&str]) -> Vec<FilePath> {
    v.iter().map(|s| FilePath::parse(s)).collect()
}

fn shown(v: &[FilePath]) -> Vec<String> {
    v.iter().map(|p| p.to_text()).collect()
}

#[test]
fn only_subsequences_match() {
    assert!(fuzzy_score("mrs", "main.rs").is_some());
    assert!(fuzzy_score("srm", "main.rs").is_none());
    assert!(fuzzy_score("", "main.rs").is_some());
    assert!(fuzzy_score("MAIN", "main.rs").is_some());
}

#[test]
fn fuzzy_scores_are_never_positive() {
    for q in ["", "m", "main", "mr"] {
        assert!(fuzzy_score(q, "src/main.rs").unwrap() <= 0);
    }
}

#[test]
fn a_name_that_holds_the_query_beats_a_scattered_match() {
    let whole = finder_score("main", "src/main.rs").unwrap();
    let scattered = finder_score("main", "src/my_agent_in.rs").unwrap();
    let by_path = finder_score("main", "main/x.rs").unwrap();
    assert!(whole > scattered);
    assert!(scattered > by_path);
}

#[test]
fn files_are_ranked() {
    let root = FilePath::parse("/p");
    let v = paths(&["/p/docs/main.md", "/p/src/main.rs", "/p/src/domain/x.rs", "/p/zzz"]);
    let r = rank_files(&root, "main", &v);
    assert_eq!(r.len(), 3);
    assert!(shown(&r[..2]).contains(&"/p/src/main.rs".to_string()));
    assert_eq!(r[2].to_text(), "/p/src/domain/x.rs");
}

#[test]
fn at_most_fifty_files_are_listed() {
    let root = FilePath::parse("/p");
    let v: Vec<FilePath> = (0..80).map(|i| FilePath::parse(&format!("/p/f{}.rs", i))).collect();
    assert_eq!(rank_files(&root, "", &v).len(), 50);
}

#[test]
fn a_pasted_position_is_taken_off() {
    let q = split_finder_query("src/x.ts:45:7");
    assert_eq!((q.path.as_str(), q.line, q.col), ("src/x.ts", Some(45), Some(7)));
    let q = split_finder_query("src/x.ts: 45 ");
    assert_eq!((q.line, q.col), (Some(45), None));
    let q = split_finder_query("src/x.ts");
    assert_eq!((q.line, q.col), (None, None));
    let q = split_finder_query("x:y");
    assert_eq!((q.path.as_str(), q.line), ("x:y", None));
    for (text, path, line, col) in [
        ("src/a:b.ts:45", "src/a:b.ts", Some(45), None),
        ("src/a:b.ts:45:7", "src/a:b.ts", Some(45), Some(7)),
        ("a:5:x", "a:5:x", None, None),
        ("a:1:2:3", "a:1", Some(2), Some(3)),
        ("src/x.ts:", "src/x.ts", None, None),
        ("src/x.ts:45:", "src/x.ts", Some(45), None),
        ("a:99999999999999999999999", "a", None, None),
        ("7", "7", None, None),
        ("", "", None, None),
    ] {
        let q = split_finder_query(text);
        assert_eq!((q.path.as_str(), q.line, q.col), (path, line, col), "{}", text);
    }
}

#[test]
fn a_trailing_slash_lists_folders() {
    let root = FilePath::parse("/p");
    let (r, dirs) = update_finder(&root, "sr/", &paths(&["/p/src.rs"]), &paths(&["/p/src", "/p/docs"]));
    assert!(dirs);
    assert_eq!(shown(&r), vec!["/p/src"]);
    let (r, dirs) = update_finder(&root, "src:3", &paths(&["/p/src.rs"]), &paths(&["/p/src"]));
    assert!(!dirs);
    assert_eq!(shown(&r), vec!["/p/src.rs"]);
}

#[test]
fn a_line_to_go_to_is_read() {
    assert_eq!(goto_target("12:4"), (12, 4));
    assert_eq!(goto_target("12"), (12, 1));
    assert_eq!(goto_target(""), (1, 1));
    assert_eq!(goto_target(":9"), (1, 9));
    assert!(goto_accept("12:3") && goto_accept("") && !goto_accept("1a"));
}

#[test]
fn the_finder_goes_through_its_states() {
    let root = FilePath::parse("/p");
    let mut f = Finder::new();
    f.show(&root);
    assert!(f.open && f.results.is_empty());
    f.scanned(&root, "", paths(&["/p/a.rs", "/p/bb.rs"]), paths(&["/p/src"]));
    assert_eq!(f.results.len(), 2);
    assert!(matches!(f.finder_key(&Keystroke::plain("down"), ""), FinderKey::Moved));
    assert!(matches!(f.finder_key(&Keystroke::plain("down"), ""), FinderKey::Moved));
    assert_eq!(f.selected, 1);
    match f.finder_key(&Keystroke::plain("enter"), "b:7") {
        FinderKey::Chosen(p, to) => {
            assert_eq!(p.to_text(), f.results[1].to_text());
            assert_eq!(to, Some((7, 1)));
        }
        other => panic!("{:?}", other),
    }
    let old = f.schedule();
    let new = f.schedule();
    assert!(!f.refilter(old, &root, "a"));
    assert!(f.refilter(new, &root, "a.rs"));
    assert_eq!(f.selected, 0);
    assert_eq!(shown(&f.results), vec!["/p/a.rs"]);
    assert!(matches!(f.finder_key(&Keystroke::plain("x"), ""), FinderKey::Edit));
    assert!(matches!(f.finder_key(&Keystroke::plain("escape"), ""), FinderKey::Close));
    assert!(!f.open);
}

#[test]
fn enter_on_an_empty_list_does_nothing() {
    let mut f = Finder::new();
    assert!(matches!(f.finder_key(&Keystroke::plain("enter"), ""), FinderKey::Nothing));
}

#[test]
fn finder_rows_show_badges_and_folders() {
    let root = FilePath::parse("/p");
    let r = finder_row(&root, &FilePath::parse("/p/src/main.rs"), false, false);
    assert_eq!((r.label.as_str(), r.dir.as_str(), r.label_color, r.dir_color), ("main.rs", "src", TEXT, MUTED));
    let d = finder_row(&root, &FilePath::parse("/p/src"), true, false);
    assert_eq!((d.label.as_str(), d.dir.as_str(), d.label_color), ("src/", "", DIR));
    assert_eq!((d.badge, d.badge_color), (Icon::Folder.glyph().to_string(), FOLDER_ICON));
    let s = finder_row(&root, &FilePath::parse("/q/x"), false, true);
    assert_eq!((s.dir.as_str(), s.badge_color, s.label_color), ("", SEL_TEXT, SEL_TEXT));
}

#[test]
fn scores_are_exact() {
    assert_eq!(fuzzy_score("mrs", "main.rs"), Some(-5));
    assert_eq!(fuzzy_score("main", "MAIN.rs"), Some(0));
    assert_eq!(fuzzy_score("", "x"), Some(0));
    assert_eq!(finder_score("main", "src/main.rs"), Some(104_993));
    assert_eq!(finder_score("AIN", "src/main.rs"), Some(99_943));
    assert_eq!(finder_score("mrs", "src/main.rs"), Some(49_988));
    assert_eq!(finder_score("srm", "src/main.rs"), Some(-14));
    assert_eq!(finder_score("zz", "src/main.rs"), None);
}

#[test]
fn the_kind_of_match_decides() {
    let name = |c: &str| format!("src/{}", c.repeat(240));
    let whole = finder_score("ab", &format!("{}ab", name("x"))).unwrap();
    let gaps = finder_score("ab", "a-b").unwrap();
    let long_gaps = finder_score("ab", &format!("a{}b", "x".repeat(240))).unwrap();
    let path = finder_score("ab", "a/b").unwrap();
    assert!(whole > gaps && gaps > long_gaps && long_gaps > path);
}
