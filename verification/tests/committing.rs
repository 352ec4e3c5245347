use tide::changes::{paths_text, progress_label, CommitRow, MarkFilter};
use tide::commit::{commit_header, commit_key, quote, ChangesKey, CommitPane, MessageKey};
use tide::git::{compute_git, parse_name_status, GitStatus};
use tide::keys::Keystroke;
use tide::path::{FilePath, PathSet};
use tide::push::{
    conflict_label, conflict_side, integrate_command, push_target, ConflictDialog, Integrate, PushDialog, PushFiles,
    PushKey,
};
use tide::review::{pr_row, working_diff, ReviewKey, ReviewPane, ReviewRow};

fn p(s: &str) -> FilePath {
    FilePath::parse(s)
}

fn git() -> GitStatus {
    compute_git(&p("/p"), " M src/a.rs\n?? src/b.rs\n D z.rs\n")
}

fn key(name: &str, mods: &str) -> Keystroke {
    let mut k = Keystroke::plain(name);
    k.platform = mods.contains('p');
    k.shift = mods.contains('s');
    k
}

fn show(rows: &[CommitRow]) -> Vec<String> {
    rows.iter()
        .map(|r| match r {
            CommitRow::Dir { depth, label, files, marked, .. } => format!("{} {}/ {} {}", depth, label, files.len(), marked),
            CommitRow::File { depth, name, marked, .. } => format!("{} {} {}", depth, name, marked),
        })
        .collect()
}

#[test]
fn a_commit_stages_what_is_checked() {
    let mut c = CommitPane::new("abc12".to_string());
    assert_eq!(
        c.do_commit(&p("/p"), "  ", false, "next1".to_string()),
        "git add -A && git commit -m \"wip: abc12\""
    );
    assert_eq!(c.wip_id, "next1");
    c.toggle_checked(&p("/p/src/a.rs"));
    c.toggle_checked(&p("/p/z.rs"));
    assert_eq!(
        c.do_commit(&p("/p"), " say \"hi\" ", true, "next2".to_string()),
        "git add \"src/a.rs\" \"z.rs\" && git commit -m \"say \\\"hi\\\"\" && git push -u origin HEAD"
    );
    assert!(c.checked.is_empty());
}

#[test]
fn quoting_keeps_the_message() {
    for s in ["", "a", "\"", "say \"x\"", "\\\"", "é\"\""] {
        assert_eq!(quote(s), s.replace('"', "\\\""));
        assert_eq!(quote(s).replace("\\\"", "\""), s);
    }
}

#[test]
fn the_changes_are_shown_as_a_tree() {
    let mut c = CommitPane::new("x".to_string());
    c.toggle_checked(&p("/p/src/a.rs"));
    let v = c.view_changes(&p("/p"), &git(), "", &None);
    assert_eq!(show(&v.rows), vec!["1 src/ 2 false", "2 a.rs true", "2 b.rs false", "1 z.rs false"]);
    assert_eq!((v.marked, v.total), (1, 3));
    c.view_filter = MarkFilter::Marked;
    let v = c.view_changes(&p("/p"), &git(), "", &None);
    assert_eq!(v.files.len(), 1);
    c.view_filter = MarkFilter::Unmarked;
    let v = c.view_changes(&p("/p"), &git(), "B.RS", &None);
    assert_eq!(v.files.len(), 1);
    assert_eq!(v.files[0].path.to_text(), "/p/src/b.rs");
}

#[test]
fn checking_a_group_makes_it_uniform() {
    let mut c = CommitPane::new("x".to_string());
    let all = vec![p("/p/a"), p("/p/b")];
    c.toggle_checked(&p("/p/a"));
    c.toggle_checked_all(&all);
    assert!(c.checked.contains_all(&all));
    c.toggle_checked_all(&all);
    assert!(c.checked.is_empty());
    c.toggle_checked(&p("/p/other"));
    c.toggle_checked_all(&all);
    c.toggle_checked_all(&all);
    assert!(c.checked.contains(&p("/p/other")));
}

#[test]
fn going_to_the_commit_checks_the_active_file() {
    let mut c = CommitPane::new("x".to_string());
    c.toggle_checked(&p("/p/z.rs"));
    c.goto_commit(&Some(p("/p/src/a.rs")), &git());
    assert!(c.checked.contains(&p("/p/src/a.rs")) && !c.checked.contains(&p("/p/z.rs")));
    c.goto_commit(&Some(p("/p/unchanged")), &git());
    assert!(c.checked.is_empty());
}

#[test]
fn keys_among_the_changes() {
    let mut c = CommitPane::new("x".to_string());
    assert!(matches!(c.changes_key(&key("enter", ""), true, true), ChangesKey::Nothing));
    c.selected = Some(p("/p/a"));
    assert!(matches!(c.changes_key(&key("c", "ps"), true, true), ChangesKey::CopyReference(_)));
    assert!(matches!(c.changes_key(&key("r", "p"), true, true), ChangesKey::Refresh));
    assert!(matches!(c.changes_key(&key("x", "p"), true, true), ChangesKey::Nothing));
    assert!(matches!(c.changes_key(&key("escape", ""), false, true), ChangesKey::ClearFilter));
    assert!(matches!(c.changes_key(&key("escape", ""), true, true), ChangesKey::Nothing));
    assert!(matches!(c.changes_key(&key("f4", ""), true, true), ChangesKey::Open(_)));
    assert!(matches!(c.changes_key(&key("enter", ""), true, false), ChangesKey::Nothing));
    assert!(matches!(c.changes_key(&key("backspace", ""), true, true), ChangesKey::ConfirmDelete(_)));
    assert!(matches!(c.changes_key(&key("backspace", ""), false, true), ChangesKey::Edit));
    assert!(matches!(c.changes_key(&key("delete", ""), false, true), ChangesKey::ConfirmDelete(_)));
    assert!(matches!(c.changes_key(&key("q", ""), true, true), ChangesKey::Edit));
    c.deleted(&p("/p/a"));
    assert!(c.selected.is_none());
    assert_eq!(commit_key(&key("escape", "")), MessageKey::Leave);
    assert_eq!(commit_key(&key("enter", "p")), MessageKey::Commit);
    assert_eq!(commit_key(&key("enter", "")), MessageKey::Edit);
}

#[test]
fn texts_of_the_changes() {
    assert_eq!(paths_text(&p("/p"), &vec![p("/p/a"), p("/p/b/c")]), "a\nb/c");
    assert!(progress_label(1, 3, "viewed").contains("1"));
    assert!(commit_header(2).contains('2'));
}

#[test]
fn a_review_is_loaded_once() {
    let mut r = ReviewPane::new();
    let first = r.start_load();
    let second = r.start_load();
    assert!(r.loading);
    let files = || parse_name_status(&p("/p"), "M\tsrc/a.rs\nA\tsrc/b.rs\n");
    r.loaded(first, "old".to_string(), files(), None, PathSet::new());
    assert!(r.loading && r.files.is_empty());
    let mut viewed = PathSet::new();
    viewed.insert(p("/p/src/a.rs"));
    r.loaded(second, "next".to_string(), files(), Some("ID".to_string()), viewed);
    assert!(!r.loading && r.files.len() == 2 && r.base == "next");
    let v = r.view_files(&p("/p"), "");
    assert_eq!((v.marked, v.total, v.percent), (1, 2, 50));
    assert!(matches!(pr_row(&v, 0), ReviewRow::Group { files: 2, marked: false, collapsed: false }));
    assert!(matches!(pr_row(&v, 1), ReviewRow::Row(_)));
}

#[test]
fn keys_in_a_review() {
    let mut r = ReviewPane::new();
    let g = r.start_load();
    r.loaded(g, "next".to_string(), parse_name_status(&p("/p"), "M\tsrc/a.rs\nA\tsrc/b.rs\nM\tz.rs\n"), Some("ID".to_string()), PathSet::new());
    r.selected = Some(p("/p/src"));
    match r.review_key(&key("s", "ps"), true, false) {
        ReviewKey::Marked(v) => assert_eq!(v.len(), 2),
        other => panic!("{:?}", other),
    }
    assert!(r.viewed.contains(&p("/p/src/a.rs")) && !r.viewed.contains(&p("/p/z.rs")));
    assert_eq!(
        r.updates(&p("/p"), &vec![p("/p/src/a.rs"), p("/p/z.rs")]),
        vec![("src/a.rs".to_string(), true), ("z.rs".to_string(), false)]
    );
    r.node_id = None;
    assert!(r.updates(&p("/p"), &vec![p("/p/z.rs")]).is_empty());
    assert!(matches!(r.review_key(&key("r", "p"), true, false), ReviewKey::Reload));
    assert!(matches!(r.review_key(&key("enter", ""), true, false), ReviewKey::OpenDiff(_)));
    assert!(matches!(r.review_key(&key("escape", ""), true, false), ReviewKey::Nothing));
    assert!(matches!(r.review_key(&key("escape", ""), false, false), ReviewKey::ClearFilter));
    assert!(matches!(r.review_key(&key("f4", ""), false, true), ReviewKey::OpenFile(_)));
    let d = r.open_diff(&p("/p/src/b.rs"), "base1", "flt").unwrap();
    assert_eq!((d.idx, d.old.as_deref(), d.pr_mode, d.filter_text.as_str()), (1, Some("base1"), true, "flt"));
    assert!(r.open_diff(&p("/p/none"), "base1", "").is_none());
}

#[test]
fn the_working_diff_takes_in_the_focus() {
    let g = git();
    let d = working_diff(&g.items, &Some(p("/p/m.rs")), "f").unwrap();
    let files: Vec<String> = d.files.iter().map(|x| x.to_text()).collect();
    assert_eq!(files, vec!["/p/m.rs", "/p/src/a.rs", "/p/src/b.rs", "/p/z.rs"]);
    assert_eq!(d.idx, 0);
    let d = working_diff(&g.items, &Some(p("/p/z.rs")), "").unwrap();
    assert_eq!((d.files.len(), d.idx), (3, 2));
    assert!(working_diff(&Vec::new(), &None, "").is_none());
}

#[test]
fn a_push_goes_through_its_dialog() {
    assert_eq!(push_target("feat", Some("origin/other")), "origin/other");
    assert_eq!(push_target("feat", None), "origin/feat");
    let mut d = PushDialog::new();
    d.show(
        "feat",
        "origin/feat",
        "origin/feat",
        vec![("abc".to_string(), "one".to_string())],
        parse_name_status(&p("/p"), "M\ta.rs\n"),
    );
    assert!(d.open);
    assert_eq!(d.target_name(), "feat");
    match d.select_commit(Some("abc".to_string())) {
        PushFiles::OfCommit(s) => assert_eq!(s, "abc"),
        PushFiles::OfRange(_) => panic!(),
    }
    let o = d.open_diff(&p("/p/a.rs"), "base").unwrap();
    assert_eq!((o.old.as_deref(), o.new_rev.as_deref()), (Some("abc^"), Some("abc")));
    match d.select_commit(Some("abc".to_string())) {
        PushFiles::OfRange(r) => assert_eq!(r, "origin/feat..HEAD"),
        PushFiles::OfCommit(_) => panic!(),
    }
    let o = d.open_diff(&p("/p/other.rs"), "base").unwrap();
    assert_eq!((o.files.len(), o.idx, o.old.as_deref(), o.new_rev), (2, 1, Some("base"), None));
    assert!(matches!(d.push_key(&key("enter", "")), PushKey::Push));
    assert!(matches!(d.push_key(&key("enter", "p")), PushKey::Nothing));
    d.selected = Some(p("/p/a.rs"));
    assert!(matches!(d.push_key(&key("enter", "")), PushKey::Diff(_)));
    assert!(matches!(d.push_key(&key("escape", "")), PushKey::Close));
    d.tags = true;
    assert_eq!(d.do_push(), "git push --tags && git push -u origin HEAD");
    assert!(!d.open);
    d.tags = false;
    assert_eq!(d.do_push(), "git push -u origin HEAD");
    assert_ne!(integrate_command(Integrate::Merge), integrate_command(Integrate::Rebase));
}

#[test]
fn conflicts_are_gone_through() {
    let mut c = ConflictDialog::new();
    assert!(!c.show(Vec::new(), "a".to_string(), "b".to_string()));
    assert!(c.show(vec![p("/p/src/x.rs")], "main".to_string(), "next".to_string()));
    assert_eq!(c.title(), "Conflicts — merging next into main");
    assert_eq!(conflict_label(&p("/p"), &p("/p/src/x.rs")).0, "x.rs");
    assert_eq!((conflict_side(true), conflict_side(false)), ("--theirs", "--ours"));
    assert!(!c.reload(vec![p("/p/src/x.rs")]));
    assert!(c.open);
    assert!(c.reload(Vec::new()));
    assert!(!c.open);
    assert!(c.mc_key(&key("escape", "")) && !c.mc_key(&key("x", "")));
}

#[test]
fn a_click_selects_and_a_second_opens() {
    let mut c = CommitPane::new("x".to_string());
    assert!(!c.click_file(&p("/p/a"), 1));
    assert!(c.click_file(&p("/p/b"), 2));
    assert_eq!(c.selected.unwrap().to_text(), "/p/b");
    let mut r = ReviewPane::new();
    assert!(!r.click_file(&p("/p/a"), 1) && r.click_file(&p("/p/a"), 2));
    let mut d = PushDialog::new();
    assert!(d.click_file(&p("/p/a"), 2));
    assert_eq!(d.selected.unwrap().to_text(), "/p/a");
}

#[test]
fn an_empty_review_says_why() {
    let mut r = ReviewPane::new();
    let note = r.empty_note();
    r.start_load();
    assert!(!note.is_empty() && !r.empty_note().is_empty());
    assert_eq!(r.header().0, "PULL REQUEST  ·  refreshing…");
}
