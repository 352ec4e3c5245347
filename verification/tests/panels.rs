use tide::agent::{agent_key, empty_hint, tool_sign, AgentEvent, AgentKey, AgentMsg, Transcript};
use tide::find::{find_scope, result_label, scope_label, scope_row, FindKey, FindPanel, FindPreview};
use tide::git::{parse_log_commits, parse_name_status};
use tide::gitlog::{head_label, GitKey, GitLog};
use tide::keys::Keystroke;
use tide::path::{FilePath, PathSet};
use tide::search::FindResult;
use tide::syntax::Highlighter;
use tide::theme::{ACCENT, GIT_DELETED, GIT_NEW, MUTED, TEXT};

fn p(s: &str) -> FilePath {
    FilePath::parse(s)
}

fn k(s: &str) -> Keystroke {
    Keystroke::plain(s)
}

fn cmd(s: &str) -> Keystroke {
    let mut x = Keystroke::plain(s);
    x.platform = true;
    x
}

fn hit(path: &str, line: usize) -> FindResult {
    FindResult { path: p(path), line, text: "t".to_string() }
}

#[test]
fn the_scope_of_a_search() {
    let root = p("/p");
    let mut multi = PathSet::new();
    assert_eq!(find_scope(&root, &multi, &None, false)[0].to_text(), "/p");
    assert_eq!(find_scope(&root, &multi, &Some(p("/p/src")), true)[0].to_text(), "/p/src");
    assert_eq!(find_scope(&root, &multi, &Some(p("/p/a.rs")), false)[0].to_text(), "/p");
    multi.insert(p("/p/z"));
    multi.insert(p("/p/a"));
    let v: Vec<String> = find_scope(&root, &multi, &None, false).iter().map(|x| x.to_text()).collect();
    assert_eq!(v, vec!["/p/a", "/p/z"]);
    assert_eq!(scope_label(&root, &vec![p("/p/src")]), "src");
    assert_eq!(scope_label(&root, &vec![p("/p")]), "Project");
    assert_eq!(scope_label(&root, &vec![p("/p/a"), p("/p/b")]), "2 locations");
    let row = scope_row(&root, &vec![p("/p/src")], "foo *.ts -*.js -bar");
    assert_eq!((row.scope.as_str(), row.files.as_deref(), row.excluding.as_deref()), ("in src", Some("· files *.ts, !*.js"), Some("· excluding bar")));
    let row = scope_row(&root, &vec![p("/p")], "foo");
    assert!(row.files.is_none() && row.excluding.is_none());
}

#[test]
fn the_find_panel_goes_through_its_results() {
    let mut f = FindPanel::new();
    f.show(vec![p("/p")]);
    assert!(f.open);
    let old = f.start_search();
    let new = f.start_search();
    f.searched(old, vec![hit("/p/x", 1)]);
    assert!(f.results.is_empty());
    f.searched(new, vec![hit("/p/a", 3), hit("/p/b", 9)]);
    assert_eq!(f.results.len(), 2);
    assert!(matches!(f.find_key(&k("down")), FindKey::Moved));
    assert_eq!(f.selected, 1);
    assert_eq!(f.preview_stale().unwrap().to_text(), "/p/b");
    match f.find_key(&k("enter")) {
        FindKey::Open(path, line) => assert_eq!((path.to_text().as_str(), line), ("/p/b", 9)),
        other => panic!("{:?}", other),
    }
    assert!(!f.open);
    f.toggle_case();
    assert!(f.case_sensitive);
    assert!(matches!(f.find_key(&k("x")), FindKey::Edit));
    assert!(f.click_result(0, 1).is_none());
    assert_eq!(f.selected, 0);
    assert_eq!(f.breadcrumb(&p("/p")).unwrap(), ("a".to_string(), String::new()));
    let (path, line) = f.click_result(1, 2).unwrap();
    assert_eq!((path.to_text().as_str(), line), ("/p/b", 9));
    assert_eq!(f.count_label(), "2 matches");
    assert!(result_label(&p("/p"), &f.results[0]).contains('a'));
}

#[test]
fn the_preview_is_selected_and_copied() {
    let h = Highlighter::new();
    let mut f = FindPanel::new();
    f.show(vec![p("/p")]);
    let g = f.start_search();
    f.searched(g, vec![hit("/p/a.rs", 2)]);
    f.preview = Some(FindPreview::make(&p("/p/a.rs"), "fn main() {\n    run();\n}\n", &h));
    assert!(f.preview_stale().is_none());
    f.preview_down(1, 5, 2);
    assert_eq!(f.selected_text().as_deref(), Some("run"));
    match f.find_key(&cmd("c")) {
        FindKey::Copy(t) => assert_eq!(t, "run"),
        other => panic!("{:?}", other),
    }
    assert!(matches!(f.find_key(&cmd("a")), FindKey::SelectedAll));
    assert!(f.selected_text().unwrap().starts_with("fn main() {\n"));
    f.preview_down(0, 0, 1);
    assert!(f.preview_move(0, 2));
    assert_eq!(f.selected_text().as_deref(), Some("fn"));
    let rows = f.preview_rows(true);
    assert!(rows.iter().any(|r| r.matched && r.no == 2));
    f.query_changed();
    assert!(f.psel.is_none());
    assert!(matches!(f.find_key(&k("escape")), FindKey::Close));
}

#[test]
fn six_lines_stand_above_the_match() {
    let h = Highlighter::new();
    let text: String = (1..=60).map(|n| format!("line {}\n", n)).collect();
    for (line, first) in [(10, 4), (8, 2), (7, 1), (6, 1), (1, 1), (50, 44)] {
        let mut f = FindPanel::new();
        f.show(vec![p("/p")]);
        let g = f.start_search();
        f.searched(g, vec![hit("/p/a.txt", line)]);
        f.preview = Some(FindPreview::make(&p("/p/a.txt"), &text, &h));
        let rows = f.preview_rows(false);
        assert_eq!(rows[0].no, first);
        assert_eq!(rows.iter().position(|r| r.matched), Some(line - first));
        assert_eq!(f.cell(0, 3), Some((first - 1, 3)));
    }
}

#[test]
fn folders_of_branches_go_by_their_text() {
    let mut l = GitLog::new();
    let g = l.start_load();
    l.loaded(g, ["/a/x", "a/y", "b//z"].iter().map(|s| s.to_string()).collect(), Vec::new());
    let folders = |l: &GitLog| -> Vec<(usize, String, String)> {
        l.branch_rows()
            .iter()
            .filter_map(|r| r.folder.as_ref().map(|f| (r.depth, r.label.clone(), f.parts.join("/"))))
            .collect()
    };
    let row = |d: usize, label: &str, key: &str| (d, label.to_string(), key.to_string());
    assert_eq!(folders(&l), vec![row(1, "", ""), row(2, "a", "a"), row(1, "a", "a"), row(1, "b", "b"), row(2, "", "b/")]);
    l.toggle_folder(&p("a"));
    let shown: Vec<String> = l.branch_rows().iter().filter_map(|r| r.branch.clone()).collect();
    assert_eq!(shown, vec!["b//z"]);
}

#[test]
fn what_the_agent_says_is_put_together() {
    let mut t = Transcript::new();
    t.prompted("hello".to_string());
    assert!(t.busy);
    t.apply(AgentEvent::Thought("hm".to_string()));
    t.apply(AgentEvent::Text("Hel".to_string()));
    t.apply(AgentEvent::Text("lo".to_string()));
    t.apply(AgentEvent::Tool { id: "1".to_string(), title: "read".to_string(), status: "pending".to_string() });
    t.apply(AgentEvent::ToolStatus { id: "1".to_string(), status: "completed".to_string() });
    t.apply(AgentEvent::Text("done".to_string()));
    t.apply(AgentEvent::TurnEnd);
    assert!(!t.busy);
    assert!(t.msgs.iter().any(|m| matches!(m, AgentMsg::Agent(s) if s == "Hello")));
    assert!(t.msgs.iter().any(|m| matches!(m, AgentMsg::Agent(s) if s == "done")));
    assert!(t.msgs.iter().any(|m| matches!(m, AgentMsg::Tool { status, .. } if status == "completed")));
    assert!(matches!(&t.msgs[0], AgentMsg::User(s) if s == "hello"));
}

#[test]
fn text_in_pieces_is_one_text() {
    let say = |parts: &[&str]| {
        let mut t = Transcript::new();
        for s in parts {
            t.apply(AgentEvent::Text(s.to_string()));
        }
        match &t.msgs[0] {
            AgentMsg::Agent(s) => s.clone(),
            other => panic!("{:?}", other),
        }
    };
    assert_eq!(say(&["ab", "", "c"]), say(&["abc"]));
}

#[test]
fn the_agents_signs_and_keys() {
    assert_eq!(tool_sign("completed"), ('\u{eab2}', GIT_NEW));
    assert_eq!(tool_sign("cancelled"), ('✕', GIT_DELETED));
    assert_eq!(tool_sign("running"), ('●', MUTED));
    assert!(matches!(agent_key(&k("escape"), ""), AgentKey::Close));
    match agent_key(&k("enter"), " hi ") {
        AgentKey::Send(s) => assert_eq!(s, "hi"),
        other => panic!("{:?}", other),
    }
    assert!(matches!(agent_key(&k("enter"), "  "), AgentKey::Nothing));
    assert_ne!(empty_hint(true), empty_hint(false));
    let mut t = Transcript::new();
    t.not_started();
    assert!(matches!(&t.msgs[0], AgentMsg::Tool { status, .. } if status == "failed"));
}

#[test]
fn the_git_log_is_gone_through() {
    let mut l = GitLog::new();
    let commits = || parse_log_commits("h1\u{1f}s1\u{1f}Ann\u{1f}d\u{1f}first\nh2\u{1f}s2\u{1f}Bob\u{1f}d\u{1f}second\n");
    let old = l.start_load();
    let new = l.start_load();
    assert!(l.loaded(old, Vec::new(), commits()).is_none());
    assert!(l.commits.is_empty());
    assert_eq!(l.loaded(new, vec!["main".to_string(), "feat/a".to_string()], commits()), Some("h1".to_string()));
    assert_eq!(l.sel, Some(0));
    assert_eq!(l.visible("BOB"), vec![1]);
    assert_eq!(l.visible(""), vec![0, 1]);
    match l.git_key(&k("down"), "") {
        GitKey::Select(i) => assert_eq!(i, 1),
        other => panic!("{:?}", other),
    }
    assert_eq!(l.select_commit(1), Some("h2".to_string()));
    l.detailed(new, "second\n\nbody".to_string(), parse_name_status(&p("/p"), "M\ta.rs\n"));
    let d = l.open_commit_diff(&p("/p/a.rs")).unwrap();
    assert_eq!((d.old.as_deref(), d.new_rev.as_deref()), (Some("h2^"), Some("h2")));
    assert!(l.details().is_some());
    let rows = l.branch_rows();
    assert!(rows.iter().any(|r| r.folder.is_some() && r.label == "feat"));
    assert!(rows.iter().any(|r| r.branch.as_deref() == Some("feat/a")));
    let mut listed: Vec<String> = rows.iter().filter_map(|r| r.branch.clone()).collect();
    listed.sort();
    let mut all = l.branches.clone();
    all.sort();
    assert_eq!(listed, all);
    let main = rows.iter().find(|r| r.label == "main").unwrap();
    assert_eq!(l.branch_look(main, "main"), (false, false, ACCENT));
    assert_eq!(l.branch_look(main, "other").2, TEXT);
    let feat = rows.iter().find(|r| r.folder.is_some()).unwrap();
    assert!(!l.branch_look(feat, "main").0);
    assert_eq!(l.rev_label(), "⎇ HEAD");
    l.toggle_folder(&p("feat"));
    assert!(l.branch_look(feat, "main").0);
    assert!(l.branch_rows().iter().all(|r| r.branch.as_deref() != Some("feat/a")));
    l.show_rev("feat/a".to_string());
    assert_eq!(l.rev, "feat/a");
    assert!(head_label("main").contains("main"));
}
