use tide::chrome::{
    activity_badge, activity_left, activity_right, confirm_delete_text, copied_label, copy_branch, crumb,
    github_address, line_reference, project_rows, status_card, tab_label, terminal_label, topbar, tree_look, Overlay,
    StatusPr,
};
use tide::docks::{DragTarget, Docks, Drags, Focus, LeftPanel, LeftView, ResizeEdges};
use tide::filetree::{Child, Listing};
use tide::git::{compute_git, GitStatus};
use tide::keys::Keystroke;
use tide::merge::MergeWindow;
use tide::path::{FilePath, PathSet};
use tide::pr::{PrLink, PrStatus};
use tide::project::{
    editor_ctx_actions, editor_ctx_key, tree_ctx_actions, tree_ctx_key, EditorAction, EditorRun, MenuKey, TreeAction,
    TreeRun,
};
use tide::repo::Repo;
use tide::storm::{caret, caret_if, startup_text, RootKey, Siblings, ShowDiff, Storm};
use tide::tabs::Opened;
use tide::theme::{ACCENT, DIR, GIT_MODIFIED, MUTED, SEL_TEXT, TEXT};
use tide::workspace::{NavAction, ProjectNav, Workspace};

fn p(s: &str) -> FilePath {
    FilePath::parse(s)
}

fn k(s: &str) -> Keystroke {
    Keystroke::plain(s)
}

fn storm() -> Storm {
    let listings = vec![Listing {
        dir: p("/work/tide"),
        children: vec![
            Child { name: "src".to_string(), is_dir: true },
            Child { name: "a.rs".to_string(), is_dir: false },
        ],
    }];
    Storm::new(p("/work/tide"), PathSet::new(), &listings, 7, 100, 1)
}

fn link(status: PrStatus) -> PrLink {
    PrLink { number: 12, url: "u".to_string(), status, base: "next".to_string(), head: "feat".to_string() }
}

#[test]
fn a_window_begins_with_a_terminal_and_the_files() {
    let mut s = storm();
    assert_eq!(s.docks.terminals.items, vec![1]);
    assert_eq!(s.docks.browser_url, "http://localhost:3000");
    assert!(s.read_only && s.docks.show_terminal);
    assert_eq!(s.project.tree.entries.len(), 3);
    assert_eq!(s.commit.wip_id.len(), 5);
    let f = s.frame();
    assert_eq!(f.title, "tide");
    assert_eq!((f.left, f.terminal), (Some(LeftView::Files), Some(1)));
    assert!(f.take_focus && f.overlays.is_empty() && !f.run && !f.git);
    assert!(!s.frame().take_focus);
    assert_eq!(startup_text(Some(" z \n")), Some("z\n".to_string()));
    assert_eq!(startup_text(Some("  ")), None);
    assert_eq!(startup_text(None), None);
}

#[test]
fn the_title_names_the_file() {
    let mut s = storm();
    assert_eq!(s.project.open_file(&p("/work/tide/a.rs"), 5), (None, Opened::Fresh(0)));
    assert_eq!(s.frame().title, "tide - a.rs");
    assert_eq!(s.project.focus_active(), Some(5));
    assert_eq!(s.project.save_active(), Some(5));
}

#[test]
fn escape_closes_what_is_open() {
    let mut s = storm();
    s.popups.palette.open = true;
    s.popups.find.open = true;
    s.popups.git_popup.open = true;
    s.popups.git_popup.action_branch = Some("x".to_string());
    s.popups.editor_ctx = true;
    s.popups.tree_ctx = Some(p("/work/tide/a.rs"));
    assert_eq!(
        s.frame().overlays,
        vec![Overlay::Find, Overlay::GitPopup, Overlay::BranchActions, Overlay::EditorMenu, Overlay::TreeMenu, Overlay::Palette]
    );
    assert_eq!(s.popups.on_root_key(&k("escape")), RootKey::Menu(MenuKey::Close));
    assert_eq!(s.popups.on_root_key(&k("2")), RootKey::Menu(MenuKey::RunTree(TreeAction::RevealInFinder)));
    assert_eq!(s.popups.on_root_key(&k("escape")), RootKey::Menu(MenuKey::Close));
    assert_eq!(s.popups.on_root_key(&k("x")), RootKey::Nothing);
    assert_eq!(s.popups.on_root_key(&k("escape")), RootKey::BackToBranches);
    assert!(s.popups.git_popup.open);
    assert_eq!(s.popups.on_root_key(&k("escape")), RootKey::Closed);
    assert!(s.frame().overlays.is_empty());
    assert_eq!(s.popups.on_root_key(&k("escape")), RootKey::Nothing);
}

#[test]
fn menus_take_numbers() {
    assert_eq!(editor_ctx_actions().len(), 4);
    assert_eq!(tree_ctx_actions()[5], (TreeAction::Delete, "Delete"));
    assert_eq!(editor_ctx_key(&k("1")), MenuKey::RunEditor(EditorAction::Reveal));
    assert_eq!(editor_ctx_key(&k("4")), MenuKey::RunEditor(EditorAction::CloseTab));
    assert_eq!(editor_ctx_key(&k("5")), MenuKey::Nothing);
    assert_eq!(editor_ctx_key(&k("0")), MenuKey::Nothing);
    assert_eq!(editor_ctx_key(&k("a")), MenuKey::Nothing);
    assert_eq!(tree_ctx_key(&k("6")), MenuKey::RunTree(TreeAction::Delete));
}

#[test]
fn the_editors_menu_works_on_the_active_file() {
    let mut s = storm();
    s.popups.editor_ctx = true;
    assert!(matches!(s.editor_ctx_run(EditorAction::CopyPath), EditorRun::Nothing));
    s.project.open_file(&p("/work/tide/src/x.rs"), 5);
    match s.editor_ctx_run(EditorAction::CopyPath) {
        EditorRun::Copy(t, m) => assert_eq!((t.as_str(), m), ("src/x.rs", "Reference copied")),
        other => panic!("{:?}", other),
    }
    match s.editor_ctx_run(EditorAction::CopyFullPath) {
        EditorRun::Copy(t, m) => assert_eq!((t.as_str(), m), ("/work/tide/src/x.rs", "Full path copied")),
        other => panic!("{:?}", other),
    }
    s.left.shown = false;
    assert!(matches!(s.editor_ctx_run(EditorAction::Reveal), EditorRun::Revealed));
    assert!(s.left.shown && !s.popups.editor_ctx);
    assert!(s.project.tree.expanded.contains(&p("/work/tide/src")));
}

#[test]
fn the_trees_menu_works_on_its_path() {
    let mut s = storm();
    s.popups.tree_ctx = Some(p("/work/tide/src"));
    assert!(matches!(s.tree_ctx_run(TreeAction::NewFile, true), TreeRun::AskName(_)));
    assert_eq!(s.popups.new_file.as_ref().unwrap().to_text(), "/work/tide/src");
    assert!(s.popups.tree_ctx.is_none());
    s.popups.tree_ctx = Some(p("/work/tide/src"));
    assert!(matches!(s.tree_ctx_run(TreeAction::Refresh, true), TreeRun::Rebuild));
    assert!(s.project.tree.expanded.contains(&p("/work/tide/src")));
    s.popups.tree_ctx = Some(p("/work/tide/a.rs"));
    assert!(matches!(s.tree_ctx_run(TreeAction::Delete, false), TreeRun::Confirm));
    assert!(s.project.tree.confirm_delete.is_some());
    assert!(matches!(s.tree_ctx_run(TreeAction::RevealInFinder, false), TreeRun::Nothing));
}

#[test]
fn docks_that_share_a_place_exclude_each_other() {
    let mut d = Docks::new(1);
    d.toggle_run();
    assert!(d.run.open);
    assert_eq!(d.toggle_git_log(), Focus::GitLog);
    assert!(d.git_open && !d.run.open);
    d.toggle_run();
    assert!(d.run.open && !d.git_open);
    d.toggle_run();
    d.toggle_git_log();
    d.run.start("make");
    d.run_finished(false, false);
    assert!(d.run.open && !d.git_open);
    d.toggle_git_log();
    d.open_run();
    assert!(d.run.open && !d.git_open);
    assert_eq!(d.toggle_browser(), Focus::Same);
    assert!(!d.browser_open);
    assert_eq!(d.toggle_agent(), Focus::Same);
    assert_eq!(d.browser_navigate("localhost"), "http://localhost");
    assert_eq!(d.browser_url, "http://localhost");
}

#[test]
fn terminals_come_and_go() {
    let mut d = Docks::new(1);
    assert_eq!(d.new_terminal(2), Focus::Terminal(2));
    assert_eq!(d.new_terminal(3), Focus::Terminal(3));
    assert_eq!(d.switch_terminal(0), Focus::Terminal(1));
    assert_eq!(d.switch_terminal(9), Focus::Same);
    assert_eq!(d.close_terminal(0), (Some(1), Focus::Terminal(2)));
    assert_eq!(d.close_other_terminals(), (vec![3], Focus::Terminal(2)));
    assert_eq!(d.close_terminal(0), (Some(2), Focus::Active));
    assert!(!d.show_terminal);
    assert_eq!(d.close_terminal(0), (None, Focus::Same));
    assert_eq!(d.toggle_terminal(9), Focus::Terminal(9));
    assert_eq!(d.toggle_terminal(10), Focus::Active);
    assert_eq!(d.terminals.items, vec![9]);
}

#[test]
fn a_panel_is_shown_and_hidden() {
    let mut l = LeftPanel { view: LeftView::Files, shown: true };
    assert!(!l.choose_view(LeftView::Files));
    assert!(!l.shown);
    assert!(!l.choose_view(LeftView::Files));
    assert!(l.shown);
    assert!(l.choose_view(LeftView::PullRequest));
    assert!(!l.choose_view(LeftView::PullRequest));
    l.show(LeftView::Changes);
    assert_eq!(l, LeftPanel { view: LeftView::Changes, shown: true });
}

#[test]
fn the_first_drag_is_followed() {
    let mut d = Drags {
        tree: false,
        term: true,
        agent: false,
        git: true,
        find_edge: Some(ResizeEdges { l: true, r: false, t: false, b: false }),
        find_moving: false,
        find_split: false,
    };
    assert_eq!(d.dragging(), DragTarget::Term);
    assert!(d.on_mouse_up());
    assert_eq!(d.dragging(), DragTarget::Idle);
    assert!(!d.on_mouse_up());
}

#[test]
fn the_repository_is_watched() {
    let mut s = storm();
    assert!(s.repo.pr_outdated("feat"));
    let root = p("/work/tide");
    let mut ignored = PathSet::new();
    ignored.insert(p("/work/tide/target"));
    let again = ignored.copy();
    let changed = s.polled(
        compute_git(&root, " M a.rs\n"),
        "feat".to_string(),
        64,
        ignored,
        Some((Some(link(PrStatus::Pending)), Some("main".to_string()))),
    );
    assert!(changed);
    assert!(!s.repo.pr_outdated("feat"));
    assert!(!s.polled(compute_git(&root, ""), "feat".to_string(), 65, again, None));
    assert!(s.repo.pr_link.is_some());
    assert_eq!(s.repo.mem_mb, 65);
    s.repo.status_refreshed(compute_git(&root, "?? n\n"));
    assert_eq!(s.repo.status.items.len(), 1);
}

#[test]
fn a_detached_head_goes_by_its_pull_request() {
    let mut r = Repo::new();
    r.branch = "HEAD".to_string();
    assert_eq!(r.branch_label(), "HEAD");
    r.pr_refreshed(Some(link(PrStatus::Passing)), "HEAD".to_string());
    assert_eq!(r.branch_label(), "feat");
    r.branch = "other".to_string();
    assert_eq!(r.branch_label(), "other");
}

#[test]
fn the_top_bar() {
    let mut s = storm();
    let b = topbar(&s);
    assert!(b.branch.is_none() && b.pr.is_none() && !b.no_pr && b.refresh_tip.is_none());
    assert_eq!((b.mode, b.mode_bg, b.memory.as_str()), ("🔒 READ-ONLY", ACCENT, "0 MB"));
    assert!(copy_branch(&s.repo).is_none());
    s.repo.branch = "feat".to_string();
    s.repo.parent = Some("main".to_string());
    let b = topbar(&s);
    assert_eq!(b.branch.unwrap(), ("⎇ feat".to_string(), Some("→ main".to_string())));
    assert!(b.no_pr);
    assert_eq!(b.refresh_tip, Some("Check for a PR"));
    s.repo.pr_link = Some(link(PrStatus::Failing));
    assert_eq!(s.toggle_read_only(), "Edit mode");
    let b = topbar(&s);
    assert_eq!(b.branch.unwrap().1, Some("→ next".to_string()));
    assert_eq!(b.pr, Some(("#12".to_string(), 0xe04141)));
    assert_eq!((b.mode, b.mode_bg), ("✎ EDIT", GIT_MODIFIED));
    assert_eq!(copy_branch(&s.repo).unwrap().0, "feat");
}

#[test]
fn the_dashboard() {
    let mut s = storm();
    s.repo.parent = Some("main".to_string());
    let c = status_card(&s);
    assert_eq!((c.changes.as_str(), c.changes_icon), ("Working tree clean", MUTED));
    assert!(matches!(c.pr, StatusPr::Missing(Some(ref b)) if b == "main"));
    s.repo.status = compute_git(&p("/work/tide"), " M a\n");
    s.repo.pr_link = Some(link(PrStatus::Pending));
    let c = status_card(&s);
    assert_eq!(c.changes, "1 uncommitted file");
    match c.pr {
        StatusPr::Link(n, base, word, color) => {
            assert_eq!((n.as_str(), base.as_str(), word, color), ("PR #12", "next", "checks running", 0xd9a23b))
        }
        StatusPr::Missing(_) => panic!(),
    }
    s.repo.status = compute_git(&p("/work/tide"), " M a\n M b\n");
    assert_eq!(status_card(&s).changes, "2 uncommitted files");
}

#[test]
fn icons_show_what_is_open() {
    let mut s = storm();
    s.repo.status = compute_git(&p("/work/tide"), " M a\n M b\n");
    let v = activity_left(&s);
    assert!(v[0].active && !v[1].active && !v[3].active);
    assert_eq!(v[1].badge.as_deref(), Some("2"));
    assert_eq!(activity_right(&s.docks).len(), 1);
    assert_eq!(activity_badge(0), None);
    assert_eq!(activity_badge(99).as_deref(), Some("99"));
    assert_eq!(activity_badge(100).as_deref(), Some("99+"));
    assert_eq!(terminal_label(1, false), ("Terminal 2".to_string(), MUTED));
}

#[test]
fn labels_of_files() {
    let g: GitStatus = compute_git(&p("/p"), " M a.rs\n");
    assert_eq!(tab_label(&g, &p("/p/a.rs"), false, true), ("● a.rs".to_string(), GIT_MODIFIED));
    assert_eq!(tab_label(&g, &p("/p/b.rs"), true, false), ("b.rs".to_string(), TEXT));
    assert_eq!(tab_label(&g, &p("/p/b.rs"), false, false), ("b.rs".to_string(), MUTED));
    assert_eq!(crumb(&p("/p"), &p("/p/src/a.rs"), false), ("src/a.rs".to_string(), true));
    assert_eq!(crumb(&p("/p"), &p("scratch 1"), true), ("scratch 1".to_string(), false));
    assert_eq!(line_reference(&p("/p"), &p("/p/a.rs"), 7), "a.rs:7");
    assert_eq!(copied_label(3), "Copied 3 paths");
    assert_eq!(
        github_address("https://github.com/o/r", "", &p("/p"), &Some((p("/p/a.rs"), 7))),
        "https://github.com/o/r/blob/main/a.rs#L7"
    );
    assert_eq!(github_address("https://github.com/o/r", "feat", &p("/p"), &None), "https://github.com/o/r/tree/feat");
    let (ask, body) = confirm_delete_text(&p("/p/src"), true);
    assert_eq!((ask, body.as_str()), ("Delete folder?", "“src” and all its contents will be permanently deleted."));
    assert_eq!(confirm_delete_text(&p("/p/a"), false).1, "“a” will be permanently deleted.");
}

#[test]
fn rows_of_the_tree() {
    let mut s = storm();
    let l = tree_look(&s.project.tree, &s.repo.status, 1);
    assert_eq!((l.name.as_str(), l.chevron, l.fg, l.depth), ("src", "▸", DIR, 1));
    s.repo.status = compute_git(&p("/work/tide"), " M a.rs\n");
    let l = tree_look(&s.project.tree, &s.repo.status, 2);
    assert_eq!((l.chevron, l.fg, l.selected), ("", GIT_MODIFIED, false));
    s.project.tree.select_entry(2, false, false);
    assert_eq!(tree_look(&s.project.tree, &s.repo.status, 2).fg, SEL_TEXT);
}

#[test]
fn projects_in_the_switcher() {
    let s = Siblings {
        names: vec!["a".to_string(), "b".to_string()],
        branches: vec!["main".to_string(), String::new()],
        active: 1,
    };
    let v = project_rows(&s);
    assert_eq!(v[0].branch.as_deref(), Some("⎇ main"));
    assert!(v[1].branch.is_none() && v[1].selected && v[0].can_close);
}

#[test]
fn a_command_that_ends_is_followed_up() {
    let mut s = storm();
    s.repo.branch = "main".to_string();
    s.docks.run.start("git merge next");
    let e = s.run_finished(false, vec![p("/work/tide/a.rs")], "next".to_string());
    assert!(e.show_conflicts && s.popups.conflicts.open);
    assert_eq!(s.popups.conflicts.title(), "Conflicts — merging next into main");
    let g = s.docks.run.start("git push");
    s.docks.run.poll(g, vec!["rejected".to_string()]);
    s.run_finished(false, Vec::new(), String::new());
    assert!(s.popups.push.ahead);
}

#[test]
fn a_diff_is_shown_where_it_belongs() {
    let mut s = storm();
    assert!(matches!(s.act_show_diff(false, ""), ShowDiff::Nothing));
    s.repo.status = compute_git(&p("/work/tide"), " M a.rs\n");
    s.left.show(LeftView::Changes);
    match s.act_show_diff(false, "flt") {
        ShowDiff::Working(d) => assert_eq!((d.files.len(), d.filter_text.as_str()), (1, "flt")),
        other => panic!("{:?}", other),
    }
    s.left.show(LeftView::PullRequest);
    assert!(matches!(s.act_show_diff(false, ""), ShowDiff::Nothing));
    s.review.selected = Some(p("/work/tide/a.rs"));
    assert!(matches!(s.act_show_diff(false, ""), ShowDiff::Review(_)));
    s.popups.push.open = true;
    assert!(matches!(s.act_show_diff(false, ""), ShowDiff::Nothing));
    s.popups.push.selected = Some(p("/work/tide/b.rs"));
    assert!(matches!(s.act_show_diff(false, ""), ShowDiff::Push(_)));
}

#[test]
fn files_are_opened_from_panels() {
    let mut s = storm();
    s.open_commit_file(&p("/work/tide/a.rs"), 4);
    assert!(!s.left.shown);
    assert_eq!(s.act_open_finder(), Some(4));
    assert!(s.popups.finder.open);
    s.popups.finder.dirs_mode = true;
    assert!(s.open_finder_result(&p("/work/tide/src"), 5).is_none());
    assert!(s.left.shown && !s.popups.finder.open && s.project.tree.expanded.contains(&p("/work/tide/src")));
    s.popups.finder.dirs_mode = false;
    assert_eq!(s.open_finder_result(&p("/work/tide/b.rs"), 6), Some((Some(4), Opened::Fresh(1))));
    assert_eq!(s.act_goto(), Some(6));
    assert_eq!(s.popups.goto_key(&k("enter"), "3:4", true), (Some((3, 4)), false));
    assert!(!s.popups.goto_open);
    assert_eq!(s.project.switch_tab(0), (Some(6), true));
    assert_eq!(s.project.switch_tab(5), (None, false));
    assert_eq!(s.project.close_tab(0), Some(4));
    assert_eq!(s.project.tree.selected.as_ref().unwrap().to_text(), "/work/tide/b.rs");
    s.project.close_other_tabs();
    assert_eq!(s.project.tabs.list.items.len(), 1);
    s.repo.status = compute_git(&p("/work/tide"), " M b.rs\n");
    assert_eq!(s.act_goto_commit(), Some(6));
    assert!(s.commit.checked.contains(&p("/work/tide/b.rs")));
    assert_eq!(s.toggle_terminal(9).1, Focus::Active);
}

#[test]
fn carets_blink() {
    let mut s = storm();
    assert!(!s.blink());
    s.popups.run_prompt = true;
    assert!(s.blink());
    assert_eq!((caret(true), caret(false)), ("▏", " "));
    assert_eq!((caret_if(true, false), caret_if(true, true)), ("", "▏"));
}

#[test]
fn messages_go_away() {
    let mut s = storm();
    let a = s.flash.show("one");
    let b = s.flash.show("two");
    s.flash.expire(a);
    assert_eq!(s.flash.msg.as_deref(), Some("two"));
    assert_eq!(s.frame().overlays, vec![Overlay::Flash]);
    s.flash.expire(b);
    assert!(s.flash.msg.is_none());
}

#[test]
fn a_conflict_is_merged_by_hand() {
    let mut m = MergeWindow::new(p("/p"), p("/p/src/a.rs"), "ours".to_string(), "theirs".to_string(), "<<<<".to_string());
    assert_eq!(m.title(), "Merge — src/a.rs");
    m.take_side(true);
    assert_eq!(m.resolve().text, "theirs");
    m.take_side(false);
    assert_eq!(m.resolve().text, "ours");
    m.edited("both".to_string());
    let r = m.resolve();
    assert_eq!((r.text.as_str(), r.stage.as_str(), r.path.to_text().as_str()), ("both", "src/a.rs", "/p/src/a.rs"));
}

#[test]
fn projects_are_switched_and_closed() {
    let mut w = Workspace::new();
    for id in [10, 11, 12] {
        w.add_project(id);
    }
    w.start();
    assert_eq!(w.active, 0);
    w.prev_project();
    assert_eq!(w.active, 2);
    w.next_project();
    assert_eq!(w.active, 0);
    w.reorder_projects(0, 2);
    assert_eq!(w.projects, vec![11, 10, 12]);
    assert_eq!(w.projects[w.active], 10);
    w.remove_project(0);
    assert_eq!(w.projects[w.active], 10);
    w.show_projects();
    assert!(w.switcher_open);
    w.switcher_key(&k("down"));
    w.switcher_key(&k("enter"));
    assert_eq!(w.projects[w.active], 12);
    assert!(!w.switcher_open);
    assert!(matches!(w.navigate(ProjectNav::Open), NavAction::PickFolder));
    assert!(matches!(w.navigate(ProjectNav::OpenPath(p("/x"))), NavAction::OpenPath(_)));
    assert!(matches!(w.navigate(ProjectNav::Switch(0)), NavAction::Done));
    assert!(w.take_focus(false, false));
    assert!(!w.take_focus(false, false));
    assert!(w.take_focus(true, false));
    w.show_projects();
    w.close_in_switcher(1);
    assert_eq!(w.projects.len(), 1);
    assert!(!w.switcher_open);
    w.remove_project(0);
    assert_eq!(w.projects.len(), 1);
}
