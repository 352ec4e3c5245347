use tide::keys::{percent, step_down, step_up, Keystroke};
use tide::palette::{
    palette_execute, palette_items, BranchAction, Cmd, CmdAction, GitAction, GitItem, GitPopup, Palette, PaletteKey,
    PopupAction,
};
use tide::path::FilePath;
use tide::prompts::{
    filter_key, new_file_dir, new_file_label, new_file_path, normalize_url, picked_folder, project_path, prompt_key,
    recent_rows, typed_command, BranchPrompt, FilterKey, PrKey, PrPrompt, PromptKey, RunKey,
};

fn p(s: &str) -> FilePath {
    FilePath::parse(s)
}

fn k(s: &str) -> Keystroke {
    Keystroke::plain(s)
}

fn texts(v: &[&str]) -> Vec<String> {
    v.iter().map(|s| s.to_string()).collect()
}

#[test]
fn the_palette_lists_what_matches() {
    assert_eq!(palette_items("").len(), 24);
    assert_eq!(palette_items("")[0], Cmd::WipCommit);
    assert_eq!(palette_items("fetch")[0], Cmd::Fetch);
    assert!(palette_items("zzzz").is_empty());
    assert_eq!(Cmd::Commit.entry().0, "Commit…");
    assert_eq!(Cmd::Commit.entry().2, "⌘K");
}

#[test]
fn the_palette_runs_a_command() {
    let mut q = Palette::new();
    q.show();
    assert!(q.open && q.results.len() == 24);
    let old = q.schedule();
    let new = q.schedule();
    q.refilter(old, "fetch");
    assert_eq!(q.results.len(), 24);
    q.refilter(new, "fetch");
    assert_eq!(q.results[0], Cmd::Fetch);
    match q.palette_key(&k("enter")) {
        PaletteKey::Run(c) => assert_eq!(c, Cmd::Fetch),
        other => panic!("{:?}", other),
    }
    let mut q = Palette::new();
    q.show();
    assert!(matches!(q.palette_key(&k("down")), PaletteKey::Moved));
    assert_eq!(q.sel, 1);
    assert!(matches!(q.palette_key(&k("escape")), PaletteKey::Close));
    assert!(!q.open);
}

#[test]
fn commands_have_their_actions() {
    let shell = |c: Cmd| match palette_execute(c, "feat") {
        CmdAction::Shell(s) => s,
        other => panic!("{:?}", other),
    };
    assert_eq!(shell(Cmd::WipPush), "wipp");
    assert_eq!(shell(Cmd::Pull), "git pull --no-rebase");
    assert_eq!(shell(Cmd::Fetch), "git fetch --all --prune");
    match palette_execute(Cmd::CopyRenameSession, "") {
        CmdAction::CopyText(t, m) => assert_eq!((t.as_str(), m), ("/rename ⭐ session", "/rename command copied")),
        other => panic!("{:?}", other),
    }
    match palette_execute(Cmd::CopyBranch, "feat") {
        CmdAction::CopyText(t, _) => assert_eq!(t, "feat"),
        other => panic!("{:?}", other),
    }
    assert!(matches!(palette_execute(Cmd::CopyBranch, ""), CmdAction::Nothing));
    assert!(matches!(palette_execute(Cmd::ReleasePrs, ""), CmdAction::Browse(_)));
    assert!(matches!(palette_execute(Cmd::ResolveConflicts, ""), CmdAction::Conflicts));
}

#[test]
fn branches_are_filtered_and_acted_on() {
    let mut g = GitPopup::new();
    g.show(texts(&["main", "origin/next", "feat"]), texts(&["main", "feat"]));
    assert_eq!(g.items("").len(), 9);
    let found = g.items("orinext");
    assert_eq!(found.len(), 1);
    match &found[0] {
        GitItem::Branch(b) => assert_eq!(b, "origin/next"),
        other => panic!("{:?}", other),
    }
    assert!(matches!(g.choose_item(&GitItem::Branch("feat".to_string())), PopupAction::Submenu));
    assert_eq!(g.branch_actions("main"), vec![BranchAction::Checkout, BranchAction::Merge, BranchAction::Delete]);
    assert_eq!(g.branch_actions("feat"), vec![BranchAction::Checkout, BranchAction::Merge]);
    assert!(matches!(g.gitp_key(&k("down"), "", "main"), PopupAction::Moved));
    match g.gitp_key(&k("enter"), "", "main") {
        PopupAction::Shell(s) => assert_eq!(s, "git merge feat"),
        other => panic!("{:?}", other),
    }
    assert!(!g.open && g.action_branch.is_none());
    g.sel = 3;
    g.retyped();
    assert_eq!(g.sel, 0);
    assert_eq!(BranchAction::Delete.command("x"), "git branch -d x");
    assert_eq!(
        BranchAction::Checkout.command("x"),
        "b='x'; if git show-ref --verify --quiet \"refs/remotes/$b\"; then git checkout \"${b#*/}\"; else git checkout \"$b\"; fi"
    );
}

#[test]
fn actions_of_the_git_popup() {
    let run = |a: GitAction| {
        let mut g = GitPopup::new();
        g.show(Vec::new(), Vec::new());
        let r = g.choose_item(&GitItem::Action(a));
        assert!(!g.open);
        r
    };
    assert!(matches!(run(GitAction::Commit), PopupAction::CommitPane));
    assert!(matches!(run(GitAction::CreatePr), PopupAction::CreatePrPrompt));
    assert!(matches!(run(GitAction::NewBranch), PopupAction::BranchPrompt));
    match run(GitAction::Update) {
        PopupAction::Shell(s) => assert_eq!(s, "git pull"),
        other => panic!("{:?}", other),
    }
    let mut g = GitPopup::new();
    g.show(texts(&["a"]), Vec::new());
    assert!(matches!(g.gitp_key(&k("escape"), "", ""), PopupAction::Close));
}

#[test]
fn a_branch_is_made_with_or_without_a_pull_request() {
    let mut b = BranchPrompt::new();
    b.show();
    assert!(matches!(b.br_key(&k("tab"), ""), RunKey::Changed));
    match b.br_key(&k("enter"), " feat ") {
        RunKey::Run(s) => assert_eq!(s, "br feat && git push -u origin HEAD && pr"),
        other => panic!("{:?}", other),
    }
    b.show();
    match b.br_key(&k("enter"), "feat") {
        RunKey::Run(s) => assert_eq!(s, "br feat"),
        other => panic!("{:?}", other),
    }
    b.show();
    assert!(matches!(b.br_key(&k("enter"), " "), RunKey::Nothing));
    assert!(!b.open);
}

#[test]
fn a_milestone_is_suggested() {
    let mut q = PrPrompt::new();
    q.show();
    q.loaded(texts(&["v1.0", "V2.0", "v2.1"]));
    assert_eq!(q.suggest("v2"), vec!["V2.0", "v2.1"]);
    assert!(matches!(q.prc_key(&k("down"), "v2"), PrKey::Moved));
    assert!(matches!(q.prc_key(&k("down"), "v2"), PrKey::Moved));
    assert_eq!(q.sel, 1);
    q.retyped();
    assert_eq!((q.sel, q.open, q.milestones.len()), (0, true, 3));
    assert!(matches!(q.prc_key(&k("down"), "v2"), PrKey::Moved));
    match q.prc_key(&k("tab"), "v2") {
        PrKey::Fill(m) => assert_eq!(m, "v2.1"),
        other => panic!("{:?}", other),
    }
    match q.prc_key(&k("enter"), "v2") {
        PrKey::Create { command, remember } => {
            assert_eq!(command, "pr --ms v2.1");
            assert_eq!(remember, Some("v2.1".to_string()));
        }
        other => panic!("{:?}", other),
    }
    assert!(!q.open);
    let mut q = PrPrompt::new();
    q.show();
    match q.prc_key(&k("enter"), " ") {
        PrKey::Create { command, remember } => assert_eq!((command.as_str(), remember), ("pr", None)),
        other => panic!("{:?}", other),
    }
    q.loaded(texts(&["late"]));
    assert!(q.milestones.is_empty());
    assert_eq!(q.hint(), "Enter to create · Esc to cancel");
    q.show();
    q.loaded(texts(&["v3"]));
    assert_eq!(q.hint(), "↑↓ to pick · Tab to fill · Enter to create · Esc to cancel");
    match q.click_suggestion("v3") {
        PrKey::Create { command, remember } => assert_eq!((command.as_str(), remember.as_deref()), ("pr --ms v3", Some("v3"))),
        other => panic!("{:?}", other),
    }
    assert!(!q.open);
}

#[test]
fn new_files_go_where_the_menu_was_opened() {
    let root = p("/p");
    assert_eq!(new_file_dir(&root, &Some(p("/p/src")), true).to_text(), "/p/src");
    assert_eq!(new_file_dir(&root, &Some(p("/p/src/a.rs")), false).to_text(), "/p/src");
    assert_eq!(new_file_dir(&root, &None, false).to_text(), "/p");
    assert_eq!(new_file_path(&p("/p/src"), " sub/x.ts ").unwrap().to_text(), "/p/src/sub/x.ts");
    assert!(new_file_path(&p("/p"), "  ").is_none());
    assert!(new_file_label(&root, &p("/p/src")).contains("src"));
    assert_eq!(prompt_key(&k("escape")), PromptKey::Cancel);
    assert_eq!(prompt_key(&k("enter")), PromptKey::Submit);
    assert_eq!(prompt_key(&k("a")), PromptKey::Edit);
    assert_eq!(typed_command(" ls "), Some("ls".to_string()));
    assert_eq!(typed_command(" "), None);
    assert_eq!(filter_key(&k("escape")), FilterKey::Clear);
    assert_eq!(filter_key(&k("x")), FilterKey::Edit);
}

#[test]
fn projects_are_found_by_path() {
    assert_eq!(project_path(" ~/x ", Some("/home/me")).unwrap().to_text(), "/home/me/x");
    assert_eq!(project_path("~/x", None).unwrap().to_text(), "~/x");
    assert_eq!(project_path("/abs", Some("/home/me")).unwrap().to_text(), "/abs");
    assert!(project_path("  ", None).is_none());
    assert_eq!(picked_folder("/Users/me/p/\n"), Some("/Users/me/p".to_string()));
    assert_eq!(picked_folder("\n"), None);
    let many: Vec<FilePath> = (0..12).map(|i| p(&format!("/x/p{}", i))).collect();
    let r = recent_rows(&many);
    assert_eq!(r.len(), 10);
    assert_eq!(r[1], ("p1".to_string(), "/x".to_string()));
    assert_eq!(recent_rows(&vec![p("/")])[0], (String::new(), String::new()));
}

#[test]
fn addresses_are_completed() {
    for (s, want) in [
        ("", "about:blank"),
        (" localhost:3000 ", "http://localhost:3000"),
        ("127.0.0.1/x", "http://127.0.0.1/x"),
        ("127.5.0.7:80", "http://127.5.0.7:80"),
        ("10.0.0.7:80", "https://10.0.0.7:80"),
        (":3000", "http://:3000"),
        ("3000/x", "http://3000/x"),
        ("/x:1", "https:///x:1"),
        ("3000x", "https://3000x"),
        ("256.0.0.1", "https://256.0.0.1"),
        ("01.2.3.4", "https://01.2.3.4"),
        ("example.com", "https://example.com"),
        ("ftp://x", "ftp://x"),
    ] {
        assert_eq!(normalize_url(s), want, "{}", s);
    }
}

#[test]
fn four_small_numbers_from_127_are_this_machine() {
    for (h, near) in [
        ("127.2.3.4", true),
        ("127.0.0.0", true),
        ("127.255.255.255", true),
        ("127.2.3", false),
        ("127.2.3.4.5", false),
        ("127.2.3.256", false),
        ("0127.2.3.4", false),
        ("127..2.3", false),
        ("a.b.c.d", false),
        ("127.2.3.4x", false),
    ] {
        let want = if near { format!("http://{}", h) } else { format!("https://{}", h) };
        assert_eq!(normalize_url(h), want);
    }
}

#[test]
fn lists_are_moved_through() {
    assert_eq!(step_down(0, 0), 0);
    assert_eq!(step_down(1, 3), 2);
    assert_eq!(step_down(2, 3), 2);
    assert_eq!(step_down(9, 3), 2);
    assert_eq!((step_up(0), step_up(2)), (0, 1));
    assert_eq!((percent(1, 3), percent(0, 0), percent(3, 3)), (33, 0, 100));
}
