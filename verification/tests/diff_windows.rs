use tide::changes::MarkFilter;
use tide::diff::{DiffKind, DiffRow, DiffSide};
use tide::diffwin::{to_toggle, DiffKey, DiffWindow, SearchKey, SidebarKey, SidebarRow};
use tide::keys::Keystroke;
use tide::path::{FilePath, PathSet};
use tide::review::DiffRequest;

fn p(s: &str) -> FilePath {
    FilePath::parse(s)
}

fn key(name: &str, mods: &str) -> Keystroke {
    let mut k = Keystroke::plain(name);
    k.platform = mods.contains('p');
    k.shift = mods.contains('s');
    k
}

fn rows() -> Vec<DiffRow> {
    let mk = |l: &str, r: &str, n: usize, kind: DiffKind| DiffRow {
        left: Some(l.to_string()),
        right: Some(r.to_string()),
        left_no: Some(n),
        right_no: Some(n),
        kind,
    };
    vec![
        mk("one", "one", 1, DiffKind::Equal),
        mk("two", "two", 2, DiffKind::Equal),
        mk("three", "three", 3, DiffKind::Equal),
        mk("four", "four", 4, DiffKind::Equal),
        mk("five", "fire", 5, DiffKind::Replace),
    ]
}

fn window(review: bool) -> DiffWindow {
    let req = DiffRequest {
        files: ["/p/src/b.rs", "/p/src/a.rs", "/p/z.rs"].iter().map(|s| p(s)).collect(),
        idx: 1,
        old: None,
        new_rev: None,
        pr_mode: review,
        filter_text: String::new(),
        view: MarkFilter::All,
    };
    DiffWindow::new(p("/p"), req, PathSet::new(), rows(), Vec::new(), Vec::new())
}

fn show(v: &[SidebarRow]) -> Vec<String> {
    v.iter()
        .map(|r| match r {
            SidebarRow::Dir { depth, label, files, viewed, .. } => format!("{} {}/ {} {}", depth, label, files.len(), viewed),
            SidebarRow::File { depth, label, idx, selected, .. } => format!("{} {} {} {}", depth, label, idx, selected),
        })
        .collect()
}

#[test]
fn the_sidebar_lists_the_files() {
    let mut w = window(false);
    assert_eq!(show(&w.sidebar("")), vec!["0 src/ 2 false", "1 a.rs 1 true", "1 b.rs 0 false", "0 z.rs 2 false"]);
    w.toggle_dir(&p("src"));
    assert_eq!(show(&w.sidebar("")), vec!["0 src/ 2 false", "0 z.rs 2 false"]);
    assert_eq!(show(&w.sidebar("SRC/B")), vec!["0 src/ 2 false", "1 b.rs 0 false"]);
    assert_eq!(w.first_listed("b.rs"), Some(0));
    assert_eq!(w.filter_key(&key("enter", ""), "b.rs"), SidebarKey::Goto(0));
    assert_eq!(w.filter_key(&key("enter", ""), "nothing"), SidebarKey::Nothing);
    assert_eq!(w.filter_key(&key("escape", ""), "b"), SidebarKey::Clear);
    assert_eq!(w.filter_key(&key("escape", ""), ""), SidebarKey::Leave);
    assert_eq!(w.filter_key(&key("x", ""), ""), SidebarKey::Edit);
}

#[test]
fn stepping_goes_to_visible_files_only() {
    let mut w = window(true);
    assert_eq!(w.visible_files(""), vec![0, 1, 2]);
    assert_eq!(w.goto_step("", true), Some(2));
    assert_eq!(w.goto_step("", false), Some(0));
    assert_eq!(w.goto_step("src", true), None);
    w.toggle_viewed(&p("/p/z.rs"));
    w.pr_filter = MarkFilter::Unmarked;
    assert_eq!(w.visible_files(""), vec![0, 1]);
    assert_eq!(w.goto_step("", true), None);
    w.pr_filter = MarkFilter::Marked;
    assert_eq!(w.goto_step("", true), Some(2));
    let n = w.nav_bar("");
    assert_eq!((n.position.as_str(), n.has_prev, n.has_next), ("0/1", true, true));
    assert_eq!(n.path, "src/a.rs");
    assert_eq!(n.differences, "1 difference");
    w.pr_filter = MarkFilter::All;
    assert_eq!(w.nav_bar("").position, "2/3");
}

#[test]
fn another_file_is_shown() {
    let mut w = window(false);
    w.search_changed("f");
    w.goto(2, rows(), Vec::new(), Vec::new(), "fire");
    assert_eq!((w.idx, w.matches.len(), w.cur_match), (2, 1, 0));
    assert!(w.sel.is_none() && w.caret.is_none() && w.pending_scroll);
    assert_eq!(w.take_scroll(), Some(1));
    assert_eq!(w.take_scroll(), None);
}

#[test]
fn matches_are_stepped_through() {
    let mut w = window(false);
    assert_eq!(w.match_label(), "No results");
    w.search_changed("o");
    let n = w.matches.len();
    assert!(n > 2);
    assert_eq!(w.match_label(), format!("1/{}", n));
    assert!(w.caret.is_some());
    w.step_match(false);
    assert_eq!(w.cur_match, n - 1);
    w.step_match(true);
    assert_eq!(w.cur_match, 0);
    w.search_open = true;
    assert_eq!(w.search_key(&key("enter", "s")), SearchKey::Stepped);
    assert_eq!(w.cur_match, n - 1);
    assert_eq!(w.search_key(&key("x", "")), SearchKey::Edit);
    assert_eq!(w.search_key(&key("f", "p")), SearchKey::Close);
    assert!(!w.search_open);
}

#[test]
fn keys_in_a_diff_window() {
    let mut w = window(false);
    assert!(matches!(w.on_key(&key("c", "p"), ""), DiffKey::Nothing));
    assert!(matches!(w.on_key(&key("a", "p"), ""), DiffKey::SelectedAll));
    match w.on_key(&key("c", "p"), "") {
        DiffKey::Copy(t) => assert_eq!(t, "one\ntwo\nthree\nfour\nfire"),
        other => panic!("{:?}", other),
    }
    assert!(matches!(w.on_key(&key("down", ""), ""), DiffKey::Goto(2)));
    assert!(matches!(w.on_key(&key("left", ""), ""), DiffKey::Goto(0)));
    assert!(matches!(w.on_key(&key("f", "p"), ""), DiffKey::OpenSearch));
    assert!(matches!(w.on_key(&key("escape", ""), ""), DiffKey::CloseSearch));
    assert!(matches!(w.on_key(&key("escape", ""), ""), DiffKey::Close));
    w.mouse_down(DiffSide::Left, 4, 2, 1);
    assert!(matches!(w.on_key(&key("f4", ""), ""), DiffKey::OpenFile(5, 3)));
}

#[test]
fn the_mouse_selects() {
    let mut w = window(false);
    assert_eq!(w.cell(DiffSide::Right, 4, 99), Some((DiffSide::Right, 4, 4)));
    assert_eq!(w.cell(DiffSide::Right, 5, 0), None);
    w.mouse_down(DiffSide::Right, 0, 1, 1);
    assert!(w.mouse_move(DiffSide::Right, 1, 2));
    assert!(!w.mouse_move(DiffSide::Left, 1, 2));
    w.mouse_up();
    assert!(!w.mouse_move(DiffSide::Right, 1, 0));
    match w.on_key(&key("c", "p"), "") {
        DiffKey::Copy(t) => assert_eq!(t, "ne\ntw"),
        other => panic!("{:?}", other),
    }
    w.mouse_down(DiffSide::Right, 4, 1, 2);
    assert_eq!(w.sel.unwrap().range(), ((4, 0), (4, 4)));
    assert_eq!(w.pane(DiffSide::Right).len(), 5);
}

#[test]
fn marks_of_a_directory_agree() {
    let mut w = window(true);
    let files = vec![p("/p/src/a.rs"), p("/p/src/b.rs")];
    w.toggle_viewed(&files[0]);
    let mut other = PathSet::new();
    other.insert(p("/p/src/b.rs"));
    let mark = w.toggle_dir_viewed(&files);
    assert!(mark && w.pr_viewed.contains_all(&files));
    for f in to_toggle(&files, &other, mark) {
        other.toggle(&f);
    }
    assert!(other.contains_all(&files));
    assert_eq!(w.progress(), (2, 3, 66));
    assert!(!w.toggle_dir_viewed(&files));
    for f in to_toggle(&files, &other, false) {
        other.toggle(&f);
    }
    assert!(other.is_empty());
}
