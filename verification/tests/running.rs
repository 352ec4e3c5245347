use tide::console::{may_conflict, parse_recents, push_recent, strip_ansi, write_recents, RunConsole};
use tide::path::FilePath;

fn lines(v: &[&str]) -> Vec<String> {
    v.iter().map(|s| s.to_string()).collect()
}

fn shown(v: &[FilePath]) -> Vec<String> {
    v.iter().map(|p| p.to_text()).collect()
}

#[test]
fn escapes_are_stripped() {
    assert_eq!(strip_ansi("\u{1b}[31mred\u{1b}[0m\r\n"), "red\n");
    assert_eq!(strip_ansi("a\u{1b}Mb"), "ab");
    assert_eq!(strip_ansi("\u{1b}[1;2"), "");
    assert_eq!(strip_ansi("\u{1b}"), "");
    assert_eq!(strip_ansi("plain é"), "plain é");
    assert!(!strip_ansi("\u{1b}\u{1b}[31mx").contains('\u{1b}'));
}

#[test]
fn commands_that_merge_may_conflict() {
    for (c, want) in [
        ("git merge x", true),
        ("GIT PULL", true),
        ("git rebase -i", true),
        ("git cherry-pick a", true),
        ("git push", false),
    ] {
        assert_eq!(may_conflict(c), want, "{}", c);
    }
}

#[test]
fn a_run_that_succeeds() {
    let mut r = RunConsole::new();
    let g = r.start("git pull");
    assert_eq!(r.text(), "$ git pull");
    assert!(r.running && r.active && r.toast_shown());
    assert_eq!(r.toast().0, '⠋');
    assert_eq!(r.toast().3, "Running  git pull");
    assert!(r.poll(g, lines(&["one", "two"])));
    assert_eq!(r.text(), "$ git pull\none\ntwo");
    assert!(!r.poll(g + 1, lines(&["three"])));
    let e = r.finish(true, false);
    assert!(e.hide_later && !e.show_conflicts && !e.push_ahead && !e.up_to_date);
    assert!(!r.failed && !r.open && r.active);
    r.hide_toast(g);
    assert!(!r.active);
    assert_eq!(r.rerun(), Some("git pull".to_string()));
    assert_eq!(RunConsole::shell_text("ls"), "ls 2>&1");
}

#[test]
fn nothing_new_is_said_in_a_message() {
    let mut r = RunConsole::new();
    let g = r.start("git pull");
    r.poll(g, lines(&["Already up to date."]));
    let e = r.finish(true, false);
    assert!(e.up_to_date && !r.active);
}

#[test]
fn a_failure_shows_the_console() {
    let mut r = RunConsole::new();
    let g = r.start("make");
    r.poll(g, lines(&["error"]));
    let e = r.finish(false, true);
    assert_eq!((r.toast().2, r.toast().3.as_str()), ("FAILED", "make failed"));
    assert_eq!(r.header().1, "failed");
    assert!(r.open && r.failed && !r.active && !e.push_ahead && !e.show_conflicts && !e.hide_later);
}

#[test]
fn a_rejected_push_offers_to_integrate() {
    let mut r = RunConsole::new();
    let g = r.start("git push");
    r.poll(g, lines(&["! [Rejected] main -> main (fetch first)"]));
    let e = r.finish(false, false);
    assert!(e.push_ahead && !r.open && !r.active);
}

#[test]
fn conflicts_are_shown_after_a_merge() {
    let mut r = RunConsole::new();
    r.start("git merge next");
    assert!(r.finish(false, true).show_conflicts);
    assert!(!r.active);
}

#[test]
fn the_output_is_capped() {
    let mut r = RunConsole::new();
    let g = r.start("yes");
    let many: Vec<String> = (0..6000).map(|i| i.to_string()).collect();
    r.poll(g, many);
    assert_eq!(r.lines.len(), 5000);
    assert_eq!(r.lines[4999], "5999");
    assert_eq!(r.lines[0], "1000");
    r.clear();
    assert!(r.lines.is_empty());
}

#[test]
fn a_toast_that_was_followed_stays() {
    let mut r = RunConsole::new();
    let a = r.start("a");
    r.finish(true, false);
    r.start("b");
    r.hide_toast(a);
    assert!(r.active);
    r.open_from_toast();
    assert!(r.open);
}

#[test]
fn recent_projects_are_remembered() {
    let v: Vec<FilePath> = ["/a", "/b", "/c"].iter().map(|s| FilePath::parse(s)).collect();
    let w = push_recent(&v, &FilePath::parse("/b"));
    assert_eq!(shown(&w), vec!["/b", "/a", "/c"]);
    let text = write_recents(&w);
    assert_eq!(text, "/b\n/a\n/c");
    assert_eq!(shown(&parse_recents(&text)), vec!["/b", "/a", "/c"]);
    let mut many: Vec<FilePath> = (0..20).map(|i| FilePath::parse(&format!("/p{}", i))).collect();
    many = push_recent(&many, &FilePath::parse("/new"));
    assert_eq!(many.len(), 20);
    assert_eq!(many[0].to_text(), "/new");
    assert_eq!(many[19].to_text(), "/p18");
}
