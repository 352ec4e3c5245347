use tide::git::{
    branch_parent, compute_git, default_branch, diff_base_rev, github_base_url, ignored_paths, mem_mb, merge_source,
    parse_branches, parse_log_commits, parse_log_range, parse_name_status, path_set_in_lines, paths_in_lines, pr_base,
    random_id, resolve_base_ref, set_viewed_args, show_arg, stage_arg, strip_origin, three_dot, trimmed_content,
    trimmed_lines, two_dot, viewed_query_args, GitState,
};
use tide::path::FilePath;

fn root() -> FilePath {
    FilePath::parse("/p")
}

#[test]
fn status_lines_are_read() {
    let s = " M src/a.rs\n?? new.txt\nD  gone.rs\nR  old.rs -> b/new.rs\nA  added.rs\n D x y.rs\nbad\n";
    let g = compute_git(&root(), s);
    let at = |p: &str| g.get(&FilePath::parse(p));
    assert_eq!(at("/p/src/a.rs"), Some(GitState::Modified));
    assert_eq!(at("/p/new.txt"), Some(GitState::New));
    assert_eq!(at("/p/gone.rs"), Some(GitState::Deleted));
    assert_eq!(at("/p/b/new.rs"), Some(GitState::Modified));
    assert_eq!(at("/p/added.rs"), Some(GitState::New));
    assert_eq!(at("/p/x y.rs"), Some(GitState::Deleted));
    assert_eq!(at("/p/old.rs"), None);
    assert_eq!(g.items.len(), 6);
}

#[test]
fn status_columns_are_two_bytes() {
    let g = compute_git(&root(), "é odd.rs\nM é.rs\n漢 x\nMé y\nM漢 z\né\n");
    assert_eq!(g.get(&FilePath::parse("/p/odd.rs")), Some(GitState::Modified));
    assert_eq!(g.items.len(), 1);
}

#[test]
fn a_path_has_its_last_state() {
    let g = compute_git(&root(), "?? a\n M a\n");
    assert_eq!(g.items.len(), 1);
    assert_eq!(g.get(&FilePath::parse("/p/a")), Some(GitState::Modified));
}

#[test]
fn changes_are_sorted_by_path() {
    let g = compute_git(&root(), "?? z\n M a/b\n M a\n");
    let got: Vec<String> = g.sorted_changes().iter().map(|c| c.path.to_text()).collect();
    assert_eq!(got, vec!["/p/a", "/p/a/b", "/p/z"]);
}

#[test]
fn name_status_is_read_and_sorted() {
    let v = parse_name_status(&root(), "M\tz.rs\nA\ta.rs\nD\tb.rs\nR100\told.rs\tnew.rs\nX\n");
    let got: Vec<(String, GitState)> = v.iter().map(|c| (c.path.to_text(), c.state)).collect();
    assert_eq!(
        got,
        vec![
            ("/p/a.rs".to_string(), GitState::New),
            ("/p/b.rs".to_string(), GitState::Deleted),
            ("/p/new.rs".to_string(), GitState::Modified),
            ("/p/z.rs".to_string(), GitState::Modified),
        ]
    );
}

#[test]
fn log_lines_are_read() {
    let v = parse_log_range("abc\0one\nbroken\ndef\0two\0x\n");
    assert_eq!(
        v,
        vec![("abc".to_string(), "one".to_string()), ("def".to_string(), "two\0x".to_string())]
    );
    let c = parse_log_commits("h1\u{1f}s1\u{1f}A B\u{1f}2024-01-02 03:04\u{1f}sub\u{1f}ject\nh2\u{1f}s2\u{1f}C\u{1f}d\nshort\u{1f}x\n");
    assert_eq!(c.len(), 2);
    assert_eq!(c[0].hash, "h1");
    assert_eq!(c[0].short, "s1");
    assert_eq!(c[0].author, "A B");
    assert_eq!(c[0].date, "2024-01-02 03:04");
    assert_eq!(c[0].subject, "sub\u{1f}ject");
    assert_eq!(c[1].subject, "");
}

#[test]
fn branches_are_listed_once_and_in_order() {
    let v = parse_branches(
        "refs/heads/next\nrefs/remotes/origin/next\nrefs/remotes/origin/HEAD\nrefs/heads/next\nrefs/tags/v1\nrefs/heads/\n",
    );
    assert_eq!(v, vec!["next", "origin/next"]);
}

#[test]
fn the_default_branch_is_guessed() {
    assert_eq!(default_branch(Some("origin/trunk\n"), true, true, true), "trunk");
    assert_eq!(default_branch(Some(" \n"), false, true, true), "master");
    assert_eq!(default_branch(None, true, true, true), "main");
    assert_eq!(default_branch(None, false, false, true), "develop");
    assert_eq!(default_branch(None, false, false, false), "main");
    assert_eq!(pr_base(Some("next\n"), "main"), "next");
    assert_eq!(pr_base(Some("  "), "main"), "main");
    assert_eq!(pr_base(None, "main"), "main");
}

#[test]
fn the_base_of_a_diff_is_found() {
    assert_eq!(strip_origin("origin/next"), "next");
    assert_eq!(strip_origin("next"), "next");
    assert_eq!(resolve_base_ref("next", true), "origin/next");
    assert_eq!(resolve_base_ref("next", false), "next");
    assert_eq!(diff_base_rev("origin/next", Some("abc123\n")), "abc123");
    assert_eq!(diff_base_rev("origin/next", Some("\n")), "origin/next");
    assert_eq!(diff_base_rev("origin/next", None), "origin/next");
    assert_eq!(three_dot("origin/next"), "origin/next...HEAD");
    assert_eq!(two_dot("origin/next"), "origin/next..HEAD");
}

#[test]
fn the_merged_branch_is_named() {
    assert_eq!(merge_source(Some("Merge remote-tracking branch 'origin/next' into x\n\nmore"), Some("abc\n")), "origin/next");
    assert_eq!(merge_source(Some("Merge branch 'a' of 'b'"), None), "a' of 'b");
    assert_eq!(merge_source(Some("no quotes"), None), "the other branch");
    assert_eq!(merge_source(Some("no quotes"), Some("3f2a9c1\n")), "3f2a9c1");
    assert_eq!(merge_source(Some("''"), None), "the other branch");
    assert_eq!(merge_source(Some(""), Some(" \n")), "the other branch");
    assert_eq!(merge_source(None, Some("3f2a9c1\n")), "3f2a9c1");
    assert_eq!(merge_source(None, None), "the other branch");
}

#[test]
fn the_parent_of_a_branch_is_its_oldest_entry() {
    assert_eq!(
        branch_parent("commit: x\nbranch: Created from other\nbranch: Created from origin/next\n", "feat"),
        Some("next".to_string())
    );
    assert_eq!(branch_parent("branch: Created from HEAD\n", "feat"), None);
    assert_eq!(branch_parent("branch: Created from feat\n", "feat"), None);
    assert_eq!(branch_parent("commit: x\n", "feat"), None);
    assert_eq!(branch_parent("branch: Created from x\n", ""), None);
    assert_eq!(
        branch_parent("commit: x\nbranch: Created from 1a2b3c4d5e6f7a8b9c0d1a2b3c4d5e6f7a8b9c0d\n", "feat"),
        None
    );
    assert_eq!(branch_parent("branch: Created from 1a2b3c4\n", "feat"), None);
    assert_eq!(branch_parent("branch: Created from feed\n", "feat").as_deref(), Some("feed"));
    assert_eq!(branch_parent("branch: Created from 1a2b3c4x\n", "feat").as_deref(), Some("1a2b3c4x"));
}

#[test]
fn remotes_on_github_have_an_address() {
    for (r, want) in [
        ("git@github.com:org/repo.git\n", Some("https://github.com/org/repo")),
        ("ssh://git@github.com/org/repo.git", Some("https://github.com/org/repo")),
        ("https://github.com/org/repo", Some("https://github.com/org/repo")),
        ("http://github.com/org/repo.git", Some("https://github.com/org/repo")),
        ("git@gitlab.com:org/repo.git", None),
    ] {
        assert_eq!(github_base_url(r), want.map(|s| s.to_string()), "{}", r);
    }
}

#[test]
fn lists_of_paths_are_read() {
    let v = paths_in_lines(&root(), " a b.rs \n\nsrc/c.rs\n");
    let got: Vec<String> = v.iter().map(|p| p.to_text()).collect();
    assert_eq!(got, vec!["/p/a b.rs", "/p/src/c.rs"]);
    let s = path_set_in_lines(&root(), "x\nx\ny\n");
    assert_eq!(s.items.len(), 2);
    let i = ignored_paths(&root(), "target/\n.env\n\n/\n");
    assert!(i.contains(&FilePath::parse("/p/target")) && i.contains(&FilePath::parse("/p/.env")));
    assert_eq!(i.items.len(), 2);
}

#[test]
fn contents_are_trimmed() {
    assert_eq!(trimmed_content(" v1.2 \n"), Some("v1.2".to_string()));
    assert_eq!(trimmed_content(" \n"), None);
    assert_eq!(trimmed_lines(" a \n\n b"), vec!["a", "b"]);
    assert_eq!(mem_mb(" 204800\n"), 200);
    assert_eq!(mem_mb("x"), 0);
}

#[test]
fn arguments_are_made() {
    assert_eq!(show_arg("HEAD", "src/a.rs"), "HEAD:src/a.rs");
    assert_eq!(stage_arg("src/a.rs", 2), ":2:src/a.rs");
    let v = viewed_query_args("org/repo/x", "12").unwrap();
    assert_eq!(v.len(), 13);
    assert_eq!(v[6], "owner=org");
    assert_eq!(v[8], "repo=repo/x");
    assert_eq!(v[10], "num=12");
    assert!(viewed_query_args("norepo", "1").is_none());
    let m = set_viewed_args("ID", "a.rs", false);
    assert_eq!(
        m[3],
        "query=mutation($id:ID!,$path:String!){ unmarkFileAsViewed(input:{pullRequestId:$id, path:$path}){ clientMutationId } }"
    );
    assert_eq!((m[5].as_str(), m[7].as_str()), ("id=ID", "path=a.rs"));
    assert!(set_viewed_args("ID", "a.rs", true)[3].contains("{ markFileAsViewed("));
}

#[test]
fn ids_are_short_and_plain() {
    // the first values of the generator on a seed of nothing
    let chars: Vec<char> = "abcdefghijklmnopqrstuvwxyz0123456789".chars().collect();
    for seed in [0u64, 1, 42, u64::MAX] {
        let mut n = seed;
        let mut want = String::new();
        for _ in 0..5 {
            n = n.wrapping_add(0x9e3779b97f4a7c15);
            let mut z = n;
            z = (z ^ (z >> 30)).wrapping_mul(0xbf58476d1ce4e5b9);
            z = (z ^ (z >> 27)).wrapping_mul(0x94d049bb133111eb);
            z ^= z >> 31;
            want.push(chars[(z % 36) as usize]);
        }
        assert_eq!(random_id(seed), want);
    }
}
