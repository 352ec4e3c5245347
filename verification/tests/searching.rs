use tide::path::FilePath;
use tide::search::{
    file_matches_globs, file_searched, fold, glob_match, line_passes_excludes, parse_rg, parse_search_query,
    refine_results, rg_args, search_file, search_runs, take_chars, FindResult,
};

fn texts(v: &[&str]) -> Vec<String> {
    v.iter().map(|s| s.to_string()).collect()
}

#[test]
fn a_query_is_taken_apart() {
    let q = parse_search_query("context. -context.container *.ts -*.test.ts foo");
    assert_eq!(q.term, "context. foo");
    assert_eq!(q.excludes, texts(&["context.container"]));
    assert_eq!(q.globs, texts(&["*.ts", "!*.test.ts"]));
}

#[test]
fn a_lone_dash_is_searched_for() {
    let q = parse_search_query(" - a?c -?x");
    assert_eq!(q.term, "-");
    assert_eq!(q.globs, texts(&["a?c", "!?x"]));
    assert!(q.excludes.is_empty());
}

#[test]
fn a_search_needs_two_bytes_and_a_scope() {
    assert!(!search_runs("a", 1));
    assert!(search_runs("é", 1));
    assert!(search_runs("ab", 1));
    assert!(!search_runs("ab", 0));
}

#[test]
fn globs_match_names() {
    for (p, t, want) in [
        ("*.rs", "main.rs", true),
        ("*.rs", "main.rsx", false),
        ("m?in.rs", "main.rs", true),
        ("m?in.rs", "min.rs", false),
        ("*a*b*", "xxaybz", true),
        ("*a*b*", "xxbya", false),
        ("", "", true),
        ("**", "", true),
        ("?", "", false),
        ("*", "*a", true),
        ("abc", "abc", true),
    ] {
        assert_eq!(glob_match(p, t), want, "{} {}", p, t);
    }
}

#[test]
fn a_star_alone_matches_everything() {
    for t in ["", "x", "a*b", "**", "é"] {
        assert!(glob_match("*", t));
    }
}

#[test]
fn globs_admit_and_forbid_files() {
    let p = FilePath::parse("/p/src/a.test.ts");
    assert!(file_matches_globs(&p, &texts(&[])));
    assert!(file_matches_globs(&p, &texts(&["*.ts"])));
    assert!(!file_matches_globs(&p, &texts(&["*.rs"])));
    assert!(file_matches_globs(&p, &texts(&["*.rs", "*.ts"])));
    assert!(!file_matches_globs(&p, &texts(&["*.ts", "!*.test.ts"])));
    assert!(!file_matches_globs(&p, &texts(&["!*.test.ts"])));
    assert!(file_matches_globs(&p, &texts(&["!*.rs"])));
    assert!(file_matches_globs(&p, &texts(&["*/src/*"])));
    assert!(file_matches_globs(&p, &texts(&["src/*.ts"])));
    assert!(file_matches_globs(&p, &texts(&["src/**"])));
    assert!(!file_matches_globs(&p, &texts(&["rc/*.ts"])));
    assert!(!file_matches_globs(&p, &texts(&["!src/**"])));
    assert!(file_matches_globs(&p, &texts(&["/p/*"])));
}

#[test]
fn excluded_continuations_drop_a_line() {
    let ex = texts(&["context.container"]);
    assert!(line_passes_excludes("use context.foo", "context.", &ex, true));
    assert!(!line_passes_excludes("use context.container", "context.", &ex, true));
    assert!(line_passes_excludes("context.container context.x", "context.", &ex, true));
    assert!(!line_passes_excludes("Context.Container", "context.", &ex, false));
    assert!(line_passes_excludes("nothing here", "context.", &ex, true));
    assert!(line_passes_excludes("context.container", "context.", &texts(&[]), true));
    assert!(line_passes_excludes("aaab", "aa", &texts(&["aaa"]), true));
    assert!(!line_passes_excludes("aaa", "aaa", &texts(&["aaa"]), true));
}

#[test]
fn folding_goes_by_the_switch() {
    assert_eq!(fold("ÄbC", true), "ÄbC");
    assert_eq!(fold("ÄbC", false), "äbc");
}

#[test]
fn ripgrep_gets_its_arguments() {
    let a = rg_args("foo bar", &vec![FilePath::parse("/p"), FilePath::parse("/q")], false, &texts(&["*.ts"]));
    assert_eq!(
        a,
        texts(&[
            "--line-number",
            "--no-heading",
            "--color=never",
            "--ignore-case",
            "--max-count=50",
            "--max-filesize=1M",
            "--fixed-strings",
            "--glob",
            "*.ts",
            "--",
            "foo bar",
            "/p",
            "/q",
        ])
    );
    assert_eq!(rg_args("x", &vec![], true, &texts(&[]))[3], "--case-sensitive");
}

#[test]
fn ripgrep_output_is_read() {
    let r = parse_rg("/p/a.rs:12:   let x: u8 = 1;\nnonsense\n/p/b.rs:x:y\n/p/c.rs:3:");
    assert_eq!(r.len(), 2);
    assert_eq!(r[0].path.to_text(), "/p/a.rs");
    assert_eq!(r[0].line, 12);
    assert_eq!(r[0].text, "let x: u8 = 1;");
    assert_eq!(r[1].line, 3);
    assert_eq!(r[1].text, "");
}

#[test]
fn long_lines_are_cut() {
    let line = format!("/p/a:1:{}", "é".repeat(300));
    assert_eq!(parse_rg(&line)[0].text.chars().count(), 200);
    assert_eq!(take_chars("héllo", 2), "hé");
    assert_eq!(take_chars("h", 2), "h");
}

#[test]
fn results_are_capped() {
    let mut s = String::new();
    for i in 0..2000 {
        s.push_str(&format!("/p/a:{}:x\n", i + 1));
    }
    let r = parse_rg(&s);
    let n = r.len();
    assert!(n < 2000);
    let mut out = r;
    search_file(&FilePath::parse("/p/b"), "x\nx\n", "x", true, &mut out);
    assert_eq!(out.len(), n);
}

#[test]
fn a_file_is_searched_line_by_line() {
    let mut out: Vec<FindResult> = Vec::new();
    let p = FilePath::parse("/p/a.rs");
    search_file(&p, "Foo\n  bar foo\nbaz\n", "foo", false, &mut out);
    let got: Vec<(usize, String)> = out.iter().map(|r| (r.line, r.text.clone())).collect();
    assert_eq!(got, vec![(1, "Foo".to_string()), (2, "bar foo".to_string())]);
    let mut strict: Vec<FindResult> = Vec::new();
    search_file(&p, "Foo\n  bar foo\nbaz\n", "foo", true, &mut strict);
    assert_eq!(strict.len(), 1);
    assert_eq!(strict[0].line, 2);
}

#[test]
fn huge_files_are_passed_over() {
    let p = FilePath::parse("/p/a.rs");
    assert!(file_searched(&p, 1024 * 1024, &texts(&[])));
    assert!(!file_searched(&p, 1024 * 1024 + 1, &texts(&[])));
    assert!(!file_searched(&p, 1, &texts(&["*.ts"])));
}

#[test]
fn excluded_results_are_dropped() {
    let mk = |t: &str| FindResult { path: FilePath::parse("/p/a"), line: 1, text: t.to_string() };
    let v = vec![mk("context.x"), mk("context.container")];
    let r = refine_results(v, "context.", &texts(&["context.container"]), true);
    assert_eq!(r.len(), 1);
    assert_eq!(r[0].text, "context.x");
}
