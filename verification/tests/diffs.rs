use tide::diff::{
    char_count, count_hunks, cursor_file_pos, diff_line_runs, diff_pane, diff_row_sel, diff_side_text, diff_side_width,
    diff_source, expand_tabs, find_matches, first_change_row, selected_text, word_range, DiffKind, DiffRow, DiffSel,
    DiffSide, DiffSource,
};

fn row(l: Option<&str>, r: Option<&str>, ln: usize, rn: usize, kind: DiffKind) -> DiffRow {
    DiffRow {
        left: l.map(|s| s.to_string()),
        right: r.map(|s| s.to_string()),
        left_no: l.map(|_| ln),
        right_no: r.map(|_| rn),
        kind,
    }
}

fn sample() -> Vec<DiffRow> {
    vec![
        row(Some("same"), Some("same"), 1, 1, DiffKind::Equal),
        row(Some("old line"), Some("new line"), 2, 2, DiffKind::Replace),
        row(None, Some("added"), 0, 3, DiffKind::Ins),
        row(Some("end"), Some("end"), 3, 4, DiffKind::Equal),
        row(Some("gone"), None, 4, 0, DiffKind::Del),
    ]
}

#[test]
fn sides_have_texts() {
    let v = sample();
    assert_eq!(diff_side_text(&v[1], DiffSide::Left), "old line");
    assert_eq!(diff_side_text(&v[1], DiffSide::Right), "new line");
    assert_eq!(diff_side_text(&v[2], DiffSide::Left), "");
    assert_eq!(diff_side_width(&v, DiffSide::Left), 8);
    assert_eq!(char_count("é\u{1f512}"), 2);
}

#[test]
fn changes_are_counted() {
    let v = sample();
    assert_eq!(count_hunks(&v), 2);
    assert_eq!(first_change_row(&v), Some(1));
    assert_eq!(count_hunks(&v[..1].iter().map(|_| row(Some("a"), Some("a"), 1, 1, DiffKind::Equal)).collect()), 0);
    assert_eq!(first_change_row(&Vec::new()), None);
}

#[test]
fn a_selection_reads_the_same_both_ways() {
    let v = sample();
    let a = DiffSel { side: DiffSide::Right, anchor: (0, 2), head: (2, 3) };
    let b = DiffSel { side: DiffSide::Right, anchor: (2, 3), head: (0, 2) };
    assert_eq!(a.range(), b.range());
    assert_eq!(selected_text(&v, Some(a)).unwrap(), "me\nnew line\nadd");
    assert_eq!(selected_text(&v, Some(b)).unwrap(), "me\nnew line\nadd");
    assert!(selected_text(&v, None).is_none());
}

#[test]
fn rows_are_selected_in_part() {
    let s = Some(DiffSel { side: DiffSide::Left, anchor: (1, 2), head: (3, 1) });
    assert_eq!(diff_row_sel(s, DiffSide::Left, 0, 4), None);
    assert_eq!(diff_row_sel(s, DiffSide::Left, 1, 8), Some((2, 8)));
    assert_eq!(diff_row_sel(s, DiffSide::Left, 3, 3), Some((0, 1)));
    assert_eq!(diff_row_sel(s, DiffSide::Right, 1, 8), None);
}

#[test]
fn words_are_found() {
    assert_eq!(word_range("let foo_1 = é;", 5), (4, 9));
    assert_eq!(word_range("let foo_1 = é;", 3), (3, 3));
    assert_eq!(word_range("let foo_1 = é;", 12), (12, 13));
    assert_eq!(word_range("a", 9), (9, 9));
}

#[test]
fn matches_are_found_on_both_sides() {
    let m = find_matches(&sample(), "LINE");
    let got: Vec<(DiffSide, usize, usize, usize)> = m.iter().map(|x| (x.side, x.row, x.start, x.end)).collect();
    assert!(got.contains(&(DiffSide::Left, 1, 4, 8)));
    assert!(got.contains(&(DiffSide::Right, 1, 4, 8)));
    assert_eq!(got.len(), 2);
    assert!(find_matches(&sample(), "").is_empty());
}

#[test]
fn runs_cover_a_line() {
    let styles = vec![(4usize, 0x111111u32), (4, 0x222222)];
    let r = diff_line_runs("old line", Some(&styles), &vec![(2, 6, 0x333333)]);
    let total: usize = r.iter().map(|x| x.len).sum();
    assert_eq!(total, 8);
    assert!(r.iter().any(|x| x.bg == Some(0x333333)));
    let plain = diff_line_runs("old line", None, &Vec::new());
    assert_eq!(plain.iter().map(|x| x.len).sum::<usize>(), 8);
}

#[test]
fn panes_have_a_row_for_each() {
    let v = sample();
    let p = diff_pane(&v, DiffSide::Right, None, &Vec::new(), &Vec::new(), 0, Some((DiffSide::Right, 0, 2)), true);
    assert_eq!(p.len(), 5);
    assert_eq!(p[1].text, "new line");
    assert_eq!(p[2].no, Some(3));
    assert_eq!(p[4].no, None);
    assert_eq!(p[0].caret, Some(2));
    assert_eq!(p[1].caret, None);
    assert_ne!(p[2].bg, p[0].bg);
}

#[test]
fn the_caret_leads_to_the_file() {
    let v = sample();
    assert_eq!(cursor_file_pos(&v, Some((DiffSide::Right, 2, 1)), None), (3, 2));
}

#[test]
fn tabs_become_blanks() {
    assert_eq!(expand_tabs("\ta\tb"), "    a    b");
    assert!(!expand_tabs("\t\t").contains('\t'));
}

#[test]
fn a_diff_has_its_sources() {
    let s = |x: &str| Some(x.to_string());
    match diff_source(&s("abc"), &None) {
        DiffSource::Revs { old, new } => assert_eq!((old.as_str(), new.as_str()), ("abc", "HEAD")),
        DiffSource::Working => panic!(),
    }
    match diff_source(&s("abc"), &s("def")) {
        DiffSource::Revs { new, .. } => assert_eq!(new, "def"),
        DiffSource::Working => panic!(),
    }
    assert!(matches!(diff_source(&None, &s("def")), DiffSource::Working));
}
