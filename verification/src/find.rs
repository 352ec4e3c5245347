//! The find-in-files dialog: where it looks, its results, and the preview of a result.
use vstd::prelude::*;
use crate::diff::{Run, StyledRun, char_count, diff_line_runs, in_reading_order, is_line_runs, least, lesser, not_after, reading_order, row_part, word_char, word_range, word_span};
use crate::keys::{Keystroke, down_step, step_down, step_up};
use crate::order::{sorted_by, sorting_by_keeps_members, sorting_by_orders};
use crate::path::{FilePath, PathSet, PathView, copy_paths, name_or_empty, opt_path, parent_of, path_less, path_views, rel_text};
use crate::review::sort_paths;
use crate::search::{FindResult, clip, parse_search_query, query_of, take_chars};
use crate::syntax::{Highlighter, file_line_runs};
use crate::text::{begins, byte_len, cat, cat3, chars_of, dec, decimal, join, joined, lemma_texts_push, opt_text, pieces, split, string_of, texts, utf8_len};
use crate::theme::SELECTION;

verus! {

/// Files above this size are previewed without colours.
pub const PREVIEW_BYTES: usize = 524288;

/// Lines above this size are cut in the preview of such a file.
pub const PREVIEW_LINE: usize = 2000;

/// So many lines are looked at for one that is too long.
pub const PREVIEW_PROBE: usize = 4000;

// ── where to look ───────────────────────────────────────────────────────────

/// Where a search looks: in the paths selected together, else in the selected directory, else
/// in the whole project.
pub open spec fn search_scope(root: PathView, multi: Seq<PathView>, selected: Option<PathView>, is_dir: bool) -> Seq<PathView> {
    if multi.len() > 0 {
        sorted_by(multi, |a: PathView, b: PathView| path_less(a, b))
    } else if selected is Some && is_dir {
        seq![selected->0]
    } else {
        seq![root]
    }
}

/// Where a search looks. `is_dir` says whether the selected path is a directory on disk.
pub fn find_scope(root: &FilePath, multi: &PathSet, selected: &Option<FilePath>, is_dir: bool) -> (r: Vec<FilePath>)
    ensures
        path_views(r@) == search_scope(root@, path_views(multi.items@), opt_path(*selected), is_dir),
{
    if multi.items.len() > 0 {
        assert(path_views(multi.items@).len() > 0);
        return sort_paths(copy_paths(&multi.items));
    }
    let mut v: Vec<FilePath> = Vec::new();
    match selected {
        Some(p) => if is_dir {
            v.push(p.copy());
            assert(path_views(v@) =~= seq![p@]);
        } else {
            v.push(root.copy());
            assert(path_views(v@) =~= seq![root@]);
        },
        None => {
            v.push(root.copy());
            assert(path_views(v@) =~= seq![root@]);
        },
    }
    v
}

/// How the scope is named: the project, a path, or how many places there are.
pub open spec fn scope_name(root: PathView, scope: Seq<PathView>) -> Seq<char> {
    if scope.len() == 1 && scope[0] == root {
        "Project"@
    } else if scope.len() == 1 {
        rel_text(root, scope[0])
    } else {
        dec(scope.len()) + " locations"@
    }
}

/// How the scope is named.
pub fn scope_label(root: &FilePath, scope: &Vec<FilePath>) -> (r: String)
    ensures
        r@ == scope_name(root@, path_views(scope@)),
{
    assert(path_views(scope@).len() == scope.len());
    if scope.len() == 1 {
        assert(path_views(scope@)[0] == scope@[0]@);
        if scope[0].same(root) {
            "Project".to_owned()
        } else {
            root.rel(&scope[0])
        }
    } else {
        let d = decimal(scope.len() as u64);
        cat(d.as_str(), " locations")
    }
}

/// What stands under the query: where is searched, in which files, and what is left out.
#[derive(Debug)]
pub struct ScopeRow {
    pub scope: String,
    pub files: Option<String>,
    pub excluding: Option<String>,
}

/// A list behind a word; nothing for an empty list.
pub open spec fn listed_after(word: Seq<char>, v: Seq<Seq<char>>) -> Option<Seq<char>> {
    if v.len() == 0 {
        None
    } else {
        Some(word + joined(v, ", "@))
    }
}

fn list_after(word: &str, v: &Vec<String>) -> (r: Option<String>)
    ensures
        opt_text(r) == listed_after(word@, texts(v@)),
{
    assert(texts(v@).len() == v.len());
    if v.len() == 0 {
        None
    } else {
        let t = join(v, ", ");
        Some(cat(word, t.as_str()))
    }
}

/// What stands under a query.
pub fn scope_row(root: &FilePath, scope: &Vec<FilePath>, query: &str) -> (r: ScopeRow)
    ensures
        r.scope@ == "in "@ + scope_name(root@, path_views(scope@)),
        opt_text(r.files) == listed_after("· files "@, query_of(query@).globs),
        opt_text(r.excluding) == listed_after("· excluding "@, query_of(query@).excludes),
{
    let q = parse_search_query(query);
    let s = scope_label(root, scope);
    ScopeRow {
        scope: cat("in ", s.as_str()),
        files: list_after("· files ", &q.globs),
        excluding: list_after("· excluding ", &q.excludes),
    }
}

// ── the preview ─────────────────────────────────────────────────────────────

/// The contents of the file that is previewed, and the colours of its lines.
#[derive(Debug)]
pub struct FindPreview {
    pub path: FilePath,
    pub lines: Vec<String>,
    pub styles: Vec<Vec<Run>>,
}

/// Whether one of the first lines is too long.
pub open spec fn long_line(ls: Seq<Seq<char>>, n: int) -> bool {
    exists|i: int| 0 <= i < n && i < ls.len() && utf8_len(#[trigger] ls[i]) > PREVIEW_LINE
}

/// Whether a file is too large to be coloured.
pub open spec fn is_big(content: Seq<char>) -> bool {
    utf8_len(content) > PREVIEW_BYTES || long_line(pieces(content, '\n'), PREVIEW_PROBE as int)
}

/// A line as the preview of a large file shows it: cut, with a sign that it was.
pub open spec fn preview_line(l: Seq<char>, big: bool) -> Seq<char> {
    if big && utf8_len(l) > PREVIEW_LINE {
        clip(l, PREVIEW_LINE as int).push('…')
    } else {
        l
    }
}

/// The lines of a preview.
pub open spec fn preview_lines(content: Seq<char>) -> Seq<Seq<char>> {
    pieces(content, '\n').map_values(|l: Seq<char>| preview_line(l, is_big(content)))
}

fn has_long_line(ls: &Vec<String>) -> (r: bool)
    ensures
        r == long_line(texts(ls@), PREVIEW_PROBE as int),
{
    let mut i: usize = 0;
    while i < ls.len() && i < PREVIEW_PROBE
        invariant
            i <= ls.len(),
            i <= PREVIEW_PROBE,
            forall|j: int| 0 <= j < i ==> utf8_len(#[trigger] texts(ls@)[j]) <= PREVIEW_LINE,
        decreases ls.len() - i,
    {
        assert(texts(ls@)[i as int] == ls@[i as int]@);
        if byte_len(ls[i].as_str()) > PREVIEW_LINE {
            assert(utf8_len(texts(ls@)[i as int]) > PREVIEW_LINE);
            return true;
        }
        i = i + 1;
    }
    false
}

impl FindPreview {
    /// The preview of a file. A large file, or one with a very long line, gets no colours, and
    /// its long lines are cut.
    pub fn make(path: &FilePath, content: &str, hl: &Highlighter) -> (r: FindPreview)
        ensures
            r.path@ == path@,
            texts(r.lines@) == preview_lines(content@),
            is_big(content@) ==> r.styles@.len() == 0,
            !is_big(content@) ==> {
                &&& r.styles@.len() == pieces(content@, '\n').len()
                &&& forall|i: int|
                    0 <= i < r.styles@.len() ==> (#[trigger] r.styles@[i])@ == file_line_runs(
                        hl.set(),
                        hl.colors(),
                        path@,
                        pieces(content@, '\n'),
                        i,
                    )
            },
    {
        let ls = split(content, '\n');
        let big = byte_len(content) > PREVIEW_BYTES || has_long_line(&ls);
        let styles = if big {
            Vec::new()
        } else {
            hl.highlight(content, path)
        };
        let ghost want = preview_lines(content@);
        let mut out: Vec<String> = Vec::new();
        let mut i: usize = 0;
        assert(texts(ls@).len() == ls.len());
        while i < ls.len()
            invariant
                i <= ls.len(),
                texts(ls@) == pieces(content@, '\n'),
                big == is_big(content@),
                want == preview_lines(content@),
                out.len() == i,
                forall|j: int| 0 <= j < i ==> (#[trigger] out@[j])@ == want[j],
            decreases ls.len() - i,
        {
            let l = ls[i].as_str();
            assert(texts(ls@)[i as int] == l@);
            if big && byte_len(l) > PREVIEW_LINE {
                let mut t = take_chars(l, PREVIEW_LINE);
                t.push('…');
                out.push(t);
            } else {
                out.push(l.to_owned());
            }
            i = i + 1;
        }
        assert(texts(out@) =~= want);
        FindPreview { path: path.copy(), lines: out, styles }
    }
}

// ── the dialog ──────────────────────────────────────────────────────────────

/// The state of the find dialog.
#[derive(Debug)]
pub struct FindPanel {
    pub open: bool,
    pub scope: Vec<FilePath>,
    pub results: Vec<FindResult>,
    pub selected: usize,
    pub gen: usize,
    pub preview: Option<FindPreview>,
    pub psel: Option<(usize, usize, usize, usize)>,
    pub pdragging: bool,
    pub case_sensitive: bool,
}

/// The lines of an optional preview.
pub open spec fn opt_lines(o: Option<FindPreview>) -> Option<(PathView, Seq<Seq<char>>)> {
    match o {
        Some(p) => Some((p.path@, texts(p.lines@))),
        None => None,
    }
}

/// What a key does in the find dialog.
#[derive(Debug)]
pub enum FindKey {
    Close,
    /// Open this file at this line.
    Open(FilePath, usize),
    Moved,
    /// The whole preview is selected.
    SelectedAll,
    /// Copy this text.
    Copy(String),
    Edit,
    Nothing,
}

/// The two ends of a selection in reading order.
pub open spec fn psel_ends(s: (usize, usize, usize, usize)) -> ((usize, usize), (usize, usize)) {
    reading_order((s.0, s.1), (s.2, s.3))
}

/// The text of line `i`, or nothing below the last one.
pub open spec fn line_at(ls: Seq<Seq<char>>, i: int) -> Seq<char> {
    if i < ls.len() {
        ls[i]
    } else {
        Seq::empty()
    }
}

/// The selected parts of the lines.
pub open spec fn psel_lines(ls: Seq<Seq<char>>, a: (usize, usize), b: (usize, usize)) -> Seq<Seq<char>> {
    Seq::new(
        (b.0 - a.0 + 1) as nat,
        |i: int|
            {
                let t = line_at(ls, a.0 + i);
                let p = row_part(a, b, a.0 + i, t.len() as int);
                t.subrange(p.0, p.1)
            },
    )
}

/// The selected text.
pub open spec fn psel_text(ls: Seq<Seq<char>>, s: (usize, usize, usize, usize)) -> Seq<char> {
    let (a, b) = psel_ends(s);
    joined(psel_lines(ls, a, b), seq!['\n'])
}

/// The first line that the preview of a result in line `line` shows: six lines stand above the
/// result, which is line `line - 1` counted from 0.
pub open spec fn preview_start(line: int) -> int {
    if line > 7 {
        line - 7
    } else {
        0
    }
}

/// Behind the last line that it shows.
pub open spec fn preview_end(line: int, lines: int) -> int {
    least(line + 30, lines)
}

/// The highlighted part of line `i`.
pub open spec fn psel_span(psel: Option<(usize, usize, usize, usize)>, i: int, len: int) -> Option<(int, int)> {
    match psel {
        None => None,
        Some(s) => {
            let (a, b) = psel_ends(s);
            let p = row_part(a, b, i, len);
            if i < a.0 || i > b.0 || p.0 >= p.1 {
                None
            } else {
                Some(p)
            }
        },
    }
}

/// One line of the preview.
#[derive(Debug)]
pub struct PreviewRow {
    pub no: usize,
    pub text: String,
    pub runs: Vec<StyledRun>,
    pub matched: bool,
    pub caret: Option<usize>,
}

/// The spans of a line: the selection, where it reaches the line.
pub open spec fn preview_spans(psel: Option<(usize, usize, usize, usize)>, i: int, len: int) -> Seq<(usize, usize, u32)> {
    match psel_span(psel, i, len) {
        Some(p) => seq![(p.0 as usize, p.1 as usize, SELECTION)],
        None => Seq::empty(),
    }
}

/// Whether `r` is line `i` of a preview of a result in line `line`. The line of the result
/// stands out unless a selection lies over it; the caret stands at the selection's head.
pub open spec fn is_preview_row(
    ls: Seq<Seq<char>>,
    styles: Seq<Vec<Run>>,
    psel: Option<(usize, usize, usize, usize)>,
    caret_on: bool,
    line: int,
    i: int,
    r: PreviewRow,
) -> bool {
    let spans = preview_spans(psel, i, ls[i].len() as int);
    &&& r.no == i + 1
    &&& r.text@ == ls[i]
    &&& is_line_runs(
        ls[i],
        if i < styles.len() {
            Some(styles[i]@)
        } else {
            None
        },
        spans,
        r.runs@,
    )
    &&& r.matched == (i + 1 == line && spans.len() == 0)
    &&& r.caret == match psel {
        Some(s) => if caret_on && s.2 == i {
            Some(s.3)
        } else {
            None
        },
        None => None,
    }
}

impl FindPanel {
    /// A closed dialog.
    pub fn new() -> (r: FindPanel)
        ensures
            !r.open,
            r.scope@.len() == 0,
            r.results@.len() == 0,
            r.selected == 0,
            r.gen == 0,
            r.preview is None,
            r.psel is None,
            !r.pdragging,
            !r.case_sensitive,
    {
        FindPanel {
            open: false,
            scope: Vec::new(),
            results: Vec::new(),
            selected: 0,
            gen: 0,
            preview: None,
            psel: None,
            pdragging: false,
            case_sensitive: false,
        }
    }

    /// Opens the dialog with nothing found yet.
    pub fn show(&mut self, scope: Vec<FilePath>)
        ensures
            *final(self) == (FindPanel {
                open: true,
                scope,
                results: final(self).results,
                selected: 0,
                psel: None,
                ..*old(self)
            }),
            final(self).results@.len() == 0,
    {
        self.open = true;
        self.scope = scope;
        self.results = Vec::new();
        self.selected = 0;
        self.psel = None;
    }

    /// A search begins; gives its number.
    pub fn start_search(&mut self) -> (r: usize)
        requires
            old(self).gen < usize::MAX,
        ensures
            r == old(self).gen + 1,
            *final(self) == (FindPanel { gen: r, ..*old(self) }),
    {
        self.gen = self.gen + 1;
        self.gen
    }

    /// What search number `gen` found; an older one than the last is passed over.
    pub fn searched(&mut self, gen: usize, results: Vec<FindResult>)
        ensures
            *final(self) == if gen == old(self).gen {
                FindPanel { results, selected: 0, ..*old(self) }
            } else {
                *old(self)
            },
    {
        if gen == self.gen {
            self.results = results;
            self.selected = 0;
        }
    }

    /// The query changed: a selection in the preview is dropped.
    pub fn query_changed(&mut self)
        ensures
            *final(self) == (FindPanel { psel: None, ..*old(self) }),
    {
        self.psel = None;
    }

    /// Upper and lower case are told apart, or no longer.
    pub fn toggle_case(&mut self)
        ensures
            *final(self) == (FindPanel { case_sensitive: !old(self).case_sensitive, ..*old(self) }),
    {
        self.case_sensitive = !self.case_sensitive;
    }

    /// A click on result `i`; a double click closes the dialog and opens it.
    pub fn click_result(&mut self, i: usize, clicks: usize) -> (r: Option<(FilePath, usize)>)
        ensures
            match r {
                Some(o) => {
                    &&& clicks >= 2
                    &&& i < old(self).results@.len()
                    &&& o.0@ == old(self).results@[i as int].path@
                    &&& o.1 == old(self).results@[i as int].line
                    &&& *final(self) == (FindPanel { open: false, selected: i, ..*old(self) })
                },
                None => {
                    &&& clicks < 2 || i >= old(self).results@.len()
                    &&& *final(self) == (FindPanel { selected: i, ..*old(self) })
                },
            },
    {
        self.selected = i;
        if clicks >= 2 && i < self.results.len() {
            self.open = false;
            return Some((self.results[i].path.copy(), self.results[i].line));
        }
        None
    }

    /// The text of the selection in the preview.
    pub fn selected_text(&self) -> (r: Option<String>)
        ensures
            opt_text(r) == match (self.psel, opt_lines(self.preview)) {
                (Some(s), Some((_, ls))) => Some(psel_text(ls, s)),
                _ => None,
            },
    {
        match self.psel {
            None => None,
            Some(s) => match &self.preview {
                None => None,
                Some(pv) => {
                    let ghost ls = texts(pv.lines@);
                    let (a, b) = in_reading_order((s.0, s.1), (s.2, s.3));
                    let ghost want = psel_lines(ls, a, b);
                    let mut out: Vec<String> = Vec::new();
                    let mut r: usize = a.0;
                    let mut done = false;
                    assert(texts(out@) =~= want.take(0));
                    while !done
                        invariant
                            a.0 <= r <= b.0,
                            not_after(a, b),
                            ls == texts(pv.lines@),
                            want == psel_lines(ls, a, b),
                            !done ==> texts(out@) == want.take(r - a.0),
                            done ==> texts(out@) == want,
                        decreases b.0 - r, if done { 0int } else { 1int },
                    {
                        let ch = if r < pv.lines.len() {
                            assert(ls[r as int] == pv.lines@[r as int]@);
                            chars_of(pv.lines[r].as_str())
                        } else {
                            let e: Vec<char> = Vec::new();
                            assert(e@ =~= Seq::<char>::empty());
                            e
                        };
                        assert(ch@ == line_at(ls, r as int));
                        let n: usize = ch.len();
                        let cs: usize = lesser(
                            if r == a.0 {
                                a.1
                            } else {
                                0
                            },
                            n,
                        );
                        let ce: usize = lesser(
                            if r == b.0 {
                                b.1
                            } else {
                                n
                            },
                            n,
                        );
                        let piece = string_of(&ch, cs, ce);
                        proof {
                            lemma_texts_push(out@, piece);
                            assert(want[r - a.0] == piece@);
                            assert(want.take(r + 1 - a.0) =~= want.take(r - a.0).push(piece@));
                        }
                        out.push(piece);
                        if r == b.0 {
                            assert(want.take(want.len() as int) =~= want);
                            done = true;
                        } else {
                            r = r + 1;
                        }
                    }
                    proof {
                        reveal_strlit("\n");
                        assert("\n"@ =~= seq!['\n']);
                    }
                    Some(join(&out, "\n"))
                },
            },
        }
    }

    /// The place in the preview `k` rows below its top, `col` columns in: none below the last
    /// line, and never behind the end of a line.
    pub fn cell(&self, k: usize, col: usize) -> (r: Option<(usize, usize)>)
        ensures
            match opt_lines(self.preview) {
                Some((_, ls)) if self.selected < self.results@.len() && preview_start(
                    self.results@[self.selected as int].line as int,
                ) + k < ls.len() => {
                    let l = preview_start(self.results@[self.selected as int].line as int) + k;
                    r is Some && (r->0).0 == l && (r->0).1 == least(col as int, ls[l].len() as int)
                },
                _ => r is None,
            },
    {
        match &self.preview {
            None => None,
            Some(pv) => {
                if self.selected >= self.results.len() {
                    return None;
                }
                let line: usize = self.results[self.selected].line;
                let start: usize = if line > 7 {
                    line - 7
                } else {
                    0
                };
                let n: usize = pv.lines.len();
                if k >= n || start >= n - k {
                    return None;
                }
                let l: usize = start + k;
                let len: usize = char_count(pv.lines[l].as_str());
                assert(texts(pv.lines@)[l as int] == pv.lines@[l as int]@);
                Some((l, lesser(col, len)))
            },
        }
    }

    /// The mouse goes down in the preview: a double click selects the word, a single one begins
    /// a selection.
    pub fn preview_down(&mut self, line: usize, col: usize, clicks: usize)
        ensures
            ({
                let t = match opt_lines(old(self).preview) {
                    Some((_, ls)) => line_at(ls, line as int),
                    None => Seq::empty(),
                };
                &&& *final(self) == (FindPanel {
                    psel: final(self).psel,
                    pdragging: clicks < 2,
                    ..*old(self)
                })
                &&& final(self).psel is Some
                &&& (final(self).psel->0).0 == line
                &&& (final(self).psel->0).2 == line
                &&& if clicks >= 2 && col < t.len() && word_char(t[col as int]) {
                    word_span(
                        t,
                        col as int,
                        (final(self).psel->0).1 as int,
                        (final(self).psel->0).3 as int,
                    )
                } else {
                    (final(self).psel->0).1 == col && (final(self).psel->0).3 == col
                }
            }),
    {
        if clicks >= 2 {
            let l = match &self.preview {
                Some(pv) => if line < pv.lines.len() {
                    assert(texts(pv.lines@)[line as int] == pv.lines@[line as int]@);
                    pv.lines[line].clone()
                } else {
                    let e = String::new();
                    assert(e@ =~= Seq::<char>::empty());
                    e
                },
                None => {
                    let e = String::new();
                    assert(e@ =~= Seq::<char>::empty());
                    e
                },
            };
            let w = word_range(l.as_str(), col);
            self.psel = Some((line, w.0, line, w.1));
            self.pdragging = false;
        } else {
            self.psel = Some((line, col, line, col));
            self.pdragging = true;
        }
    }

    /// The mouse moves in the preview: while it drags, the selection's head follows. Says
    /// whether it did.
    pub fn preview_move(&mut self, line: usize, col: usize) -> (r: bool)
        ensures
            r == (old(self).pdragging && old(self).psel is Some),
            *final(self) == if r {
                FindPanel {
                    psel: Some(((old(self).psel->0).0, (old(self).psel->0).1, line, col)),
                    ..*old(self)
                }
            } else {
                *old(self)
            },
    {
        if self.pdragging {
            if let Some(s) = self.psel {
                self.psel = Some((s.0, s.1, line, col));
                return true;
            }
        }
        false
    }

    /// A key in the dialog.
    pub fn find_key(&mut self, k: &Keystroke) -> (r: FindKey)
        ensures
            ({
                let k = k@;
                let o = *old(self);
                let n = o.results@.len() as int;
                if k.key == "escape"@ {
                    r is Close && *final(self) == (FindPanel { open: false, ..o })
                } else if k.key == "enter"@ || k.key == "f4"@ {
                    if o.selected < n {
                        &&& r is Open
                        &&& r->Open_0@ == o.results@[o.selected as int].path@
                        &&& r->Open_1 == o.results@[o.selected as int].line
                        &&& *final(self) == (FindPanel { open: false, ..o })
                    } else {
                        r is Nothing && *final(self) == o
                    }
                } else if k.key == "down"@ {
                    &&& r is Moved
                    &&& *final(self) == (FindPanel {
                        selected: down_step(o.selected as int, n) as usize,
                        psel: None,
                        ..o
                    })
                } else if k.key == "up"@ {
                    &&& r is Moved
                    &&& *final(self) == (FindPanel {
                        selected: if o.selected > 0 {
                            (o.selected - 1) as usize
                        } else {
                            0
                        },
                        psel: None,
                        ..o
                    })
                } else if k.key == "a"@ && k.platform && o.psel is Some {
                    match opt_lines(o.preview) {
                        Some((_, ls)) if ls.len() > 0 => {
                            &&& r is SelectedAll
                            &&& *final(self) == (FindPanel {
                                psel: Some(
                                    (0, 0, (ls.len() - 1) as usize, ls.last().len() as usize),
                                ),
                                ..o
                            })
                        },
                        _ => r is Nothing && *final(self) == o,
                    }
                } else if k.key == "c"@ && k.platform {
                    &&& *final(self) == o
                    &&& match (o.psel, opt_lines(o.preview)) {
                        (Some(s), Some((_, ls))) => r is Copy && r->Copy_0@ == psel_text(ls, s),
                        _ => r is Nothing,
                    }
                } else {
                    r is Edit && *final(self) == o
                }
            }),
    {
        if k.is("escape") {
            self.open = false;
            return FindKey::Close;
        }
        if k.is("enter") || k.is("f4") {
            if self.selected < self.results.len() {
                self.open = false;
                let x = &self.results[self.selected];
                return FindKey::Open(x.path.copy(), x.line);
            }
            return FindKey::Nothing;
        }
        if k.is("down") {
            self.selected = step_down(self.selected, self.results.len());
            self.psel = None;
            return FindKey::Moved;
        }
        if k.is("up") {
            self.selected = step_up(self.selected);
            self.psel = None;
            return FindKey::Moved;
        }
        if k.is("a") && k.platform && self.psel.is_some() {
            let end = match &self.preview {
                Some(pv) => {
                    let n: usize = pv.lines.len();
                    assert(texts(pv.lines@).len() == n);
                    if n > 0 {
                        assert(texts(pv.lines@).last() == pv.lines@[n - 1]@);
                        Some((n - 1, char_count(pv.lines[n - 1].as_str())))
                    } else {
                        None
                    }
                },
                None => None,
            };
            return match end {
                Some(e) => {
                    self.psel = Some((0, 0, e.0, e.1));
                    FindKey::SelectedAll
                },
                None => FindKey::Nothing,
            };
        }
        if k.is("c") && k.platform {
            return match self.selected_text() {
                Some(t) => FindKey::Copy(t),
                None => FindKey::Nothing,
            };
        }
        FindKey::Edit
    }

    /// Whether the preview has to be made anew: it is that of another file than the selected
    /// result's.
    pub fn preview_stale(&self) -> (r: Option<FilePath>)
        ensures
            opt_path(r) == if self.selected < self.results@.len() && (self.preview is None
                || self.preview->0.path@ != self.results@[self.selected as int].path@) {
                Some(self.results@[self.selected as int].path@)
            } else {
                None
            },
    {
        if self.selected >= self.results.len() {
            return None;
        }
        let p = &self.results[self.selected].path;
        let fresh = match &self.preview {
            Some(pv) => pv.path.same(p),
            None => false,
        };
        if fresh {
            None
        } else {
            Some(p.copy())
        }
    }

    /// The lines of the preview round the selected result: six before it and up to thirty from
    /// it on.
    pub fn preview_rows(&self, caret_on: bool) -> (r: Vec<PreviewRow>)
        ensures
            match opt_lines(self.preview) {
                Some((_, ls)) if self.selected < self.results@.len() => {
                    let line = self.results@[self.selected as int].line as int;
                    let start = preview_start(line);
                    let end = preview_end(line, ls.len() as int);
                    &&& r@.len() == if start < end {
                        end - start
                    } else {
                        0
                    }
                    &&& forall|i: int|
                        0 <= i < r@.len() ==> is_preview_row(
                            ls,
                            self.preview->0.styles@,
                            self.psel,
                            caret_on,
                            line,
                            start + i,
                            #[trigger] r@[i],
                        )
                },
                _ => r@.len() == 0,
            },
    {
        let mut out: Vec<PreviewRow> = Vec::new();
        if self.selected >= self.results.len() {
            return out;
        }
        let line: usize = self.results[self.selected].line;
        match &self.preview {
            None => {},
            Some(pv) => {
                let ghost ls = texts(pv.lines@);
                assert(ls.len() == pv.lines.len());
                let n: usize = pv.lines.len();
                let start: usize = if line > 7 {
                    line - 7
                } else {
                    0
                };
                let end: usize = if line <= usize::MAX - 30 && line + 30 < n {
                    line + 30
                } else {
                    n
                };
                assert(end == preview_end(line as int, n as int));
                let mut i: usize = start;
                while i < end
                    invariant
                        start <= i,
                        i <= end || i == start,
                        end <= n,
                        n == pv.lines.len(),
                        ls == texts(pv.lines@),
                        out.len() == i - start,
                        start == preview_start(line as int),
                        forall|j: int|
                            0 <= j < out@.len() ==> is_preview_row(
                                ls,
                                pv.styles@,
                                self.psel,
                                caret_on,
                                line as int,
                                start + j,
                                #[trigger] out@[j],
                            ),
                    decreases end - i,
                {
                    let text = pv.lines[i].clone();
                    assert(ls[i as int] == text@);
                    let len: usize = char_count(text.as_str());
                    let mut spans: Vec<(usize, usize, u32)> = Vec::new();
                    if let Some(s) = self.psel {
                        let (a, b) = in_reading_order((s.0, s.1), (s.2, s.3));
                        if i >= a.0 && i <= b.0 {
                            let cs: usize = lesser(
                                if i == a.0 {
                                    a.1
                                } else {
                                    0
                                },
                                len,
                            );
                            let ce: usize = lesser(
                                if i == b.0 {
                                    b.1
                                } else {
                                    len
                                },
                                len,
                            );
                            if cs < ce {
                                spans.push((cs, ce, SELECTION));
                            }
                        }
                    }
                    assert(spans@ =~= preview_spans(self.psel, i as int, len as int));
                    let st: Option<&Vec<Run>> = if i < pv.styles.len() {
                        Some(&pv.styles[i])
                    } else {
                        None
                    };
                    let runs = diff_line_runs(text.as_str(), st, &spans);
                    let caret = match self.psel {
                        Some(s) => if caret_on && s.2 == i {
                            Some(s.3)
                        } else {
                            None
                        },
                        None => None,
                    };
                    let row = PreviewRow {
                        no: i + 1,
                        text,
                        runs,
                        matched: i + 1 == line && spans.len() == 0,
                        caret,
                    };
                    assert(is_preview_row(
                        ls,
                        pv.styles@,
                        self.psel,
                        caret_on,
                        line as int,
                        i as int,
                        row,
                    ));
                    out.push(row);
                    i = i + 1;
                }
            },
        }
        out
    }

    /// The name of the selected result's file and the directory it stands in.
    pub fn breadcrumb(&self, root: &FilePath) -> (r: Option<(String, String)>)
        ensures
            match r {
                Some(b) => {
                    &&& self.selected < self.results@.len()
                    &&& b.0@ == name_or_empty(self.results@[self.selected as int].path@)
                    &&& b.1@ == match parent_of(self.results@[self.selected as int].path@) {
                        Some(d) => rel_text(root@, d),
                        None => Seq::empty(),
                    }
                },
                None => self.selected >= self.results@.len(),
            },
    {
        if self.selected >= self.results.len() {
            return None;
        }
        let p = &self.results[self.selected].path;
        let dir = match p.parent() {
            Some(d) => root.rel(&d),
            None => {
                let e = String::new();
                assert(e@ =~= Seq::<char>::empty());
                e
            },
        };
        Some((p.file_name_text(), dir))
    }

    /// How many results there are.
    pub fn count_label(&self) -> (r: String)
        ensures
            r@ == dec(self.results@.len()) + " matches"@,
    {
        let d = decimal(self.results.len() as u64);
        cat(d.as_str(), " matches")
    }
}

/// The label of one result: its path and its line.
pub fn result_label(root: &FilePath, f: &FindResult) -> (r: String)
    ensures
        r@ == rel_text(root@, f.path@) + ":"@ + dec(f.line as nat),
{
    let rel = root.rel(&f.path);
    let d = decimal(f.line as u64);
    cat3(rel.as_str(), ":", d.as_str())
}

// ── what the find dialog shows ──────────────────────────────────────────────

/// A search looks in the paths that are selected together, else in the selected directory, else in
/// the whole project.
pub proof fn a_search_has_its_scope(root: PathView, multi: Seq<PathView>, d: PathView, p: PathView)
    ensures
        multi.len() > 0 ==> (search_scope(root, multi, Some(d), true).contains(p) <==> multi.contains(p)),
        multi.len() > 0 ==> search_scope(root, multi, Some(d), true).len() == multi.len(),
        search_scope(root, Seq::empty(), Some(d), true) == seq![d],
        search_scope(root, Seq::empty(), Some(d), false) == seq![root],
        search_scope(root, Seq::empty(), None, true) == seq![root],
        scope_name(root, seq![root]) == "Project"@,
        d != root ==> scope_name(root, seq![d]) == rel_text(root, d),
        multi.len() > 1 ==> scope_name(root, multi) == dec(multi.len()) + " locations"@,
{
    let less = |a: PathView, b: PathView| path_less(a, b);
    sorting_by_keeps_members(multi, less, p);
    sorting_by_orders(multi, less);
}

/// Six lines stand above the line of the result, where there are so many, and the line itself is
/// shown; no line below the last one is.
pub proof fn the_result_is_in_its_preview(line: int, lines: int)
    requires
        1 <= line <= lines,
    ensures
        0 <= preview_start(line) <= line - 1 < preview_end(line, lines) <= lines,
        line >= 7 ==> line - 1 - preview_start(line) == 6,
        line < 7 ==> preview_start(line) == 0,
        preview_end(line, lines) <= line + 30,
        line + 30 <= lines ==> preview_end(line, lines) == line + 30,
{
}

/// A file of ordinary size is shown as it is, line by line.
pub proof fn ordinary_files_are_shown_whole(content: Seq<char>, i: int)
    requires
        0 <= i < pieces(content, '\n').len(),
    ensures
        preview_lines(content).len() == pieces(content, '\n').len(),
        !is_big(content) ==> preview_lines(content)[i] == pieces(content, '\n')[i],
        utf8_len(pieces(content, '\n')[i]) <= 2000 ==> preview_lines(content)[i] == pieces(content, '\n')[i],
        begins(preview_lines(content)[i], clip(pieces(content, '\n')[i], 2000)),
        PREVIEW_LINE == 2000,
{
    let l = pieces(content, '\n')[i];
    let s = preview_lines(content)[i];
    let c = clip(l, 2000);
    assert(s.take(c.len() as int) =~= c);
}

/// A selection in one line of a preview is what lies between its ends, whichever way it was drawn.
pub proof fn a_preview_selection_lies_between_its_ends(ls: Seq<Seq<char>>, r: usize, a: usize, b: usize)
    requires
        r < ls.len(),
        a <= b <= ls[r as int].len(),
    ensures
        psel_text(ls, (r, a, r, b)) == ls[r as int].subrange(a as int, b as int),
        psel_text(ls, (r, b, r, a)) == ls[r as int].subrange(a as int, b as int),
        a < b ==> psel_span(Some((r, a, r, b)), r as int, ls[r as int].len() as int) == Some((a as int, b as int)),
        psel_span(Some((r, a, r, b)), r + 1, 5) is None,
        psel_span(None, r as int, 5) is None,
{
    let t = ls[r as int].subrange(a as int, b as int);
    let v = psel_lines(ls, (r, a), (r, b));
    assert(v =~= seq![t]);
    assert(v.drop_last() =~= Seq::<Seq<char>>::empty());
    assert(joined(v, seq!['\n']) =~= t);
}

/// A list behind its word holds its members with commas between them; nothing is said of none.
pub proof fn lists_stand_behind_their_word(w: Seq<char>, a: Seq<char>, b: Seq<char>)
    ensures
        listed_after(w, Seq::empty()) is None,
        listed_after(w, seq![a]) == Some(w + a),
        listed_after(w, seq![a, b]) == Some(w + (a + ", "@ + b)),
{
    let one = seq![a];
    let two = seq![a, b];
    assert(one.drop_last() =~= Seq::<Seq<char>>::empty());
    assert(two.drop_last() =~= one);
    assert(two.skip(1) =~= seq![b]);
    assert(seq![b].skip(1) =~= Seq::<Seq<char>>::empty());
    assert(one.skip(1) =~= Seq::<Seq<char>>::empty());
    reveal_with_fuel(joined, 3);
    assert(joined(one, ", "@) =~= a);
    assert(joined(two, ", "@) =~= a + ", "@ + b);
}

/// A preview shows every line under its number, lets the line of the result stand out where nothing
/// of it is selected, and has the caret where the selection goes to.
pub proof fn a_preview_shows_its_lines(
    ls: Seq<Seq<char>>,
    styles: Seq<Vec<Run>>,
    psel: Option<(usize, usize, usize, usize)>,
    on: bool,
    line: int,
    i: int,
    r: PreviewRow,
)
    requires
        0 <= i < ls.len(),
        is_preview_row(ls, styles, psel, on, line, i, r),
    ensures
        r.no == i + 1 && r.text@ == ls[i],
        psel is None ==> (r.matched <==> i + 1 == line),
        r.matched ==> i + 1 == line,
        psel is Some && (psel->0).0 == (psel->0).2 && (psel->0).0 != i && i + 1 == line ==> r.matched,
        r.caret is Some <==> on && psel is Some && (psel->0).2 == i,
        r.caret is Some ==> r.caret->0 == (psel->0).3,
{
}

} // verus!
