//! The diff window: the files it goes through, its search, its selection and its sidebar.
use vstd::prelude::*;
use crate::badge::{ext_badge, file_badge};
use crate::changes::{MarkFilter, toggle_all, toggled_all};
use crate::diff::{DiffKind, DiffMatch, DiffRow, DiffSel, DiffSide, PaneRow, Run, all_matches, char_count, count_hunks, cursor_file_pos, cursor_place, diff_pane, diff_side_text, file_pos, find_matches, first_change_row, hunks, is_pane_row, least, lesser, numbered, reading_order, selected_text, selection_text, side_text, word_char, word_range, word_span};
use crate::keys::{Keystroke, percent, percent_of};
use crate::outline::{ItemView, RowView, TreeItem, TreeRow, TreeStyle, distinct_ids, distinct_names, item_views, lists_id, may_precede, names_id, open_tree_lists_every_item, row_views, rows_are_about_the_items, siblings, siblings_stand_in_order, tree, tree_lists_no_item_twice, tree_rows};
use crate::path::{FilePath, PathSet, PathView, all_in, copy_strings, lemma_path_views_push, path_views, rel_text, stripped, toggled, under};
use crate::review::DiffRequest;
use crate::text::{cat, cat3, contains, dec, decimal, filter_map, lemma_filter_map_ends, lemma_filter_map_step, lower, mapping_keeps_members, occurs, texts, trim, trimmed};
use crate::theme::SEL_TEXT;
use crate::workspace::next_and_previous_cancel;

verus! {

/// The state of a diff window.
#[derive(Debug)]
pub struct DiffWindow {
    pub root: FilePath,
    pub files: Vec<FilePath>,
    pub idx: usize,
    pub old: Option<String>,
    pub new_rev: Option<String>,
    pub rows: Vec<DiffRow>,
    pub left_styles: Vec<Vec<Run>>,
    pub right_styles: Vec<Vec<Run>>,
    pub pending_scroll: bool,
    pub sel: Option<DiffSel>,
    pub dragging: bool,
    pub caret: Option<(DiffSide, usize, usize)>,
    pub caret_on: bool,
    pub search_open: bool,
    pub matches: Vec<DiffMatch>,
    pub cur_match: usize,
    pub tree_collapsed: PathSet,
    pub pr_mode: bool,
    pub pr_filter: MarkFilter,
    pub pr_viewed: PathSet,
}

// ── which files are visible ─────────────────────────────────────────────────

/// Whether a review hides a file: its mark is not wanted. A single file is never hidden.
pub open spec fn review_hides(w: DiffWindow, i: int) -> bool {
    let v = w.pr_viewed@.contains(path_views(w.files@)[i]);
    w.files@.len() > 1 && w.pr_mode && match w.pr_filter {
        MarkFilter::All => false,
        MarkFilter::Unmarked => v,
        MarkFilter::Marked => !v,
    }
}

/// Whether file `i` is listed: not hidden, and holding the filter in its shown path.
pub open spec fn file_visible(w: DiffWindow, filter: Seq<char>, i: int) -> bool {
    let q = lower(trimmed(filter));
    !review_hides(w, i) && (q.len() == 0 || occurs(
        lower(rel_text(w.root@, path_views(w.files@)[i])),
        q,
    ))
}

/// The places, before `n`, of the files that are listed.
pub open spec fn visible_to(w: DiffWindow, filter: Seq<char>, n: int) -> Seq<usize>
    decreases n,
{
    if n <= 0 {
        Seq::empty()
    } else {
        let s = visible_to(w, filter, n - 1);
        if file_visible(w, filter, n - 1) {
            s.push((n - 1) as usize)
        } else {
            s
        }
    }
}

/// The places of the files that are listed.
pub open spec fn visible(w: DiffWindow, filter: Seq<char>) -> Seq<usize> {
    visible_to(w, filter, w.files@.len() as int)
}

proof fn lemma_visible(w: DiffWindow, filter: Seq<char>, n: int)
    requires
        0 <= n <= w.files@.len(),
    ensures
        forall|k: int|
            0 <= k < visible_to(w, filter, n).len() ==> (#[trigger] visible_to(w, filter, n)[k]) < n && file_visible(
                w,
                filter,
                visible_to(w, filter, n)[k] as int,
            ),
        forall|j: int, k: int|
            0 <= j < k < visible_to(w, filter, n).len() ==> visible_to(w, filter, n)[j] < visible_to(
                w,
                filter,
                n,
            )[k],
        forall|i: usize| i < n && file_visible(w, filter, i as int) ==> #[trigger] visible_to(w, filter, n).contains(i),
    decreases n,
{
    if n > 0 {
        lemma_visible(w, filter, n - 1);
        let s = visible_to(w, filter, n - 1);
        let r = visible_to(w, filter, n);
        assert(w.files@.len() <= usize::MAX) by {
            assert(w.files@.len() == w.files.len());
        }
        assert forall|k: int| 0 <= k < r.len() implies (#[trigger] r[k]) < n && file_visible(
            w,
            filter,
            r[k] as int,
        ) by {
            if k < s.len() {
                assert(r[k] == s[k]);
            }
        }
        assert forall|j: int, k: int| 0 <= j < k < r.len() implies r[j] < r[k] by {
            if k < s.len() {
                assert(r[j] == s[j] && r[k] == s[k]);
            } else {
                assert(r[j] == s[j]);
            }
        }
        assert forall|i: usize| i < n && file_visible(w, filter, i as int) implies #[trigger] r.contains(i) by {
            if i < n - 1 {
                assert(s.contains(i));
                let k = choose|k: int| 0 <= k < s.len() && s[k] == i;
                assert(r[k] == i);
            } else {
                assert(r[r.len() - 1] == i);
            }
        }
    }
}

/// Where a step leads from file `at`: to the neighbour in the list of visible files, or, where
/// the file itself is not visible, to the nearest one in that direction.
pub open spec fn step_target(vis: Seq<usize>, at: usize, forward: bool) -> Option<usize>
    decreases vis.len(),
{
    if vis.len() == 0 {
        None
    } else if forward {
        if vis[0] > at {
            Some(vis[0])
        } else {
            step_target(vis.drop_first(), at, forward)
        }
    } else {
        if vis.last() < at {
            Some(vis.last())
        } else {
            step_target(vis.drop_last(), at, forward)
        }
    }
}

/// The place of `x` in a list, counted from 1; 0 where it is not there.
pub open spec fn ordinal(v: Seq<usize>, x: usize) -> int
    decreases v.len(),
{
    if v.len() == 0 {
        0
    } else if v.last() == x {
        v.len() as int
    } else {
        ordinal(v.drop_last(), x)
    }
}

// ── search ──────────────────────────────────────────────────────────────────

/// The match that is current after a step.
pub open spec fn match_after(cur: int, n: int, forward: bool) -> int {
    if forward {
        (cur + 1) % n
    } else {
        (cur + n - 1) % n
    }
}

/// Stepping through the matches and back again ends where it began.
pub proof fn match_steps_cancel(cur: int, n: int, forward: bool)
    requires
        0 <= cur < n,
    ensures
        match_after(match_after(cur, n, forward), n, !forward) == cur,
{
    if n == 1 {
        assert(cur == 0);
    } else {
        next_and_previous_cancel(cur, n);
    }
}

/// What a key does in the diff window.
#[derive(Debug)]
pub enum DiffKey {
    OpenSearch,
    Stepped,
    SelectedAll,
    /// Copy this text.
    Copy(String),
    /// Close the window and open the file at this line and column.
    OpenFile(usize, usize),
    CloseSearch,
    Close,
    /// Go to this file.
    Goto(usize),
    Nothing,
}

/// The side that is worked on: that of the caret, else of the selection, else the right one.
pub open spec fn working_side(caret: Option<(DiffSide, usize, usize)>, sel: Option<DiffSel>) -> DiffSide {
    match caret {
        Some(c) => c.0,
        None => match sel {
            Some(s) => s.side,
            None => DiffSide::Right,
        },
    }
}

/// What a key does in the search bar.
#[derive(Clone, Copy, Debug, PartialEq, Eq, Structural)]
pub enum SearchKey {
    Close,
    Stepped,
    Edit,
}

/// What a key does in the filter of the sidebar.
#[derive(Clone, Copy, Debug, PartialEq, Eq, Structural)]
pub enum SidebarKey {
    Leave,
    Clear,
    Goto(usize),
    Nothing,
    Edit,
}

// ── the sidebar ─────────────────────────────────────────────────────────────

/// The components of a path, with a slash for the root.
pub open spec fn all_comps(p: PathView) -> Seq<Seq<char>> {
    if p.abs {
        seq![seq!['/']] + p.parts
    } else {
        p.parts
    }
}

/// The components by which a file stands in the sidebar.
pub open spec fn sidebar_comps(root: PathView, p: PathView) -> Seq<Seq<char>> {
    match stripped(p, root) {
        Some(q) => all_comps(q),
        None => all_comps(p),
    }
}

fn comps_of(p: &FilePath) -> (r: Vec<String>)
    ensures
        texts(r@) == all_comps(p@),
{
    if !p.abs {
        return copy_strings(&p.parts);
    }
    let mut v: Vec<String> = Vec::new();
    v.push("/".to_owned());
    proof {
        reveal_strlit("/");
        assert("/"@ =~= seq!['/']);
    }
    assert(texts(v@) =~= seq![seq!['/']]);
    let mut t = copy_strings(&p.parts);
    let ghost a = v@;
    let ghost b = t@;
    v.append(&mut t);
    assert(texts(v@) =~= texts(a) + texts(b));
    v
}

/// The visible files as items of a tree.
pub open spec fn sidebar_items(w: DiffWindow, filter: Seq<char>) -> Seq<ItemView> {
    visible(w, filter).map_values(
        |i: usize| ItemView { comps: sidebar_comps(w.root@, path_views(w.files@)[i as int]), id: i },
    )
}

/// The rows of the sidebar; while filtering nothing is collapsed.
pub open spec fn sidebar_tree(w: DiffWindow, filter: Seq<char>) -> Seq<RowView> {
    tree(
        sidebar_items(w, filter),
        Seq::empty(),
        0,
        TreeStyle { compress: false, sort_leaves: true },
        if lower(trimmed(filter)).len() == 0 {
            w.tree_collapsed@
        } else {
            Set::empty()
        },
    )
}

/// The files under a directory of the sidebar.
pub open spec fn files_under(root: PathView, files: Seq<PathView>, dir: PathView) -> Seq<PathView> {
    filter_map(
        files,
        |p: PathView|
            match stripped(p, root) {
                Some(q) => if under(q, dir) {
                    Some(p)
                } else {
                    None
                },
                None => None,
            },
    )
}

/// One row of the sidebar.
#[derive(Debug)]
pub enum SidebarRow {
    Dir {
        depth: usize,
        label: String,
        dir: FilePath,
        files: Vec<FilePath>,
        collapsed: bool,
        viewed: bool,
        checkbox: bool,
    },
    File {
        depth: usize,
        label: String,
        idx: usize,
        selected: bool,
        viewed: bool,
        checkbox: bool,
        badge: String,
        badge_color: u32,
    },
}

/// What such a row shows.
pub ghost enum SidebarView {
    Dir {
        depth: int,
        label: Seq<char>,
        dir: PathView,
        files: Seq<PathView>,
        collapsed: bool,
        viewed: bool,
        checkbox: bool,
    },
    File {
        depth: int,
        label: Seq<char>,
        idx: usize,
        selected: bool,
        viewed: bool,
        checkbox: bool,
        badge: Seq<char>,
        badge_color: u32,
    },
}

impl View for SidebarRow {
    type V = SidebarView;

    open spec fn view(&self) -> SidebarView {
        match self {
            SidebarRow::Dir { depth, label, dir, files, collapsed, viewed, checkbox } => SidebarView::Dir {
                depth: *depth as int,
                label: label@,
                dir: dir@,
                files: path_views(files@),
                collapsed: *collapsed,
                viewed: *viewed,
                checkbox: *checkbox,
            },
            SidebarRow::File { depth, label, idx, selected, viewed, checkbox, badge, badge_color } => SidebarView::File {
                depth: *depth as int,
                label: label@,
                idx: *idx,
                selected: *selected,
                viewed: *viewed,
                checkbox: *checkbox,
                badge: badge@,
                badge_color: *badge_color,
            },
        }
    }
}

/// What the rows show.
pub open spec fn sidebar_views(v: Seq<SidebarRow>) -> Seq<SidebarView> {
    Seq::new(v.len(), |i: int| v[i]@)
}

/// How a row of the sidebar looks: a directory is viewed where it holds files and all of them
/// are; checkboxes are shown in a review only.
pub open spec fn sidebar_look(w: DiffWindow, r: RowView) -> SidebarView {
    let files = path_views(w.files@);
    match r {
        RowView::Dir { depth, key, label, ids } => {
            let below = files_under(w.root@, files, key);
            SidebarView::Dir {
                depth,
                label,
                dir: key,
                files: below,
                collapsed: w.tree_collapsed@.contains(key),
                viewed: below.len() > 0 && all_in(below, w.pr_viewed@),
                checkbox: w.pr_mode,
            }
        },
        RowView::Leaf { depth, name, id } => {
            let p = files[id as int];
            SidebarView::File {
                depth,
                label: name,
                idx: id,
                selected: id == w.idx,
                viewed: w.pr_viewed@.contains(p),
                checkbox: w.pr_mode,
                badge: file_badge(p).0,
                badge_color: if id == w.idx {
                    SEL_TEXT
                } else {
                    file_badge(p).1
                },
            }
        },
    }
}

/// How many of the paths are in the set.
pub open spec fn count_in(v: Seq<PathView>, s: Set<PathView>) -> int
    decreases v.len(),
{
    if v.len() == 0 {
        0
    } else {
        count_in(v.drop_last(), s) + if s.contains(v.last()) {
            1int
        } else {
            0
        }
    }
}

/// The bar above a diff: the place of the file among the visible ones, whether there is one
/// before and one behind it, its shown path, and how many changed blocks it has.
#[derive(Debug)]
pub struct NavBar {
    pub position: String,
    pub has_prev: bool,
    pub has_next: bool,
    pub path: String,
    pub differences: String,
}

impl DiffWindow {
    /// There is a current file, its rows are numbered from 1, the selection lies in them, the
    /// current match is one of the matches, and the sets hold no path twice.
    pub open spec fn wf(&self) -> bool {
        &&& self.idx < self.files@.len()
        &&& numbered(self.rows@)
        &&& self.sel is Some ==> reading_order(self.sel->0.anchor, self.sel->0.head).1.0
            < self.rows@.len()
        &&& self.matches@.len() > 0 ==> self.cur_match < self.matches@.len()
        &&& self.tree_collapsed.wf()
        &&& self.pr_viewed.wf()
    }

    /// A window on a request and the diff of its first file.
    pub fn new(
        root: FilePath,
        req: DiffRequest,
        pr_viewed: PathSet,
        rows: Vec<DiffRow>,
        left_styles: Vec<Vec<Run>>,
        right_styles: Vec<Vec<Run>>,
    ) -> (r: DiffWindow)
        requires
            req.idx < req.files@.len(),
            pr_viewed.wf(),
            numbered(rows@),
        ensures
            r.wf(),
            r == (DiffWindow {
                root,
                files: req.files,
                idx: req.idx,
                old: req.old,
                new_rev: req.new_rev,
                rows,
                left_styles,
                right_styles,
                pending_scroll: true,
                sel: None,
                dragging: false,
                caret: None,
                caret_on: true,
                search_open: false,
                matches: r.matches,
                cur_match: 0,
                tree_collapsed: r.tree_collapsed,
                pr_mode: req.pr_mode,
                pr_filter: req.view,
                pr_viewed,
            }),
            r.matches@.len() == 0,
            r.tree_collapsed@ == Set::<PathView>::empty(),
    {
        DiffWindow {
            root,
            files: req.files,
            idx: req.idx,
            old: req.old,
            new_rev: req.new_rev,
            rows,
            left_styles,
            right_styles,
            pending_scroll: true,
            sel: None,
            dragging: false,
            caret: None,
            caret_on: true,
            search_open: false,
            matches: Vec::new(),
            cur_match: 0,
            tree_collapsed: PathSet::new(),
            pr_mode: req.pr_mode,
            pr_filter: req.view,
            pr_viewed,
        }
    }

    fn hides(&self, i: usize) -> (r: bool)
        requires
            i < self.files@.len(),
        ensures
            r == review_hides(*self, i as int),
    {
        if self.files.len() <= 1 || !self.pr_mode {
            return false;
        }
        let v = self.pr_viewed.contains(&self.files[i]);
        match self.pr_filter {
            MarkFilter::All => false,
            MarkFilter::Unmarked => v,
            MarkFilter::Marked => !v,
        }
    }

    /// The places of the files that are listed, in their order.
    pub fn visible_files(&self, filter: &str) -> (r: Vec<usize>)
        ensures
            r@ == visible(*self, filter@),
    {
        let t = trim(filter);
        let q = t.as_str().to_lowercase();
        let mut out: Vec<usize> = Vec::new();
        let mut i: usize = 0;
        while i < self.files.len()
            invariant
                i <= self.files.len(),
                q@ == lower(trimmed(filter@)),
                out@ == visible_to(*self, filter@, i as int),
            decreases self.files.len() - i,
        {
            assert(path_views(self.files@)[i as int] == self.files@[i as int]@);
            if !self.hides(i) {
                let hit = if q.as_str().is_empty() {
                    true
                } else {
                    let rel = self.root.rel(&self.files[i]);
                    let low = rel.as_str().to_lowercase();
                    contains(low.as_str(), q.as_str())
                };
                if hit {
                    out.push(i);
                }
            }
            i = i + 1;
        }
        out
    }

    /// The file that a step leads to.
    pub fn goto_step(&self, filter: &str, forward: bool) -> (r: Option<usize>)
        ensures
            r == step_target(visible(*self, filter@), self.idx, forward),
            r is Some ==> r->0 < self.files@.len(),
    {
        let vis = self.visible_files(filter);
        let ghost all = visible(*self, filter@);
        proof {
            lemma_visible(*self, filter@, self.files@.len() as int);
        }
        if forward {
            let mut i: usize = 0;
            assert(all.skip(0) =~= all);
            while i < vis.len()
                invariant
                    i <= vis.len(),
                    vis@ == all,
                    all == visible(*self, filter@),
                    forward,
                    forall|k: int| 0 <= k < all.len() ==> (#[trigger] all[k]) < self.files@.len(),
                    step_target(all, self.idx, forward) == step_target(
                        all.skip(i as int),
                        self.idx,
                        forward,
                    ),
                decreases vis.len() - i,
            {
                proof {
                    assert(all.skip(i as int)[0] == all[i as int]);
                    assert(all.skip(i as int).drop_first() =~= all.skip(i + 1));
                }
                if vis[i] > self.idx {
                    return Some(vis[i]);
                }
                i = i + 1;
            }
            None
        } else {
            let mut n: usize = vis.len();
            assert(all.take(n as int) =~= all);
            while n > 0
                invariant
                    n <= vis.len(),
                    vis@ == all,
                    all == visible(*self, filter@),
                    !forward,
                    forall|k: int| 0 <= k < all.len() ==> (#[trigger] all[k]) < self.files@.len(),
                    step_target(all, self.idx, forward) == step_target(
                        all.take(n as int),
                        self.idx,
                        forward,
                    ),
                decreases n,
            {
                proof {
                    assert(all.take(n as int).last() == all[n - 1]);
                    assert(all.take(n as int).drop_last() =~= all.take(n - 1));
                }
                if vis[n - 1] < self.idx {
                    return Some(vis[n - 1]);
                }
                n = n - 1;
            }
            None
        }
    }

    /// Shows file `idx` with its diff: the selection and the caret go, and the search is made
    /// anew.
    pub fn goto(
        &mut self,
        idx: usize,
        rows: Vec<DiffRow>,
        left_styles: Vec<Vec<Run>>,
        right_styles: Vec<Vec<Run>>,
        query: &str,
    )
        requires
            old(self).wf(),
            idx < old(self).files@.len(),
            numbered(rows@),
        ensures
            final(self).wf(),
            final(self).matches@ == all_matches(rows@, query@),
            *final(self) == (DiffWindow {
                idx,
                rows,
                left_styles,
                right_styles,
                sel: None,
                caret: None,
                pending_scroll: true,
                matches: final(self).matches,
                cur_match: if lower(query@).len() == 0 || old(self).cur_match >= final(self).matches@.len() {
                    0
                } else {
                    old(self).cur_match
                },
                ..*old(self)
            }),
    {
        self.idx = idx;
        self.rows = rows;
        self.left_styles = left_styles;
        self.right_styles = right_styles;
        self.sel = None;
        self.caret = None;
        self.pending_scroll = true;
        self.recompute_matches(query);
    }

    /// Searches the rows for a query; the current match stays where it can.
    pub fn recompute_matches(&mut self, query: &str)
        ensures
            final(self).matches@ == all_matches(old(self).rows@, query@),
            *final(self) == (DiffWindow {
                matches: final(self).matches,
                cur_match: if lower(query@).len() == 0 || old(self).cur_match >= final(self).matches@.len() {
                    0
                } else {
                    old(self).cur_match
                },
                ..*old(self)
            }),
    {
        self.matches = find_matches(&self.rows, query);
        if self.cur_match >= self.matches.len() {
            self.cur_match = 0;
        }
    }

    /// Puts the caret at the current match.
    pub fn show_match(&mut self)
        ensures
            *final(self) == if old(self).cur_match < old(self).matches@.len() {
                let m = old(self).matches@[old(self).cur_match as int];
                DiffWindow {
                    caret: Some((m.side, m.row, m.start)),
                    caret_on: true,
                    ..*old(self)
                }
            } else {
                *old(self)
            },
    {
        if self.cur_match < self.matches.len() {
            let m = self.matches[self.cur_match];
            self.caret = Some((m.side, m.row, m.start));
            self.caret_on = true;
        }
    }

    /// Goes to the next or the previous match, round the ends.
    pub fn step_match(&mut self, forward: bool)
        requires
            old(self).wf(),
        ensures
            final(self).wf(),
            ({
                let n = old(self).matches@.len() as int;
                if n == 0 {
                    *final(self) == *old(self)
                } else {
                    let c = match_after(old(self).cur_match as int, n, forward);
                    let m = old(self).matches@[c];
                    &&& 0 <= c < n
                    &&& *final(self) == (DiffWindow {
                        cur_match: c as usize,
                        caret: Some((m.side, m.row, m.start)),
                        caret_on: true,
                        ..*old(self)
                    })
                }
            }),
    {
        let n: usize = self.matches.len();
        if n == 0 {
            return;
        }
        let cur: usize = self.cur_match;
        self.cur_match = if forward {
            if cur + 1 < n {
                cur + 1
            } else {
                0
            }
        } else {
            if cur > 0 {
                cur - 1
            } else {
                n - 1
            }
        };
        proof {
            let a = cur as int;
            let m = n as int;
            if forward {
                if a + 1 < m {
                    vstd::arithmetic::div_mod::lemma_small_mod((a + 1) as nat, m as nat);
                } else {
                    assert(a + 1 == m);
                    vstd::arithmetic::div_mod::lemma_mod_self_0(m);
                }
            } else if a > 0 {
                vstd::arithmetic::div_mod::lemma_mod_add_multiples_vanish(a - 1, m);
                vstd::arithmetic::div_mod::lemma_small_mod((a - 1) as nat, m as nat);
            } else {
                vstd::arithmetic::div_mod::lemma_small_mod((m - 1) as nat, m as nat);
            }
        }
        self.show_match();
    }

    /// A key in the search bar: escape, or the key that opened it, closes it; enter goes to the
    /// next match, with shift to the previous one.
    pub fn search_key(&mut self, k: &Keystroke) -> (r: SearchKey)
        requires
            old(self).wf(),
        ensures
            final(self).wf(),
            ({
                let k = k@;
                let o = *old(self);
                if k.key == "escape"@ || (k.platform && k.key == "f"@) {
                    r == SearchKey::Close && *final(self) == (DiffWindow { search_open: false, ..o })
                } else if k.key == "enter"@ {
                    &&& r == SearchKey::Stepped
                    &&& if o.matches@.len() == 0 {
                        *final(self) == o
                    } else {
                        let c = match_after(o.cur_match as int, o.matches@.len() as int, !k.shift);
                        let m = o.matches@[c];
                        *final(self) == (DiffWindow {
                            cur_match: c as usize,
                            caret: Some((m.side, m.row, m.start)),
                            caret_on: true,
                            ..o
                        })
                    }
                } else {
                    r == SearchKey::Edit && *final(self) == o
                }
            }),
    {
        if k.is("escape") || (k.platform && k.is("f")) {
            self.search_open = false;
            return SearchKey::Close;
        }
        if k.is("enter") {
            self.step_match(!k.shift);
            return SearchKey::Stepped;
        }
        SearchKey::Edit
    }

    /// The query changed: the first match is the current one.
    pub fn search_changed(&mut self, query: &str)
        requires
            old(self).wf(),
        ensures
            final(self).wf(),
            final(self).matches@ == all_matches(old(self).rows@, query@),
            *final(self) == if final(self).matches@.len() > 0 {
                let m = final(self).matches@[0];
                DiffWindow {
                    matches: final(self).matches,
                    cur_match: 0,
                    caret: Some((m.side, m.row, m.start)),
                    caret_on: true,
                    ..*old(self)
                }
            } else {
                DiffWindow { matches: final(self).matches, cur_match: 0, ..*old(self) }
            },
    {
        self.recompute_matches(query);
        self.cur_match = 0;
        self.show_match();
    }

    /// A key in the window.
    pub fn on_key(&mut self, k: &Keystroke, filter: &str) -> (r: DiffKey)
        requires
            old(self).wf(),
        ensures
            final(self).wf(),
            ({
                let k = k@;
                let o = *old(self);
                if k.platform && k.key == "f"@ {
                    r is OpenSearch && *final(self) == (DiffWindow { search_open: true, ..o })
                } else if k.platform && k.key == "g"@ {
                    &&& r is Stepped
                    &&& if o.matches@.len() == 0 {
                        *final(self) == o
                    } else {
                        let c = match_after(o.cur_match as int, o.matches@.len() as int, !k.shift);
                        let m = o.matches@[c];
                        *final(self) == (DiffWindow {
                            cur_match: c as usize,
                            caret: Some((m.side, m.row, m.start)),
                            caret_on: true,
                            ..o
                        })
                    }
                } else if k.platform && k.key == "a"@ {
                    if o.rows@.len() == 0 {
                        r is Nothing && *final(self) == o
                    } else {
                        let side = working_side(o.caret, o.sel);
                        let last = o.rows@.len() - 1;
                        &&& r is SelectedAll
                        &&& *final(self) == (DiffWindow {
                            sel: Some(
                                DiffSel {
                                    side,
                                    anchor: (0, 0),
                                    head: (
                                        last as usize,
                                        side_text(o.rows@[last], side).len() as usize,
                                    ),
                                },
                            ),
                            ..o
                        })
                    }
                } else if k.platform && k.key == "c"@ {
                    &&& *final(self) == o
                    &&& match o.sel {
                        Some(s) => r is Copy && r->Copy_0@ == selection_text(o.rows@, s),
                        None => r is Nothing,
                    }
                } else if k.key == "f4"@ {
                    let (side, row, col) = cursor_place(o.caret, o.sel);
                    &&& *final(self) == o
                    &&& r is OpenFile
                    &&& (r->OpenFile_0 as int, r->OpenFile_1 as int) == file_pos(
                        o.rows@,
                        side,
                        row as int,
                        col as int,
                    )
                } else if k.key == "escape"@ {
                    if o.search_open {
                        r is CloseSearch && *final(self) == (DiffWindow { search_open: false, ..o })
                    } else {
                        r is Close && *final(self) == o
                    }
                } else if k.key == "down"@ || k.key == "right"@ || k.key == "up"@ || k.key == "left"@ {
                    let forward = k.key == "down"@ || k.key == "right"@;
                    &&& *final(self) == o
                    &&& match step_target(visible(o, filter@), o.idx, forward) {
                        Some(t) => r is Goto && r->Goto_0 == t,
                        None => r is Nothing,
                    }
                } else {
                    r is Nothing && *final(self) == o
                }
            }),
    {
        if k.platform && k.is("f") {
            self.search_open = true;
            return DiffKey::OpenSearch;
        }
        if k.platform && k.is("g") {
            self.step_match(!k.shift);
            return DiffKey::Stepped;
        }
        if k.platform && k.is("a") {
            if self.rows.len() == 0 {
                return DiffKey::Nothing;
            }
            let side = match self.caret {
                Some(c) => c.0,
                None => match self.sel {
                    Some(s) => s.side,
                    None => DiffSide::Right,
                },
            };
            let last: usize = self.rows.len() - 1;
            let t = diff_side_text(&self.rows[last], side);
            let n: usize = char_count(t.as_str());
            self.sel = Some(DiffSel { side, anchor: (0, 0), head: (last, n) });
            return DiffKey::SelectedAll;
        }
        if k.platform && k.is("c") {
            return match selected_text(&self.rows, self.sel) {
                Some(t) => DiffKey::Copy(t),
                None => DiffKey::Nothing,
            };
        }
        if k.is("f4") {
            let p = cursor_file_pos(&self.rows, self.caret, self.sel);
            return DiffKey::OpenFile(p.0, p.1);
        }
        if k.is("escape") {
            if self.search_open {
                self.search_open = false;
                return DiffKey::CloseSearch;
            }
            return DiffKey::Close;
        }
        if k.is("down") || k.is("right") {
            return match self.goto_step(filter, true) {
                Some(t) => DiffKey::Goto(t),
                None => DiffKey::Nothing,
            };
        }
        if k.is("up") || k.is("left") {
            return match self.goto_step(filter, false) {
                Some(t) => DiffKey::Goto(t),
                None => DiffKey::Nothing,
            };
        }
        DiffKey::Nothing
    }

    /// The cell of a side at a row and a column: none below the last row, and never behind the
    /// end of a line.
    pub fn cell(&self, side: DiffSide, row: usize, col: usize) -> (r: Option<(DiffSide, usize, usize)>)
        ensures
            match r {
                Some(c) => {
                    &&& row < self.rows@.len()
                    &&& c.0 == side
                    &&& c.1 == row
                    &&& c.2 == least(col as int, side_text(self.rows@[row as int], side).len() as int)
                },
                None => row >= self.rows@.len(),
            },
    {
        if row >= self.rows.len() {
            return None;
        }
        let t = diff_side_text(&self.rows[row], side);
        let n: usize = char_count(t.as_str());
        Some((side, row, lesser(col, n)))
    }

    /// The mouse goes down at a cell: a double click selects the word, a single one begins a
    /// selection; the caret is put there.
    pub fn mouse_down(&mut self, side: DiffSide, row: usize, col: usize, clicks: usize)
        requires
            old(self).wf(),
            row < old(self).rows@.len(),
        ensures
            final(self).wf(),
            ({
                let t = side_text(old(self).rows@[row as int], side);
                &&& final(self).sel is Some
                &&& final(self).caret is Some
                &&& ({
                    let s = final(self).sel->0;
                    &&& s.side == side
                    &&& s.anchor.0 == row
                    &&& s.head.0 == row
                    &&& if clicks >= 2 && col < t.len() && word_char(t[col as int]) {
                        word_span(t, col as int, s.anchor.1 as int, s.head.1 as int)
                    } else {
                        s.anchor.1 == col && s.head.1 == col
                    }
                    &&& *final(self) == (DiffWindow {
                        sel: Some(s),
                        caret: Some((side, row, s.head.1)),
                        caret_on: true,
                        dragging: clicks < 2,
                        ..*old(self)
                    })
                })
            }),
    {
        if clicks >= 2 {
            let t = diff_side_text(&self.rows[row], side);
            let w = word_range(t.as_str(), col);
            self.sel = Some(DiffSel { side, anchor: (row, w.0), head: (row, w.1) });
            self.caret = Some((side, row, w.1));
            self.dragging = false;
        } else {
            self.sel = Some(DiffSel { side, anchor: (row, col), head: (row, col) });
            self.caret = Some((side, row, col));
            self.dragging = true;
        }
        self.caret_on = true;
    }

    /// The mouse moves to a cell: while it drags on one side, the selection's head follows. Says
    /// whether it did.
    pub fn mouse_move(&mut self, side: DiffSide, row: usize, col: usize) -> (r: bool)
        requires
            old(self).wf(),
            row < old(self).rows@.len(),
        ensures
            final(self).wf(),
            r == (old(self).dragging && old(self).sel is Some && old(self).sel->0.side == side),
            *final(self) == if r {
                DiffWindow {
                    sel: Some(
                        DiffSel { side, anchor: old(self).sel->0.anchor, head: (row, col) },
                    ),
                    ..*old(self)
                }
            } else {
                *old(self)
            },
    {
        if self.dragging {
            if let Some(s) = self.sel {
                if s.side == side {
                    self.sel = Some(DiffSel { side, anchor: s.anchor, head: (row, col) });
                    return true;
                }
            }
        }
        false
    }

    /// The mouse goes up.
    pub fn mouse_up(&mut self)
        requires
            old(self).wf(),
        ensures
            final(self).wf(),
            *final(self) == (DiffWindow { dragging: false, ..*old(self) }),
    {
        self.dragging = false;
    }

    /// The row to scroll to when a file was loaded: a little above the first change. None where
    /// it was done already or nothing changed.
    pub fn take_scroll(&mut self) -> (r: Option<usize>)
        requires
            old(self).wf(),
        ensures
            final(self).wf(),
            *final(self) == (DiffWindow { pending_scroll: false, ..*old(self) }),
            match r {
                Some(row) => {
                    &&& old(self).pending_scroll
                    &&& exists|i: int|
                        0 <= i < old(self).rows@.len() && (#[trigger] old(self).rows@[i]).kind
                            != DiffKind::Equal && (forall|j: int|
                            0 <= j < i ==> (#[trigger] old(self).rows@[j]).kind == DiffKind::Equal)
                            && row == if i > 3 {
                            i - 3
                        } else {
                            0
                        }
                },
                None => !old(self).pending_scroll || forall|j: int|
                    0 <= j < old(self).rows@.len() ==> (#[trigger] old(self).rows@[j]).kind
                        == DiffKind::Equal,
            },
    {
        if !self.pending_scroll {
            return None;
        }
        self.pending_scroll = false;
        match first_change_row(&self.rows) {
            Some(i) => {
                assert(self.rows@[i as int].kind != DiffKind::Equal);
                if i > 3 {
                    Some(i - 3)
                } else {
                    Some(0)
                }
            },
            None => None,
        }
    }

    /// The lines of one side.
    pub fn pane(&self, side: DiffSide) -> (r: Vec<PaneRow>)
        requires
            self.wf(),
        ensures
            r@.len() == self.rows@.len(),
            forall|i: int|
                0 <= i < r@.len() ==> is_pane_row(
                    self.rows@,
                    side,
                    self.sel,
                    match side {
                        DiffSide::Left => self.left_styles@,
                        DiffSide::Right => self.right_styles@,
                    },
                    self.matches@,
                    self.cur_match as int,
                    self.caret,
                    self.caret_on,
                    i,
                    #[trigger] r@[i],
                ),
    {
        match side {
            DiffSide::Left => diff_pane(
                &self.rows,
                side,
                self.sel,
                &self.left_styles,
                &self.matches,
                self.cur_match,
                self.caret,
                self.caret_on,
            ),
            DiffSide::Right => diff_pane(
                &self.rows,
                side,
                self.sel,
                &self.right_styles,
                &self.matches,
                self.cur_match,
                self.caret,
                self.caret_on,
            ),
        }
    }

    /// The bar above the diff.
    pub fn nav_bar(&self, filter: &str) -> (r: NavBar)
        requires
            self.wf(),
        ensures
            ({
                let vis = visible(*self, filter@);
                let at = ordinal(vis, self.idx);
                let n = hunks(self.rows@, self.rows@.len() as int);
                &&& r.position@ == dec(at as nat) + "/"@ + dec(vis.len())
                &&& r.has_prev == if at > 0 {
                    at > 1
                } else {
                    vis.len() > 0
                }
                &&& r.has_next == if at > 0 {
                    at < vis.len()
                } else {
                    vis.len() > 0
                }
                &&& r.path@ == rel_text(self.root@, path_views(self.files@)[self.idx as int])
                &&& r.differences@ == dec(n as nat) + (if n == 1 {
                    " difference"@
                } else {
                    " differences"@
                })
            }),
    {
        let vis = self.visible_files(filter);
        let ghost all = visible(*self, filter@);
        let mut n: usize = vis.len();
        assert(all.take(n as int) =~= all);
        while n > 0 && vis[n - 1] != self.idx
            invariant
                n <= vis.len(),
                vis@ == all,
                ordinal(all, self.idx) == ordinal(all.take(n as int), self.idx),
            decreases n,
        {
            proof {
                assert(all.take(n as int).last() == all[n - 1]);
                assert(all.take(n as int).drop_last() =~= all.take(n - 1));
            }
            n = n - 1;
        }
        proof {
            if n > 0 {
                assert(all.take(n as int).last() == all[n - 1]);
            }
        }
        assert(n == ordinal(all, self.idx));
        let a = decimal(n as u64);
        let b = decimal(vis.len() as u64);
        let d: usize = count_hunks(&self.rows);
        let ds = decimal(d as u64);
        assert(path_views(self.files@)[self.idx as int] == self.files@[self.idx as int]@);
        NavBar {
            position: cat3(a.as_str(), "/", b.as_str()),
            has_prev: if n > 0 {
                n > 1
            } else {
                vis.len() > 0
            },
            has_next: if n > 0 {
                n < vis.len()
            } else {
                vis.len() > 0
            },
            path: self.root.rel(&self.files[self.idx]),
            differences: cat(
                ds.as_str(),
                if d == 1 {
                    " difference"
                } else {
                    " differences"
                },
            ),
        }
    }

    /// What the search bar says of the matches.
    pub fn match_label(&self) -> (r: String)
        requires
            self.wf(),
        ensures
            r@ == if self.matches@.len() == 0 {
                "No results"@
            } else {
                dec((self.cur_match + 1) as nat) + "/"@ + dec(self.matches@.len())
            },
    {
        if self.matches.len() == 0 {
            "No results".to_owned()
        } else {
            let a = decimal((self.cur_match + 1) as u64);
            let b = decimal(self.matches.len() as u64);
            cat3(a.as_str(), "/", b.as_str())
        }
    }

    fn below(&self, dir: &FilePath) -> (r: Vec<FilePath>)
        ensures
            path_views(r@) == files_under(self.root@, path_views(self.files@), dir@),
    {
        let ghost all = path_views(self.files@);
        let ghost f = |p: PathView|
            match stripped(p, self.root@) {
                Some(q) => if under(q, dir@) {
                    Some(p)
                } else {
                    None
                },
                None => None,
            };
        let mut out: Vec<FilePath> = Vec::new();
        let mut i: usize = 0;
        proof {
            lemma_filter_map_ends(all, f);
            assert(path_views(out@) =~= Seq::<PathView>::empty());
        }
        while i < self.files.len()
            invariant
                i <= self.files.len(),
                all == path_views(self.files@),
                f == (|p: PathView|
                    match stripped(p, self.root@) {
                        Some(q) => if under(q, dir@) {
                            Some(p)
                        } else {
                            None
                        },
                        None => None,
                    }),
                path_views(out@) == filter_map(all.take(i as int), f),
            decreases self.files.len() - i,
        {
            proof {
                lemma_filter_map_step(all, f, i as int);
            }
            let inside = match self.files[i].strip_prefix(&self.root) {
                Some(q) => q.starts_with(dir),
                None => false,
            };
            if inside {
                let p = self.files[i].copy();
                proof {
                    lemma_path_views_push(out@, p);
                }
                out.push(p);
            }
            i = i + 1;
        }
        out
    }

    /// The rows of the sidebar.
    pub fn sidebar(&self, filter: &str) -> (r: Vec<SidebarRow>)
        requires
            self.wf(),
        ensures
            sidebar_views(r@) == sidebar_tree(*self, filter@).map_values(
                |x: RowView| sidebar_look(*self, x),
            ),
    {
        let vis = self.visible_files(filter);
        let ghost all = visible(*self, filter@);
        let ghost want = sidebar_items(*self, filter@);
        proof {
            lemma_visible(*self, filter@, self.files@.len() as int);
        }
        let mut items: Vec<TreeItem> = Vec::new();
        let mut i: usize = 0;
        while i < vis.len()
            invariant
                i <= vis.len(),
                vis@ == all,
                all == visible(*self, filter@),
                forall|k: int| 0 <= k < all.len() ==> (#[trigger] all[k]) < self.files@.len(),
                want == sidebar_items(*self, filter@),
                items.len() == i,
                forall|j: int| 0 <= j < i ==> (#[trigger] items@[j])@ == want[j],
            decreases vis.len() - i,
        {
            let k: usize = vis[i];
            assert(all[i as int] < self.files@.len());
            assert(path_views(self.files@)[k as int] == self.files@[k as int]@);
            let comps = match self.files[k].strip_prefix(&self.root) {
                Some(q) => comps_of(&q),
                None => comps_of(&self.files[k]),
            };
            let x = TreeItem { comps, id: k };
            assert(x@ == want[i as int]);
            items.push(x);
            i = i + 1;
        }
        assert(item_views(items@) =~= want);
        let t = trim(filter);
        let q = t.as_str().to_lowercase();
        let none = PathSet::new();
        let style = TreeStyle { compress: false, sort_leaves: true };
        let rows = if q.as_str().is_empty() {
            tree_rows(&items, 0, style, &self.tree_collapsed)
        } else {
            tree_rows(&items, 0, style, &none)
        };
        let ghost rv = sidebar_tree(*self, filter@);
        assert(row_views(rows@) == rv);
        let ghost coll = if lower(trimmed(filter@)).len() == 0 {
            self.tree_collapsed@
        } else {
            Set::empty()
        };
        let mut out: Vec<SidebarRow> = Vec::new();
        let mut k: usize = 0;
        assert(row_views(rows@).len() == rows.len());
        while k < rows.len()
            invariant
                k <= rows.len(),
                self.wf(),
                all == visible(*self, filter@),
                forall|k: int| 0 <= k < all.len() ==> (#[trigger] all[k]) < self.files@.len(),
                want == sidebar_items(*self, filter@),
                coll == if lower(trimmed(filter@)).len() == 0 {
                    self.tree_collapsed@
                } else {
                    Set::empty()
                },
                rv == sidebar_tree(*self, filter@),
                row_views(rows@) == rv,
                out.len() == k,
                forall|j: int| 0 <= j < k ==> (#[trigger] out@[j])@ == sidebar_look(*self, rv[j]),
            decreases rows.len() - k,
        {
            proof {
                assert(rv[k as int] == rows@[k as int]@);
                rows_are_about_the_items(
                    want,
                    Seq::empty(),
                    0,
                    TreeStyle { compress: false, sort_leaves: true },
                    coll,
                    k as int,
                );
            }
            match &rows[k] {
                TreeRow::Dir { depth, key, label, ids } => {
                    let files = self.below(key);
                    let viewed = files.len() > 0 && self.pr_viewed.contains_all(&files);
                    assert(path_views(files@).len() == files.len());
                    out.push(
                        SidebarRow::Dir {
                            depth: *depth,
                            label: label.clone(),
                            dir: key.copy(),
                            files,
                            collapsed: self.tree_collapsed.contains(key),
                            viewed,
                            checkbox: self.pr_mode,
                        },
                    );
                },
                TreeRow::Leaf { depth, name, id } => {
                    proof {
                        assert(names_id(want, *id));
                        let m = choose|m: int| 0 <= m < want.len() && (#[trigger] want[m]).id == *id && want[m].comps.len() > 0;
                        assert(all[m] == *id);
                        assert(path_views(self.files@)[*id as int] == self.files@[*id as int]@);
                    }
                    let p = &self.files[*id];
                    let b = ext_badge(p);
                    let selected = *id == self.idx;
                    let badge_color: u32 = if selected {
                        SEL_TEXT
                    } else {
                        b.1
                    };
                    out.push(
                        SidebarRow::File {
                            depth: *depth,
                            label: name.clone(),
                            idx: *id,
                            selected,
                            viewed: self.pr_viewed.contains(p),
                            checkbox: self.pr_mode,
                            badge: b.0,
                            badge_color,
                        },
                    );
                },
            }
            k = k + 1;
        }
        assert(sidebar_views(out@) =~= rv.map_values(|x: RowView| sidebar_look(*self, x)));
        out
    }

    /// The first file of the sidebar, to which enter in its filter goes.
    pub fn first_listed(&self, filter: &str) -> (r: Option<usize>)
        requires
            self.wf(),
        ensures
            r == first_leaf(sidebar_tree(*self, filter@)),
    {
        let rows = self.sidebar(filter);
        let ghost rv = sidebar_tree(*self, filter@);
        let mut i: usize = 0;
        assert(rv.skip(0) =~= rv);
        assert(sidebar_views(rows@).len() == rows.len());
        while i < rows.len()
            invariant
                i <= rows.len(),
                rv == sidebar_tree(*self, filter@),
                sidebar_views(rows@) == rv.map_values(|x: RowView| sidebar_look(*self, x)),
                rows.len() == rv.len(),
                first_leaf(rv) == first_leaf(rv.skip(i as int)),
            decreases rows.len() - i,
        {
            proof {
                assert(rv.skip(i as int)[0] == rv[i as int]);
                assert(rv.skip(i as int).drop_first() =~= rv.skip(i + 1));
                assert(sidebar_views(rows@)[i as int] == rows@[i as int]@);
                assert(rows@[i as int]@ == sidebar_look(*self, rv[i as int]));
            }
            if let SidebarRow::File { depth, label, idx, selected, viewed, checkbox, badge, badge_color } = &rows[i] {
                return Some(*idx);
            }
            i = i + 1;
        }
        None
    }

    /// A key in the filter of the sidebar: escape clears it, or gives the keyboard back where it
    /// is empty; enter goes to the first file listed.
    pub fn filter_key(&self, k: &Keystroke, filter: &str) -> (r: SidebarKey)
        requires
            self.wf(),
        ensures
            r == if k@.key == "escape"@ {
                if filter@.len() == 0 {
                    SidebarKey::Leave
                } else {
                    SidebarKey::Clear
                }
            } else if k@.key == "enter"@ {
                match first_leaf(sidebar_tree(*self, filter@)) {
                    Some(i) => SidebarKey::Goto(i),
                    None => SidebarKey::Nothing,
                }
            } else {
                SidebarKey::Edit
            },
    {
        if k.is("escape") {
            if filter.is_empty() {
                SidebarKey::Leave
            } else {
                SidebarKey::Clear
            }
        } else if k.is("enter") {
            match self.first_listed(filter) {
                Some(i) => SidebarKey::Goto(i),
                None => SidebarKey::Nothing,
            }
        } else {
            SidebarKey::Edit
        }
    }

    /// Collapses a directory of the sidebar, or expands it.
    pub fn toggle_dir(&mut self, dir: &FilePath)
        requires
            old(self).wf(),
        ensures
            final(self).wf(),
            final(self).tree_collapsed@ == toggled(old(self).tree_collapsed@, dir@),
            *final(self) == (DiffWindow {
                tree_collapsed: final(self).tree_collapsed,
                ..*old(self)
            }),
    {
        self.tree_collapsed.toggle(dir);
    }

    /// Marks a file as viewed, or takes the mark away.
    pub fn toggle_viewed(&mut self, p: &FilePath)
        requires
            old(self).wf(),
        ensures
            final(self).wf(),
            final(self).pr_viewed@ == toggled(old(self).pr_viewed@, p@),
            *final(self) == (DiffWindow { pr_viewed: final(self).pr_viewed, ..*old(self) }),
    {
        self.pr_viewed.toggle(p);
    }

    /// Marks the files of a directory, or unmarks them where all are marked. Says whether they
    /// are marked now.
    pub fn toggle_dir_viewed(&mut self, files: &Vec<FilePath>) -> (r: bool)
        requires
            old(self).wf(),
        ensures
            final(self).wf(),
            r == !(files@.len() > 0 && all_in(path_views(files@), old(self).pr_viewed@)),
            final(self).pr_viewed@ == toggled_all(old(self).pr_viewed@, path_views(files@)),
            *final(self) == (DiffWindow { pr_viewed: final(self).pr_viewed, ..*old(self) }),
    {
        let all = files.len() > 0 && self.pr_viewed.contains_all(files);
        assert(path_views(files@).len() == files.len());
        toggle_all(&mut self.pr_viewed, files);
        !all
    }

    /// How many files were viewed, how many there are, and the share in per cent.
    pub fn progress(&self) -> (r: (usize, usize, usize))
        ensures
            r.0 == count_in(path_views(self.files@), self.pr_viewed@),
            r.1 == self.files@.len(),
            r.2 == percent_of(r.0 as int, r.1 as int),
    {
        let ghost all = path_views(self.files@);
        let mut n: usize = 0;
        let mut i: usize = 0;
        assert(all.take(0) =~= Seq::<PathView>::empty());
        while i < self.files.len()
            invariant
                i <= self.files.len(),
                all == path_views(self.files@),
                n <= i,
                n == count_in(all.take(i as int), self.pr_viewed@),
            decreases self.files.len() - i,
        {
            proof {
                assert(all.take(i + 1).drop_last() =~= all.take(i as int));
                assert(all.take(i + 1).last() == all[i as int]);
            }
            if self.pr_viewed.contains(&self.files[i]) {
                n = n + 1;
            }
            i = i + 1;
        }
        assert(all.take(all.len() as int) =~= all);
        let total: usize = self.files.len();
        (n, total, percent(n, total))
    }
}

/// The first file of a list of rows.
pub open spec fn first_leaf(v: Seq<RowView>) -> Option<usize>
    decreases v.len(),
{
    if v.len() == 0 {
        None
    } else if v[0] is Leaf {
        Some(v[0]->Leaf_id)
    } else {
        first_leaf(v.drop_first())
    }
}

/// The files whose mark has to be turned so that all of them are marked, or none.
pub open spec fn to_turn(v: Seq<PathView>, marked: Set<PathView>, mark: bool) -> Seq<PathView> {
    filter_map(
        v,
        |p: PathView|
            if marked.contains(p) != mark {
                Some(p)
            } else {
                None
            },
    )
}

/// The files whose mark has to be turned so that all of them are marked, or none.
pub fn to_toggle(files: &Vec<FilePath>, viewed: &PathSet, mark: bool) -> (r: Vec<FilePath>)
    ensures
        path_views(r@) == to_turn(path_views(files@), viewed@, mark),
{
    let ghost all = path_views(files@);
    let ghost f = |p: PathView|
        if viewed@.contains(p) != mark {
            Some(p)
        } else {
            None
        };
    let mut out: Vec<FilePath> = Vec::new();
    let mut i: usize = 0;
    proof {
        lemma_filter_map_ends(all, f);
        assert(path_views(out@) =~= Seq::<PathView>::empty());
    }
    while i < files.len()
        invariant
            i <= files.len(),
            all == path_views(files@),
            f == (|p: PathView|
                if viewed@.contains(p) != mark {
                    Some(p)
                } else {
                    None
                }),
            path_views(out@) == filter_map(all.take(i as int), f),
        decreases files.len() - i,
    {
        proof {
            lemma_filter_map_step(all, f, i as int);
        }
        if viewed.contains(&files[i]) != mark {
            let p = files[i].copy();
            proof {
                lemma_path_views_push(out@, p);
            }
            out.push(p);
        }
        i = i + 1;
    }
    out
}

/// The set with the mark of each path of a list turned, one after the other.
pub open spec fn turned_each(s: Set<PathView>, v: Seq<PathView>) -> Set<PathView>
    decreases v.len(),
{
    if v.len() == 0 {
        s
    } else {
        toggled(turned_each(s, v.drop_last()), v.last())
    }
}

proof fn lemma_turned_each(s: Set<PathView>, v: Seq<PathView>, p: PathView)
    requires
        v.no_duplicates(),
    ensures
        turned_each(s, v).contains(p) == (s.contains(p) != v.contains(p)),
    decreases v.len(),
{
    if v.len() > 0 {
        let t = v.drop_last();
        assert forall|i: int, j: int| 0 <= i < t.len() && 0 <= j < t.len() && i != j implies t[i]
            != t[j] by {
            assert(v[i] != v[j]);
        }
        lemma_turned_each(s, t, p);
        if t.contains(p) {
            let i = choose|i: int| 0 <= i < t.len() && t[i] == p;
            assert(v[i] == p);
            assert(v[i] != v[v.len() - 1]);
        }
        if v.contains(p) && p != v.last() {
            let i = choose|i: int| 0 <= i < v.len() && v[i] == p;
            assert(t[i] == p);
        }
        assert(v.contains(v[v.len() - 1]));
    }
}

proof fn lemma_to_turn(v: Seq<PathView>, s: Set<PathView>, mark: bool)
    requires
        v.no_duplicates(),
    ensures
        to_turn(v, s, mark).no_duplicates(),
        forall|p: PathView|
            #[trigger] to_turn(v, s, mark).contains(p) <==> (v.contains(p) && s.contains(p) != mark),
    decreases v.len(),
{
    let o = to_turn(v, s, mark);
    if v.len() > 0 {
        let t = v.drop_last();
        let x = v.last();
        assert forall|i: int, j: int| 0 <= i < t.len() && 0 <= j < t.len() && i != j implies t[i]
            != t[j] by {
            assert(v[i] != v[j]);
        }
        lemma_to_turn(t, s, mark);
        let a = to_turn(t, s, mark);
        assert(!t.contains(x)) by {
            if t.contains(x) {
                let i = choose|i: int| 0 <= i < t.len() && t[i] == x;
                assert(v[i] != v[v.len() - 1]);
            }
        }
        assert(!a.contains(x));
        let kept = s.contains(x) != mark;
        assert(o == if kept {
            a.push(x)
        } else {
            a
        });
        assert forall|p: PathView| #[trigger] o.contains(p) <==> (v.contains(p) && s.contains(p)
            != mark) by {
            if o.contains(p) {
                let i = choose|i: int| 0 <= i < o.len() && o[i] == p;
                if i < a.len() {
                    assert(a[i] == p);
                    assert(a.contains(p));
                    let k = choose|k: int| 0 <= k < t.len() && t[k] == p;
                    assert(v[k] == p);
                } else {
                    assert(v[v.len() - 1] == p);
                }
            }
            if v.contains(p) && s.contains(p) != mark {
                let k = choose|k: int| 0 <= k < v.len() && v[k] == p;
                if k < t.len() {
                    assert(t[k] == p);
                    assert(a.contains(p));
                    let i = choose|i: int| 0 <= i < a.len() && a[i] == p;
                    assert(o[i] == p);
                } else {
                    assert(o[o.len() - 1] == p);
                }
            }
        }
        assert forall|i: int, j: int| 0 <= i < o.len() && 0 <= j < o.len() && i != j implies o[i]
            != o[j] by {
            if i < a.len() && j < a.len() {
                assert(a[i] != a[j]);
            } else if i < a.len() {
                assert(a.contains(a[i]));
            } else if j < a.len() {
                assert(a.contains(a[j]));
            }
        }
    }
}

/// Turning the marks that differ leaves all the files marked, or none of them, and touches no
/// other file.
pub proof fn turning_marks_makes_them_agree(s: Set<PathView>, v: Seq<PathView>, mark: bool, p: PathView)
    requires
        v.no_duplicates(),
    ensures
        turned_each(s, to_turn(v, s, mark)).contains(p) == if v.contains(p) {
            mark
        } else {
            s.contains(p)
        },
{
    lemma_to_turn(v, s, mark);
    lemma_turned_each(s, to_turn(v, s, mark), p);
}

/// Stepping forward goes to a later file and stepping back to an earlier one, and no visible
/// file lies between.
pub proof fn steps_skip_no_visible_file(vis: Seq<usize>, at: usize, forward: bool, x: usize)
    requires
        forall|j: int, k: int| 0 <= j < k < vis.len() ==> vis[j] < vis[k],
        vis.contains(x),
    ensures
        match step_target(vis, at, forward) {
            Some(t) => {
                &&& vis.contains(t)
                &&& forward ==> t > at && !(at < x < t)
                &&& !forward ==> t < at && !(t < x < at)
            },
            None => if forward {
                x <= at
            } else {
                x >= at
            },
        },
    decreases vis.len(),
{
    let i = choose|i: int| 0 <= i < vis.len() && vis[i] == x;
    if forward {
        if vis[0] > at {
            assert(vis.contains(vis[0]));
            if i > 0 {
                assert(vis[0] < vis[i]);
            }
        } else {
            let t = vis.drop_first();
            assert forall|j: int, k: int| 0 <= j < k < t.len() implies t[j] < t[k] by {
                assert(vis[j + 1] < vis[k + 1]);
            }
            if i > 0 {
                assert(t[i - 1] == x);
                steps_skip_no_visible_file(t, at, forward, x);
                if let Some(y) = step_target(t, at, forward) {
                    let m = choose|m: int| 0 <= m < t.len() && t[m] == y;
                    assert(vis[m + 1] == y);
                }
            } else if t.len() > 0 {
                assert(t.contains(t[0]));
                steps_skip_no_visible_file(t, at, forward, t[0]);
                if let Some(y) = step_target(t, at, forward) {
                    let m = choose|m: int| 0 <= m < t.len() && t[m] == y;
                    assert(vis[m + 1] == y);
                }
            }
        }
    } else {
        let n = vis.len() - 1;
        if vis.last() < at {
            assert(vis.contains(vis.last()));
            if i < n {
                assert(vis[i] < vis[n]);
            }
        } else {
            let t = vis.drop_last();
            assert forall|j: int, k: int| 0 <= j < k < t.len() implies t[j] < t[k] by {
                assert(vis[j] < vis[k]);
            }
            if i < n {
                assert(t[i] == x);
                steps_skip_no_visible_file(t, at, forward, x);
                if let Some(y) = step_target(t, at, forward) {
                    let m = choose|m: int| 0 <= m < t.len() && t[m] == y;
                    assert(vis[m] == y);
                }
            } else if t.len() > 0 {
                assert(t.contains(t[0]));
                steps_skip_no_visible_file(t, at, forward, t[0]);
                if let Some(y) = step_target(t, at, forward) {
                    let m = choose|m: int| 0 <= m < t.len() && t[m] == y;
                    assert(vis[m] == y);
                }
            }
        }
    }
}

proof fn lemma_sidebar_items(w: DiffWindow, filter: Seq<char>)
    ensures
        distinct_ids(sidebar_items(w, filter)),
        path_views(w.files@).no_duplicates() && all_below(w.root@, path_views(w.files@))
            ==> distinct_names(sidebar_items(w, filter)),
{
    let files = path_views(w.files@);
    let vis = visible(w, filter);
    let items = sidebar_items(w, filter);
    lemma_visible(w, filter, w.files@.len() as int);
    if files.no_duplicates() && all_below(w.root@, files) {
        assert forall|i: int, j: int| #![trigger items[i], items[j]] 0 <= i < j < items.len() implies items[i].comps
            != items[j].comps by {
            let p = files[vis[i] as int];
            let q = files[vis[j] as int];
            assert(vis[i] < vis[j]);
            assert(p != q);
            if items[i].comps == items[j].comps {
                assert(below(w.root@, p) && below(w.root@, q));
                lemma_comps_tell(p, q, w.root@);
            }
        }
    }
}

proof fn lemma_comps_tell(p: PathView, q: PathView, root: PathView)
    requires
        below(root, p),
        below(root, q),
        sidebar_comps(root, p) == sidebar_comps(root, q),
    ensures
        p == q,
{
    let n = root.parts.len() as int;
    let a = stripped(p, root)->0;
    let b = stripped(q, root)->0;
    assert(a.abs == b.abs);
    if a.abs {
        assert(a.parts =~= all_comps(a).skip(1));
        assert(b.parts =~= all_comps(b).skip(1));
    }
    assert(a.parts == b.parts);
    assert(p.parts =~= p.parts.take(n) + p.parts.skip(n));
    assert(q.parts =~= q.parts.take(n) + q.parts.skip(n));
}

/// Whether `p` lies under `root` and is not `root` itself.
pub open spec fn below(root: PathView, p: PathView) -> bool {
    under(p, root) && p.abs == root.abs && root.parts.len() < p.parts.len()
}

/// Whether all of the paths lie under `root`.
pub open spec fn all_below(root: PathView, v: Seq<PathView>) -> bool {
    forall|i: int| 0 <= i < v.len() ==> below(root, #[trigger] v[i])
}

/// With nothing collapsed, or while filtering, the sidebar lists every visible file, each once,
/// and no other; in every directory the directories come first and the files behind them, both
/// ascending. The files are distinct and lie under the root.
pub proof fn sidebar_lists_each_visible_file_once(w: DiffWindow, filter: Seq<char>)
    requires
        path_views(w.files@).no_duplicates(),
        all_below(w.root@, path_views(w.files@)),
        w.tree_collapsed@ == Set::<PathView>::empty() || lower(trimmed(filter)).len() > 0,
    ensures
        forall|id: usize|
            #[trigger] lists_id(sidebar_tree(w, filter), id) <==> visible(w, filter).contains(id),
        forall|i: int, j: int|
            #![trigger sidebar_tree(w, filter)[i], sidebar_tree(w, filter)[j]]
            0 <= i < j < sidebar_tree(w, filter).len() && sidebar_tree(w, filter)[i] is Leaf
                && sidebar_tree(w, filter)[j] is Leaf ==> sidebar_tree(w, filter)[i]->Leaf_id
                != sidebar_tree(w, filter)[j]->Leaf_id,
        forall|i: int, j: int| #[trigger]
            siblings(sidebar_tree(w, filter), i, j) ==> may_precede(
                sidebar_tree(w, filter)[i],
                sidebar_tree(w, filter)[j],
                TreeStyle { compress: false, sort_leaves: true },
            ),
{
    let style = TreeStyle { compress: false, sort_leaves: true };
    let items = sidebar_items(w, filter);
    let base = Seq::<Seq<char>>::empty();
    let e = Set::<PathView>::empty();
    let t = sidebar_tree(w, filter);
    let vis = visible(w, filter);
    let files = path_views(w.files@);
    lemma_visible(w, filter, w.files@.len() as int);
    lemma_sidebar_items(w, filter);
    assert(t == tree(items, base, 0, style, e));
    assert forall|id: usize| #[trigger] lists_id(t, id) <==> vis.contains(id) by {
        if lists_id(t, id) {
            let i = choose|i: int| 0 <= i < t.len() && (#[trigger] t[i]) is Leaf && t[i]->Leaf_id == id;
            rows_are_about_the_items(items, base, 0, style, e, i);
            let k = choose|k: int| 0 <= k < items.len() && (#[trigger] items[k]).id == id && items[k].comps.len() > 0;
            assert(vis[k] == id);
        }
        if vis.contains(id) {
            let k = choose|k: int| 0 <= k < vis.len() && vis[k] == id;
            assert(items[k].id == id);
            assert(below(w.root@, files[vis[k] as int]));
            assert(items[k].comps.len() > 0);
            open_tree_lists_every_item(items, base, 0, style, id);
        }
    }
    assert forall|i: int, j: int|
        #![trigger t[i], t[j]]
        0 <= i < j < t.len() && t[i] is Leaf && t[j] is Leaf implies t[i]->Leaf_id != t[j]->Leaf_id by {
        tree_lists_no_item_twice(items, base, 0, style, e, i, j);
    }
    assert forall|i: int, j: int| #[trigger] siblings(t, i, j) implies may_precede(t[i], t[j], style) by {
        siblings_stand_in_order(items, base, 0, style, e, i, j);
    }
}

/// A file is listed exactly where its path holds the filter and, in a review of several files, its
/// mark is wanted.
pub proof fn files_are_listed_by_filter_and_mark(w: DiffWindow, filter: Seq<char>, i: usize)
    requires
        i < w.files@.len(),
    ensures
        visible(w, filter).contains(i) <==> (lower(trimmed(filter)).len() == 0 || occurs(
            lower(rel_text(w.root@, w.files@[i as int]@)),
            lower(trimmed(filter)),
        )) && (w.pr_mode && w.files@.len() > 1 && w.pr_filter == MarkFilter::Unmarked ==> !w.pr_viewed@.contains(w.files@[i as int]@)) && (w.pr_mode
            && w.files@.len() > 1 && w.pr_filter == MarkFilter::Marked ==> w.pr_viewed@.contains(w.files@[i as int]@)),
{
    lemma_visible(w, filter, w.files@.len() as int);
    assert(path_views(w.files@)[i as int] == w.files@[i as int]@);
    let v = visible(w, filter);
    if v.contains(i) {
        let k = choose|k: int| 0 <= k < v.len() && v[k] == i;
        assert(file_visible(w, filter, v[k] as int));
    }
}

/// A step forward goes to the next match and from the last to the first; a step back goes the other
/// way.
pub proof fn matches_go_round(cur: int, n: int)
    requires
        0 <= cur < n,
    ensures
        cur + 1 < n ==> match_after(cur, n, true) == cur + 1,
        cur + 1 == n ==> match_after(cur, n, true) == 0,
        cur > 0 ==> match_after(cur, n, false) == cur - 1,
        cur == 0 ==> match_after(cur, n, false) == n - 1,
{
    if cur + 1 == n {
        assert(n % n == 0) by (nonlinear_arith)
            requires
                n > 0,
        ;
    } else {
        vstd::arithmetic::div_mod::lemma_small_mod((cur + 1) as nat, n as nat);
    }
    if cur > 0 {
        vstd::arithmetic::div_mod::lemma_mod_add_multiples_vanish(cur - 1, n);
        vstd::arithmetic::div_mod::lemma_small_mod((cur - 1) as nat, n as nat);
        assert((cur + n - 1) % n == (cur - 1) % n);
    } else {
        vstd::arithmetic::div_mod::lemma_small_mod((n - 1) as nat, n as nat);
    }
}

/// The place of a file among the listed ones is counted from 1; a file that is not listed has none.
pub proof fn places_are_counted_from_one(v: Seq<usize>, i: int, x: usize)
    requires
        v.no_duplicates(),
        0 <= i < v.len(),
    ensures
        ordinal(v, v[i]) == i + 1,
        !v.contains(x) ==> ordinal(v, x) == 0,
    decreases v.len(),
{
    let w = v.drop_last();
    assert(w.no_duplicates()) by {
        assert forall|a: int, b: int| 0 <= a < w.len() && 0 <= b < w.len() && a != b implies w[a] != w[b] by {
            assert(w[a] == v[a] && w[b] == v[b]);
        }
    }
    assert(v[v.len() - 1] == v.last());
    if i < w.len() {
        assert(v[i] != v[v.len() - 1]);
        places_are_counted_from_one(w, i, x);
        assert(w[i] == v[i]);
    } else if w.len() > 0 {
        places_are_counted_from_one(w, 0, x);
    }
    if !v.contains(x) {
        if w.contains(x) {
            let k = choose|k: int| 0 <= k < w.len() && w[k] == x;
            assert(v[k] == x);
        }
        assert(v.last() != x);
        if w.len() == 0 {
            assert(ordinal(w, x) == 0);
        }
    }
}

/// The files under a directory of the sidebar are those whose path from the root begins with it.
pub proof fn a_directory_holds_its_files(root: PathView, files: Seq<PathView>, dir: PathView, p: PathView)
    ensures
        files_under(root, files, dir).contains(p) <==> files.contains(p) && stripped(p, root) is Some && under(stripped(p, root)->0, dir),
{
    let f = |p: PathView|
        match stripped(p, root) {
            Some(q) => if under(q, dir) {
                Some(p)
            } else {
                None
            },
            None => None,
        };
    mapping_keeps_members(files, f, p);
    if files.contains(p) && stripped(p, root) is Some && under(stripped(p, root)->0, dir) {
        let k = choose|k: int| 0 <= k < files.len() && files[k] == p;
        assert(f(files[k]) == Some(p));
    }
}

/// The row of a file leads to it and says whether it is the current one and whether it was viewed.
pub proof fn a_sidebar_row_leads_to_its_file(w: DiffWindow, depth: int, name: Seq<char>, id: usize)
    requires
        id < w.files@.len(),
    ensures
        ({
            let r = sidebar_look(w, RowView::Leaf { depth, name, id });
            &&& r is File && r->File_idx == id && r->File_label == name && r->File_depth == depth
            &&& r->File_selected <==> id == w.idx
            &&& r->File_viewed <==> w.pr_viewed@.contains(w.files@[id as int]@)
            &&& r->File_checkbox <==> w.pr_mode
        }),
{
    assert(path_views(w.files@)[id as int] == w.files@[id as int]@);
}

/// A further path counts where it is in the set.
pub proof fn viewed_files_are_counted(v: Seq<PathView>, p: PathView, s: Set<PathView>)
    ensures
        s.contains(p) ==> count_in(v.push(p), s) == count_in(v, s) + 1,
        !s.contains(p) ==> count_in(v.push(p), s) == count_in(v, s),
        count_in(Seq::empty(), s) == 0,
{
    assert(v.push(p).drop_last() =~= v);
}

/// Enter in the filter goes to the first file that is listed.
pub proof fn the_first_listed_file_is_gone_to(v: Seq<RowView>, i: int)
    requires
        0 <= i < v.len(),
        v[i] is Leaf,
        forall|j: int| 0 <= j < i ==> !((#[trigger] v[j]) is Leaf),
    ensures
        first_leaf(v) == Some(v[i]->Leaf_id),
    decreases i,
{
    if i > 0 {
        let w = v.drop_first();
        assert(!(v[0] is Leaf));
        assert forall|j: int| 0 <= j < i - 1 implies !((#[trigger] w[j]) is Leaf) by {
            assert(w[j] == v[j + 1]);
        }
        assert(w[i - 1] == v[i]);
        the_first_listed_file_is_gone_to(w, i - 1);
    }
}

/// The side that is worked on is that of the caret, else that of the selection, else the right one.
pub proof fn the_caret_says_the_side(c: (DiffSide, usize, usize), s: DiffSel, sel: Option<DiffSel>)
    ensures
        working_side(Some(c), sel) == c.0,
        working_side(None, Some(s)) == s.side,
        working_side(None, None) == DiffSide::Right,
{
}

} // verus!
