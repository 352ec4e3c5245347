//! Changed files as a tree with marks: the commit pane, the review pane and the push dialog.
use vstd::prelude::*;
use crate::badge::{ext_badge, file_badge, git_color, pr_status_color, review_color, state_color};
use crate::git::{Change, GitState, change_paths, change_views, lemma_change_views_push, paths_of};
use crate::keys::{percent, percent_of};
use crate::outline::{ItemView, RowView, TreeItem, TreeRow, TreeStyle, item_views, lists_id, names_id, open_tree_lists_every_item, row_views, rows_are_about_the_items, tree, tree_lists_no_item_twice, tree_rows};
use crate::path::{FilePath, PathSet, PathView, all_in, joined_path, opt_path, path_views, rel_text};
use crate::text::{cat, cat3, contains, dec, decimal, filter_map, join, joined, lemma_filter_map_ends, lemma_filter_map_step, lemma_texts_push, lower, mapping_keeps_members, occurs, pieces, split, texts};
use crate::theme::SEL_TEXT;

verus! {

// ── marks ───────────────────────────────────────────────────────────────────

/// Which files are listed: all, or those with or without a mark. The commit pane marks what
/// is checked, the review pane what was viewed.
#[derive(Clone, Copy, Debug, PartialEq, Eq, Structural)]
pub enum MarkFilter {
    All,
    Unmarked,
    Marked,
}

/// The marks after a group was toggled: all of it loses its mark where all of it had one,
/// else all of it gets one.
pub open spec fn toggled_all(marked: Set<PathView>, paths: Seq<PathView>) -> Set<PathView> {
    if paths.len() > 0 && all_in(paths, marked) {
        marked.difference(paths.to_set())
    } else {
        marked.union(paths.to_set())
    }
}

/// After a group was toggled its files are all marked or all unmarked.
pub proof fn toggling_a_group_makes_it_uniform(marked: Set<PathView>, paths: Seq<PathView>, i: int, j: int)
    requires
        0 <= i < paths.len(),
        0 <= j < paths.len(),
    ensures
        toggled_all(marked, paths).contains(paths[i]) == toggled_all(marked, paths).contains(paths[j]),
        toggled_all(marked, paths).contains(paths[i]) == !all_in(paths, marked),
{
    assert(paths.to_set().contains(paths[i]));
    assert(paths.to_set().contains(paths[j]));
}

/// Files outside the group keep their marks.
pub proof fn toggling_a_group_leaves_others_alone(marked: Set<PathView>, paths: Seq<PathView>, x: PathView)
    requires
        !paths.contains(x),
    ensures
        toggled_all(marked, paths).contains(x) == marked.contains(x),
{
    assert(!paths.to_set().contains(x));
}

/// Toggles the marks of a group of files.
pub fn toggle_all(marked: &mut PathSet, paths: &Vec<FilePath>)
    requires
        old(marked).wf(),
    ensures
        final(marked).wf(),
        final(marked)@ == toggled_all(old(marked)@, path_views(paths@)),
{
    let all = paths.len() > 0 && marked.contains_all(paths);
    let ghost v = path_views(paths@);
    let ghost m0 = marked@;
    let mut i: usize = 0;
    assert(v.take(0).to_set() =~= Set::<PathView>::empty());
    assert(m0.difference(v.take(0).to_set()) =~= m0);
    assert(m0.union(v.take(0).to_set()) =~= m0);
    while i < paths.len()
        invariant
            i <= paths.len(),
            v == path_views(paths@),
            marked.wf(),
            marked@ == if all {
                m0.difference(v.take(i as int).to_set())
            } else {
                m0.union(v.take(i as int).to_set())
            },
        decreases paths.len() - i,
    {
        let ghost before = marked@;
        proof {
            let a = v.take(i as int);
            let b = v.take(i + 1);
            assert(b =~= a.push(v[i as int]));
            assert forall|x: PathView| b.to_set().contains(x) <==> a.to_set().contains(x) || x == v[i as int] by {
                if b.contains(x) {
                    let k = choose|k: int| 0 <= k < b.len() && b[k] == x;
                    if k < i {
                        assert(a[k] == x);
                    }
                }
                if a.contains(x) {
                    let k = choose|k: int| 0 <= k < a.len() && a[k] == x;
                    assert(b[k] == x);
                }
                assert(b[i as int] == v[i as int]);
                assert(b.to_set().contains(x) <==> b.contains(x));
                assert(a.to_set().contains(x) <==> a.contains(x));
            }
            assert(m0.difference(b.to_set()) =~= m0.difference(a.to_set()).remove(v[i as int]));
            assert(m0.union(b.to_set()) =~= m0.union(a.to_set()).insert(v[i as int]));
        }
        if all {
            let _ = marked.remove(&paths[i]);
        } else {
            let _ = marked.insert(paths[i].copy());
        }
        i = i + 1;
    }
    assert(v.take(v.len() as int) =~= v);
}

/// How many of the files are marked.
pub open spec fn count_marked(v: Seq<(PathView, GitState)>, marked: Set<PathView>) -> int
    decreases v.len(),
{
    if v.len() == 0 {
        0
    } else {
        count_marked(v.drop_last(), marked) + if marked.contains(v.last().0) {
            1int
        } else {
            0
        }
    }
}

fn marked_count(v: &Vec<Change>, marked: &PathSet) -> (r: usize)
    ensures
        r == count_marked(change_views(v@), marked@),
        r <= v.len(),
{
    let ghost cv = change_views(v@);
    let mut n: usize = 0;
    let mut i: usize = 0;
    assert(cv.take(0) =~= Seq::<(PathView, GitState)>::empty());
    while i < v.len()
        invariant
            i <= v.len(),
            cv == change_views(v@),
            n <= i,
            n == count_marked(cv.take(i as int), marked@),
        decreases v.len() - i,
    {
        proof {
            assert(cv.take(i + 1).drop_last() =~= cv.take(i as int));
            assert(cv.take(i + 1).last() == cv[i as int]);
        }
        if marked.contains(&v[i].path) {
            n = n + 1;
        }
        i = i + 1;
    }
    assert(cv.take(cv.len() as int) =~= cv);
    n
}

// ── which files are listed ──────────────────────────────────────────────────

/// Whether a file is listed: its shown path holds the filter, and its mark is wanted.
pub open spec fn change_listed(
    root: PathView,
    filter: Seq<char>,
    which: MarkFilter,
    marked: Set<PathView>,
    p: PathView,
) -> bool {
    let q = lower(filter);
    &&& q.len() == 0 || occurs(lower(rel_text(root, p)), q)
    &&& match which {
        MarkFilter::All => true,
        MarkFilter::Marked => marked.contains(p),
        MarkFilter::Unmarked => !marked.contains(p),
    }
}

/// The files that are listed.
pub open spec fn shown_changes(
    root: PathView,
    all: Seq<(PathView, GitState)>,
    filter: Seq<char>,
    which: MarkFilter,
    marked: Set<PathView>,
) -> Seq<(PathView, GitState)> {
    filter_map(
        all,
        |c: (PathView, GitState)|
            if change_listed(root, filter, which, marked, c.0) {
                Some(c)
            } else {
                None
            },
    )
}

fn filter_changes(root: &FilePath, all: &Vec<Change>, filter: &str, which: MarkFilter, marked: &PathSet) -> (r: Vec<Change>)
    ensures
        change_views(r@) == shown_changes(root@, change_views(all@), filter@, which, marked@),
{
    let q = filter.to_lowercase();
    let ghost cv = change_views(all@);
    let ghost f = |c: (PathView, GitState)|
        if change_listed(root@, filter@, which, marked@, c.0) {
            Some(c)
        } else {
            None
        };
    let mut out: Vec<Change> = Vec::new();
    let mut i: usize = 0;
    proof {
        lemma_filter_map_ends(cv, f);
        assert(change_views(out@) =~= Seq::<(PathView, GitState)>::empty());
    }
    while i < all.len()
        invariant
            i <= all.len(),
            cv == change_views(all@),
            q@ == lower(filter@),
            f == (|c: (PathView, GitState)|
                if change_listed(root@, filter@, which, marked@, c.0) {
                    Some(c)
                } else {
                    None
                }),
            change_views(out@) == filter_map(cv.take(i as int), f),
        decreases all.len() - i,
    {
        proof {
            lemma_filter_map_step(cv, f, i as int);
        }
        let p = &all[i].path;
        let hit = if q.as_str().is_empty() {
            true
        } else {
            let rel = root.rel(p);
            let low = rel.as_str().to_lowercase();
            contains(low.as_str(), q.as_str())
        };
        let wanted = match which {
            MarkFilter::All => true,
            MarkFilter::Marked => marked.contains(p),
            MarkFilter::Unmarked => !marked.contains(p),
        };
        if hit && wanted {
            let c = all[i].copy();
            proof {
                lemma_change_views_push(out@, c);
            }
            out.push(c);
        }
        i = i + 1;
    }
    out
}

// ── the tree ────────────────────────────────────────────────────────────────

/// The names between the slashes of a text, the empty ones left out.
pub open spec fn name_comps(s: Seq<char>) -> Seq<Seq<char>> {
    filter_map(
        pieces(s, '/'),
        |c: Seq<char>|
            if c.len() == 0 {
                None
            } else {
                Some(c)
            },
    )
}

/// The files as items of a tree, each numbered by its place.
pub open spec fn change_items(root: PathView, v: Seq<(PathView, GitState)>) -> Seq<ItemView> {
    Seq::new(
        v.len(),
        |i: int| ItemView { comps: name_comps(rel_text(root, v[i].0)), id: i as usize },
    )
}

fn split_names(s: &str) -> (r: Vec<String>)
    ensures
        texts(r@) == name_comps(s@),
{
    let p = split(s, '/');
    let ghost all = texts(p@);
    let ghost f = |c: Seq<char>|
        if c.len() == 0 {
            None
        } else {
            Some(c)
        };
    let mut out: Vec<String> = Vec::new();
    let mut i: usize = 0;
    proof {
        lemma_filter_map_ends(all, f);
        assert(texts(out@) =~= Seq::<Seq<char>>::empty());
    }
    while i < p.len()
        invariant
            i <= p.len(),
            all == texts(p@),
            f == (|c: Seq<char>|
                if c.len() == 0 {
                    None
                } else {
                    Some(c)
                }),
            texts(out@) == filter_map(all.take(i as int), f),
        decreases p.len() - i,
    {
        proof {
            lemma_filter_map_step(all, f, i as int);
        }
        if !p[i].as_str().is_empty() {
            let c = p[i].clone();
            proof {
                lemma_texts_push(out@, c);
            }
            out.push(c);
        }
        i = i + 1;
    }
    out
}

fn items_of(root: &FilePath, v: &Vec<Change>) -> (r: Vec<TreeItem>)
    ensures
        item_views(r@) == change_items(root@, change_views(v@)),
{
    let ghost want = change_items(root@, change_views(v@));
    let mut out: Vec<TreeItem> = Vec::new();
    let mut i: usize = 0;
    while i < v.len()
        invariant
            i <= v.len(),
            want == change_items(root@, change_views(v@)),
            out.len() == i,
            forall|j: int| 0 <= j < i ==> (#[trigger] out@[j])@ == want[j],
        decreases v.len() - i,
    {
        let rel = root.rel(&v[i].path);
        let x = TreeItem { comps: split_names(rel.as_str()), id: i };
        assert(x@ == want[i as int]);
        out.push(x);
        i = i + 1;
    }
    assert(item_views(out@) =~= want);
    out
}

/// Chains of single directories share a row, and files keep the order they came in.
pub open spec fn change_style() -> TreeStyle {
    TreeStyle { compress: true, sort_leaves: false }
}

/// The empty path, by which the group of all files is collapsed.
pub open spec fn no_path() -> PathView {
    PathView { abs: false, parts: Seq::empty() }
}

/// The rows of the tree of changed files, the first level at `depth`.
pub open spec fn change_rows(root: PathView, v: Seq<(PathView, GitState)>, depth: int, collapsed: Set<PathView>) -> Seq<RowView> {
    tree(change_items(root, v), Seq::empty(), depth, change_style(), collapsed)
}

// ── rows as they look ───────────────────────────────────────────────────────

/// One row of a list of changed files.
#[derive(Debug)]
pub enum CommitRow {
    Dir {
        depth: usize,
        key: FilePath,
        label: String,
        files: Vec<FilePath>,
        collapsed: bool,
        marked: bool,
        selected: bool,
    },
    File {
        depth: usize,
        path: FilePath,
        name: String,
        color: u32,
        badge: String,
        badge_color: u32,
        marked: bool,
        selected: bool,
    },
}

/// What such a row shows.
pub ghost enum CommitRowView {
    Dir {
        depth: int,
        key: PathView,
        label: Seq<char>,
        files: Seq<PathView>,
        collapsed: bool,
        marked: bool,
        selected: bool,
    },
    File {
        depth: int,
        path: PathView,
        name: Seq<char>,
        color: u32,
        badge: Seq<char>,
        badge_color: u32,
        marked: bool,
        selected: bool,
    },
}

impl View for CommitRow {
    type V = CommitRowView;

    open spec fn view(&self) -> CommitRowView {
        match self {
            CommitRow::Dir { depth, key, label, files, collapsed, marked, selected } => CommitRowView::Dir {
                depth: *depth as int,
                key: key@,
                label: label@,
                files: path_views(files@),
                collapsed: *collapsed,
                marked: *marked,
                selected: *selected,
            },
            CommitRow::File { depth, path, name, color, badge, badge_color, marked, selected } => CommitRowView::File {
                depth: *depth as int,
                path: path@,
                name: name@,
                color: *color,
                badge: badge@,
                badge_color: *badge_color,
                marked: *marked,
                selected: *selected,
            },
        }
    }
}

/// What a list of such rows shows.
pub open spec fn commit_row_views(v: Seq<CommitRow>) -> Seq<CommitRowView> {
    Seq::new(v.len(), |i: int| v[i]@)
}

/// What decides how a row looks.
pub ghost struct RowWorld {
    pub root: PathView,
    pub files: Seq<(PathView, GitState)>,
    pub marked: Set<PathView>,
    pub collapsed: Set<PathView>,
    pub selected: Option<PathView>,
    pub active: Option<PathView>,
    pub review: bool,
}

/// The paths of the numbered files.
pub open spec fn numbered_paths(v: Seq<(PathView, GitState)>, ids: Seq<usize>) -> Seq<PathView> {
    ids.map_values(|k: usize| v[k as int].0)
}

/// How a row looks. A directory is marked where it holds files and all of them are. A file
/// stands out where it is selected or open in the editor; its colour goes by its state.
pub open spec fn look(w: RowWorld, r: RowView) -> CommitRowView {
    match r {
        RowView::Dir { depth, key, label, ids } => {
            let files = numbered_paths(w.files, ids);
            CommitRowView::Dir {
                depth,
                key,
                label,
                files,
                collapsed: w.collapsed.contains(key),
                marked: files.len() > 0 && all_in(files, w.marked),
                selected: w.selected == Some(joined_path(w.root, key)),
            }
        },
        RowView::Leaf { depth, name, id } => {
            let (path, state) = w.files[id as int];
            let selected = w.selected == Some(path) || w.active == Some(path);
            CommitRowView::File {
                depth,
                path,
                name,
                color: if selected {
                    SEL_TEXT
                } else if w.review {
                    review_color(state)
                } else {
                    state_color(state)
                },
                badge: file_badge(path).0,
                badge_color: if selected {
                    SEL_TEXT
                } else {
                    file_badge(path).1
                },
                marked: w.marked.contains(path),
                selected,
            }
        },
    }
}

/// Whether every number of a row is a place in a list of `n` files.
pub open spec fn row_in_range(r: RowView, n: int) -> bool {
    match r {
        RowView::Dir { depth, key, label, ids } => forall|k: int| 0 <= k < ids.len() ==> #[trigger] ids[k] < n,
        RowView::Leaf { depth, name, id } => id < n,
    }
}

fn same_opt(o: &Option<FilePath>, p: &FilePath) -> (r: bool)
    ensures
        r == (opt_path(*o) == Some(p@)),
{
    match o {
        Some(x) => x.same(p),
        None => false,
    }
}

fn paths_at(v: &Vec<Change>, ids: &Vec<usize>) -> (r: Vec<FilePath>)
    requires
        forall|k: int| 0 <= k < ids@.len() ==> #[trigger] ids@[k] < v.len(),
    ensures
        path_views(r@) == numbered_paths(change_views(v@), ids@),
{
    let ghost want = numbered_paths(change_views(v@), ids@);
    let mut out: Vec<FilePath> = Vec::new();
    let mut i: usize = 0;
    while i < ids.len()
        invariant
            i <= ids.len(),
            forall|k: int| 0 <= k < ids@.len() ==> #[trigger] ids@[k] < v.len(),
            want == numbered_paths(change_views(v@), ids@),
            out.len() == i,
            forall|j: int| 0 <= j < i ==> (#[trigger] out@[j])@ == want[j],
        decreases ids.len() - i,
    {
        let k: usize = ids[i];
        assert(ids@[i as int] < v.len());
        out.push(v[k].path.copy());
        i = i + 1;
    }
    assert(path_views(out@) =~= want);
    out
}

fn look_row(
    row: &TreeRow,
    root: &FilePath,
    files: &Vec<Change>,
    marked: &PathSet,
    collapsed: &PathSet,
    selected: &Option<FilePath>,
    active: &Option<FilePath>,
    review: bool,
) -> (r: CommitRow)
    requires
        row_in_range(row@, files.len() as int),
    ensures
        r@ == look(
            RowWorld {
                root: root@,
                files: change_views(files@),
                marked: marked@,
                collapsed: collapsed@,
                selected: opt_path(*selected),
                active: opt_path(*active),
                review,
            },
            row@,
        ),
{
    match row {
        TreeRow::Dir { depth, key, label, ids } => {
            let f = paths_at(files, ids);
            let all = f.len() > 0 && marked.contains_all(&f);
            let dir = root.join(key);
            assert(path_views(f@).len() == f.len());
            CommitRow::Dir {
                depth: *depth,
                key: key.copy(),
                label: label.clone(),
                files: f,
                collapsed: collapsed.contains(key),
                marked: all,
                selected: same_opt(selected, &dir),
            }
        },
        TreeRow::Leaf { depth, name, id } => {
            let c = &files[*id];
            assert(change_views(files@)[*id as int] == c@);
            let sel = same_opt(selected, &c.path) || same_opt(active, &c.path);
            let b = ext_badge(&c.path);
            let color: u32 = if sel {
                SEL_TEXT
            } else if review {
                pr_status_color(c.state)
            } else {
                git_color(c.state)
            };
            let badge_color: u32 = if sel {
                SEL_TEXT
            } else {
                b.1
            };
            CommitRow::File {
                depth: *depth,
                path: c.path.copy(),
                name: name.clone(),
                color,
                badge: b.0,
                badge_color,
                marked: marked.contains(&c.path),
                selected: sel,
            }
        },
    }
}

/// A list of changed files, ready to be drawn.
#[derive(Debug)]
pub struct ChangesView {
    pub files: Vec<Change>,
    pub rows: Vec<CommitRow>,
    pub collapsed: bool,
    pub group_marked: bool,
    pub marked: usize,
    pub total: usize,
    pub percent: usize,
}

proof fn lemma_rows_in_range(root: PathView, v: Seq<(PathView, GitState)>, depth: int, collapsed: Set<PathView>, i: int)
    requires
        0 <= i < change_rows(root, v, depth, collapsed).len(),
        v.len() <= usize::MAX,
    ensures
        row_in_range(change_rows(root, v, depth, collapsed)[i], v.len() as int),
{
    let items = change_items(root, v);
    rows_are_about_the_items(items, Seq::empty(), depth, change_style(), collapsed, i);
    match change_rows(root, v, depth, collapsed)[i] {
        RowView::Dir { depth: _, key: _, label: _, ids } => {
            assert forall|k: int| 0 <= k < ids.len() implies #[trigger] ids[k] < v.len() by {
                assert(names_id(items, ids[k]));
            }
        },
        RowView::Leaf { depth: _, name: _, id } => {
            assert(names_id(items, id));
        },
    }
}

/// The rows of a list of changed files, as they look.
pub fn look_rows(
    root: &FilePath,
    files: &Vec<Change>,
    depth: usize,
    marked: &PathSet,
    collapsed: &PathSet,
    selected: &Option<FilePath>,
    active: &Option<FilePath>,
    review: bool,
) -> (r: Vec<CommitRow>)
    requires
        depth <= 1,
    ensures
        ({
            let w = RowWorld {
                root: root@,
                files: change_views(files@),
                marked: marked@,
                collapsed: collapsed@,
                selected: opt_path(*selected),
                active: opt_path(*active),
                review,
            };
            commit_row_views(r@) == change_rows(root@, w.files, depth as int, collapsed@).map_values(
                |x: RowView| look(w, x),
            )
        }),
{
    let ghost w = RowWorld {
        root: root@,
        files: change_views(files@),
        marked: marked@,
        collapsed: collapsed@,
        selected: opt_path(*selected),
        active: opt_path(*active),
        review,
    };
    let items = items_of(root, files);
    let rows = tree_rows(
        &items,
        depth,
        TreeStyle { compress: true, sort_leaves: false },
        collapsed,
    );
    let ghost rv = change_rows(root@, w.files, depth as int, collapsed@);
    let mut out: Vec<CommitRow> = Vec::new();
    let mut i: usize = 0;
    assert(row_views(rows@).len() == rows.len());
    while i < rows.len()
        invariant
            i <= rows.len(),
            rv == change_rows(root@, w.files, depth as int, collapsed@),
            row_views(rows@) == rv,
            w == (RowWorld {
                root: root@,
                files: change_views(files@),
                marked: marked@,
                collapsed: collapsed@,
                selected: opt_path(*selected),
                active: opt_path(*active),
                review,
            }),
            out.len() == i,
            forall|j: int| 0 <= j < i ==> (#[trigger] out@[j])@ == look(w, rv[j]),
        decreases rows.len() - i,
    {
        proof {
            assert(rv[i as int] == rows@[i as int]@);
            assert(w.files.len() == files.len());
            lemma_rows_in_range(root@, w.files, depth as int, collapsed@, i as int);
        }
        let r = look_row(&rows[i], root, files, marked, collapsed, selected, active, review);
        out.push(r);
        i = i + 1;
    }
    assert(commit_row_views(out@) =~= rv.map_values(|x: RowView| look(w, x)));
    out
}

/// A list of changed files with its filter and its marks. Progress counts all files, the
/// rows and the group only those that the filter lets through.
pub fn changes_view(
    root: &FilePath,
    all: &Vec<Change>,
    filter: &str,
    which: MarkFilter,
    marked: &PathSet,
    collapsed: &PathSet,
    selected: &Option<FilePath>,
    active: &Option<FilePath>,
    review: bool,
) -> (r: ChangesView)
    ensures
        ({
            let cv = change_views(all@);
            let shown = shown_changes(root@, cv, filter@, which, marked@);
            let w = RowWorld {
                root: root@,
                files: shown,
                marked: marked@,
                collapsed: collapsed@,
                selected: opt_path(*selected),
                active: opt_path(*active),
                review,
            };
            &&& change_views(r.files@) == shown
            &&& r.collapsed == collapsed@.contains(no_path())
            &&& commit_row_views(r.rows@) == if r.collapsed {
                Seq::empty()
            } else {
                change_rows(root@, shown, 1, collapsed@).map_values(|x: RowView| look(w, x))
            }
            &&& r.group_marked == (shown.len() > 0 && all_in(change_paths(shown), marked@))
            &&& r.total == cv.len()
            &&& r.marked == count_marked(cv, marked@)
            &&& r.percent == percent_of(r.marked as int, r.total as int)
        }),
{
    let files = filter_changes(root, all, filter, which, marked);
    let top = FilePath { abs: false, parts: Vec::new() };
    assert(top@ == no_path()) by {
        assert(texts(top.parts@) =~= Seq::<Seq<char>>::empty());
    }
    let root_collapsed = collapsed.contains(&top);
    let rows = if root_collapsed {
        Vec::new()
    } else {
        look_rows(root, &files, 1, marked, collapsed, selected, active, review)
    };
    let paths = paths_of(&files);
    let group_marked = paths.len() > 0 && marked.contains_all(&paths);
    proof {
        assert(path_views(paths@).len() == paths.len());
        if root_collapsed {
            assert(commit_row_views(rows@) =~= Seq::<CommitRowView>::empty());
        }
    }
    let n = marked_count(all, marked);
    let total: usize = all.len();
    ChangesView {
        files,
        rows,
        collapsed: root_collapsed,
        group_marked,
        marked: n,
        total,
        percent: percent(n, total),
    }
}

/// The paths of files as they are shown, one to a line.
pub fn paths_text(root: &FilePath, v: &Vec<FilePath>) -> (r: String)
    ensures
        r@ == joined(path_views(v@).map_values(|p: PathView| rel_text(root@, p)), seq!['\n']),
{
    let ghost want = path_views(v@).map_values(|p: PathView| rel_text(root@, p));
    let mut out: Vec<String> = Vec::new();
    let mut i: usize = 0;
    while i < v.len()
        invariant
            i <= v.len(),
            want == path_views(v@).map_values(|p: PathView| rel_text(root@, p)),
            out.len() == i,
            forall|j: int| 0 <= j < i ==> (#[trigger] out@[j])@ == want[j],
        decreases v.len() - i,
    {
        out.push(root.rel(&v[i]));
        i = i + 1;
    }
    assert(texts(out@) =~= want);
    proof {
        reveal_strlit("\n");
        assert("\n"@ =~= seq!['\n']);
    }
    join(&out, "\n")
}

/// What a number of something and its kind read like: "3/7 viewed".
pub fn progress_label(marked: usize, total: usize, word: &str) -> (r: String)
    ensures
        r@ == dec(marked as nat) + "/"@ + dec(total as nat) + (" "@ + word@),
{
    let a = decimal(marked as u64);
    let b = decimal(total as u64);
    let t = cat(" ", word);
    let s = cat3(a.as_str(), "/", b.as_str());
    cat(s.as_str(), t.as_str())
}

// ── what the list of changes shows ──────────────────────────────────────────

/// The list shows exactly the changed files whose path holds the filter and whose mark is wanted.
pub proof fn the_list_shows_what_is_wanted(
    root: PathView,
    all: Seq<(PathView, GitState)>,
    filter: Seq<char>,
    marked: Set<PathView>,
    c: (PathView, GitState),
)
    ensures
        shown_changes(root, all, filter, MarkFilter::All, marked).contains(c) <==> all.contains(c) && (lower(filter).len() == 0 || occurs(
            lower(rel_text(root, c.0)),
            lower(filter),
        )),
        shown_changes(root, all, filter, MarkFilter::Marked, marked).contains(c) <==> shown_changes(root, all, filter, MarkFilter::All, marked).contains(c)
            && marked.contains(c.0),
        shown_changes(root, all, filter, MarkFilter::Unmarked, marked).contains(c) <==> shown_changes(root, all, filter, MarkFilter::All, marked).contains(c)
            && !marked.contains(c.0),
{
    lemma_shown(root, all, filter, MarkFilter::All, marked, c);
    lemma_shown(root, all, filter, MarkFilter::Marked, marked, c);
    lemma_shown(root, all, filter, MarkFilter::Unmarked, marked, c);
}

proof fn lemma_shown(
    root: PathView,
    all: Seq<(PathView, GitState)>,
    filter: Seq<char>,
    which: MarkFilter,
    marked: Set<PathView>,
    c: (PathView, GitState),
)
    ensures
        shown_changes(root, all, filter, which, marked).contains(c) <==> all.contains(c) && change_listed(root, filter, which, marked, c.0),
{
    let f = |c: (PathView, GitState)|
        if change_listed(root, filter, which, marked, c.0) {
            Some(c)
        } else {
            None
        };
    mapping_keeps_members(all, f, c);
    if all.contains(c) && change_listed(root, filter, which, marked, c.0) {
        let k = choose|k: int| 0 <= k < all.len() && all[k] == c;
        assert(f(all[k]) == Some(c));
    }
}

/// A further file counts where it is marked.
pub proof fn marked_files_are_counted(v: Seq<(PathView, GitState)>, c: (PathView, GitState), marked: Set<PathView>)
    ensures
        marked.contains(c.0) ==> count_marked(v.push(c), marked) == count_marked(v, marked) + 1,
        !marked.contains(c.0) ==> count_marked(v.push(c), marked) == count_marked(v, marked),
        count_marked(Seq::empty(), marked) == 0,
{
    assert(v.push(c).drop_last() =~= v);
}

/// Every listed file has a row, each once, where nothing is collapsed.
pub proof fn every_changed_file_has_a_row(root: PathView, v: Seq<(PathView, GitState)>, depth: int, id: usize, i: int, j: int)
    requires
        v.len() <= usize::MAX,
        id < v.len(),
        name_comps(rel_text(root, v[id as int].0)).len() > 0,
    ensures
        lists_id(change_rows(root, v, depth, Set::empty()), id),
        0 <= i < j < change_rows(root, v, depth, Set::empty()).len() && change_rows(root, v, depth, Set::empty())[i] is Leaf && change_rows(
            root,
            v,
            depth,
            Set::empty(),
        )[j] is Leaf ==> change_rows(root, v, depth, Set::empty())[i]->Leaf_id != change_rows(root, v, depth, Set::empty())[j]->Leaf_id,
{
    let items = change_items(root, v);
    assert(items[id as int].id == id);
    open_tree_lists_every_item(items, Seq::empty(), depth, change_style(), id);
    let t = change_rows(root, v, depth, Set::empty());
    if 0 <= i < j < t.len() && t[i] is Leaf && t[j] is Leaf {
        tree_lists_no_item_twice(items, Seq::empty(), depth, change_style(), Set::empty(), i, j);
    }
}

/// The row of a file shows that file: its path, its mark, and its colour, which goes by its state
/// unless the row is selected.
pub proof fn a_row_shows_its_file(w: RowWorld, depth: int, name: Seq<char>, id: usize)
    requires
        id < w.files.len(),
    ensures
        ({
            let r = look(w, RowView::Leaf { depth, name, id });
            let (path, state) = w.files[id as int];
            &&& r is File && r->File_path == path && r->File_name == name && r->File_depth == depth
            &&& r->File_marked <==> w.marked.contains(path)
            &&& r->File_selected <==> w.selected == Some(path) || w.active == Some(path)
            &&& !r->File_selected && !w.review ==> r->color == state_color(state)
            &&& !r->File_selected && w.review ==> r->color == review_color(state)
            &&& r->File_selected ==> r->color == 0xffffff
        }),
{
}

/// A directory is marked where it holds files and each of them is, and it is folded where it was
/// collapsed.
pub proof fn a_directory_is_marked_with_its_files(w: RowWorld, depth: int, key: PathView, label: Seq<char>, ids: Seq<usize>)
    ensures
        ({
            let r = look(w, RowView::Dir { depth, key, label, ids });
            &&& r is Dir && r->Dir_key == key && r->Dir_label == label && r->Dir_files.len() == ids.len()
            &&& r->Dir_collapsed <==> w.collapsed.contains(key)
            &&& r->Dir_marked <==> ids.len() > 0 && forall|k: int| 0 <= k < ids.len() ==> w.marked.contains(w.files[#[trigger] ids[k] as int].0)
        }),
{
    let f = numbered_paths(w.files, ids);
    assert forall|k: int| 0 <= k < ids.len() implies f[k] == w.files[#[trigger] ids[k] as int].0 by {}
    let r = look(w, RowView::Dir { depth, key, label, ids });
    if r->Dir_marked {
        assert forall|k: int| 0 <= k < ids.len() implies w.marked.contains(w.files[#[trigger] ids[k] as int].0) by {
            assert(w.marked.contains(f[k]));
        }
    }
    if ids.len() > 0 && forall|k: int| 0 <= k < ids.len() ==> w.marked.contains(w.files[#[trigger] ids[k] as int].0) {
        assert forall|k: int| 0 <= k < f.len() implies w.marked.contains(#[trigger] f[k]) by {
            assert(f[k] == w.files[ids[k] as int].0);
        }
    }
}

} // verus!
