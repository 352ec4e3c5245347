//! The review pane: the files of a pull request and which of them were viewed.
use vstd::prelude::*;
use crate::changes::{ChangesView, CommitRow, MarkFilter, RowWorld, change_rows, changes_view, commit_row_views, count_marked, look, no_path, shown_changes, toggle_all, toggled_all};
use crate::git::{Change, GitState, change_paths, change_views, paths_of};
use crate::keys::{Keystroke, percent_of};
use crate::order::{Ranked, can_sort, lemma_sorted_map, sort, sorted, sorted_by, sorting_by_keeps_members, sorting_by_orders};
use crate::outline::RowView;
use crate::path::{FilePath, PathSet, PathView, all_in, copy_opt_path, lemma_path_views_push, opt_path, path_less, path_order_is_total, path_order_is_transitive, path_position, path_views, rel_text, toggled, under};
use crate::text::{cat, filter_map, lemma_filter_map_ends, lemma_filter_map_step, mapping_keeps_members, opt_text};
use crate::theme::{ACCENT, MUTED};

verus! {

/// A diff that is to be opened in its own window.
#[derive(Debug)]
pub struct DiffRequest {
    pub files: Vec<FilePath>,
    pub idx: usize,
    pub old: Option<String>,
    pub new_rev: Option<String>,
    pub pr_mode: bool,
    pub filter_text: String,
    pub view: MarkFilter,
}

/// The request as plain values.
pub ghost struct DiffRequestView {
    pub files: Seq<PathView>,
    pub idx: int,
    pub old: Option<Seq<char>>,
    pub new_rev: Option<Seq<char>>,
    pub pr_mode: bool,
    pub filter_text: Seq<char>,
    pub view: MarkFilter,
}

impl View for DiffRequest {
    type V = DiffRequestView;

    open spec fn view(&self) -> DiffRequestView {
        DiffRequestView {
            files: path_views(self.files@),
            idx: self.idx as int,
            old: opt_text(self.old),
            new_rev: opt_text(self.new_rev),
            pr_mode: self.pr_mode,
            filter_text: self.filter_text@,
            view: self.view,
        }
    }
}

/// What an optional request asks for.
pub open spec fn opt_request(o: Option<DiffRequest>) -> Option<DiffRequestView> {
    match o {
        Some(d) => Some(d@),
        None => None,
    }
}

/// The first place of `p` in a list; the end of the list where it is not there.
pub open spec fn first_place(v: Seq<PathView>, p: PathView) -> int
    decreases v.len(),
{
    if v.len() == 0 || v[0] == p {
        0
    } else {
        1 + first_place(v.drop_first(), p)
    }
}

/// The first place of a path.
pub proof fn lemma_first_place(v: Seq<PathView>, p: PathView, i: int)
    requires
        0 <= i < v.len(),
        v[i] == p,
        forall|j: int| 0 <= j < i ==> v[j] != p,
    ensures
        first_place(v, p) == i,
    decreases v.len(),
{
    if i > 0 {
        let t = v.drop_first();
        assert forall|j: int| 0 <= j < i - 1 implies t[j] != p by {
            assert(t[j] == v[j + 1]);
        }
        assert(t[i - 1] == v[i]);
        lemma_first_place(t, p, i - 1);
    }
}

/// The state of the review pane.
#[derive(Debug)]
pub struct ReviewPane {
    pub files: Vec<Change>,
    pub viewed: PathSet,
    pub collapsed: PathSet,
    pub base: String,
    pub selected: Option<FilePath>,
    pub gen: usize,
    pub loading: bool,
    pub node_id: Option<String>,
    pub view_filter: MarkFilter,
}

/// The state as plain values.
pub ghost struct ReviewView {
    pub files: Seq<(PathView, GitState)>,
    pub viewed: Set<PathView>,
    pub collapsed: Set<PathView>,
    pub base: Seq<char>,
    pub selected: Option<PathView>,
    pub gen: usize,
    pub loading: bool,
    pub node_id: Option<Seq<char>>,
    pub view_filter: MarkFilter,
}

impl View for ReviewPane {
    type V = ReviewView;

    open spec fn view(&self) -> ReviewView {
        ReviewView {
            files: change_views(self.files@),
            viewed: self.viewed@,
            collapsed: self.collapsed@,
            base: self.base@,
            selected: opt_path(self.selected),
            gen: self.gen,
            loading: self.loading,
            node_id: opt_text(self.node_id),
            view_filter: self.view_filter,
        }
    }
}

/// The files that marking the selection concerns: the selected file, or all files under a
/// selected directory.
pub open spec fn review_targets(files: Seq<(PathView, GitState)>, sel: PathView) -> Seq<PathView> {
    if change_paths(files).contains(sel) {
        seq![sel]
    } else {
        filter_map(
            change_paths(files),
            |p: PathView|
                if under(p, sel) {
                    Some(p)
                } else {
                    None
                },
        )
    }
}

/// What a key does in the review pane.
#[derive(Debug)]
pub enum ReviewKey {
    Reload,
    CopyReference(FilePath),
    /// The marks of these files were changed.
    Marked(Vec<FilePath>),
    OpenFile(FilePath),
    OpenDiff(FilePath),
    ClearFilter,
    Edit,
    Nothing,
}

/// The path that such an action is about.
pub open spec fn review_key_path(k: ReviewKey) -> Option<PathView> {
    match k {
        ReviewKey::CopyReference(p) => Some(p@),
        ReviewKey::OpenFile(p) => Some(p@),
        ReviewKey::OpenDiff(p) => Some(p@),
        _ => None,
    }
}

/// What is told of a file: its shown path, and whether it was viewed.
pub open spec fn viewed_updates(root: PathView, viewed: Set<PathView>, paths: Seq<PathView>) -> Seq<(Seq<char>, bool)> {
    paths.map_values(|p: PathView| (rel_text(root, p), viewed.contains(p)))
}

/// The contents of a list of updates.
pub open spec fn update_views(v: Seq<(String, bool)>) -> Seq<(Seq<char>, bool)> {
    Seq::new(v.len(), |i: int| (v[i].0@, v[i].1))
}

impl ReviewPane {
    /// The sets hold no path twice.
    pub open spec fn wf(&self) -> bool {
        self.viewed.wf() && self.collapsed.wf()
    }

    /// An empty pane.
    pub fn new() -> (r: ReviewPane)
        ensures
            r.wf(),
            r@ == (ReviewView {
                files: Seq::empty(),
                viewed: Set::empty(),
                collapsed: Set::empty(),
                base: Seq::empty(),
                selected: None,
                gen: 0,
                loading: false,
                node_id: None,
                view_filter: MarkFilter::All,
            }),
    {
        let r = ReviewPane {
            files: Vec::new(),
            viewed: PathSet::new(),
            collapsed: PathSet::new(),
            base: String::new(),
            selected: None,
            gen: 0,
            loading: false,
            node_id: None,
            view_filter: MarkFilter::All,
        };
        assert(change_views(r.files@) =~= Seq::<(PathView, GitState)>::empty());
        r
    }

    /// A click on a file selects it. Says whether its diff is to be shown: the click was a double one.
    pub fn click_file(&mut self, p: &FilePath, clicks: usize) -> (r: bool)
        requires
            old(self).wf(),
        ensures
            final(self).wf(),
            final(self)@ == (ReviewView { selected: Some(p@), ..old(self)@ }),
            r == (clicks >= 2),
    {
        self.selected = Some(p.copy());
        clicks >= 2
    }

    /// Loading begins; gives its number.
    pub fn start_load(&mut self) -> (r: usize)
        requires
            old(self).gen < usize::MAX,
        ensures
            r == old(self).gen + 1,
            final(self)@ == (ReviewView { gen: r, loading: true, ..old(self)@ }),
            old(self).wf() ==> final(self).wf(),
    {
        self.gen = self.gen + 1;
        self.loading = true;
        self.gen
    }

    /// What load number `gen` found; an older load than the last is passed over.
    pub fn loaded(&mut self, gen: usize, base: String, files: Vec<Change>, node_id: Option<String>, viewed: PathSet)
        requires
            old(self).wf(),
            viewed.wf(),
        ensures
            final(self).wf(),
            final(self)@ == if gen == old(self).gen {
                ReviewView {
                    base: base@,
                    files: change_views(files@),
                    node_id: opt_text(node_id),
                    viewed: viewed@,
                    loading: false,
                    ..old(self)@
                }
            } else {
                old(self)@
            },
    {
        if gen == self.gen {
            self.base = base;
            self.files = files;
            self.node_id = node_id;
            self.viewed = viewed;
            self.loading = false;
        }
    }

    /// Marks a file as viewed, or takes the mark away.
    pub fn toggle_viewed(&mut self, p: &FilePath)
        requires
            old(self).wf(),
        ensures
            final(self).wf(),
            final(self)@ == (ReviewView { viewed: toggled(old(self)@.viewed, p@), ..old(self)@ }),
    {
        self.viewed.toggle(p);
    }

    /// Marks a group of files, or unmarks it where all of it is marked.
    pub fn toggle_viewed_all(&mut self, paths: &Vec<FilePath>)
        requires
            old(self).wf(),
        ensures
            final(self).wf(),
            final(self)@ == (ReviewView {
                viewed: toggled_all(old(self)@.viewed, path_views(paths@)),
                ..old(self)@
            }),
    {
        toggle_all(&mut self.viewed, paths);
    }

    /// Collapses a directory, or expands it.
    pub fn toggle_collapsed(&mut self, key: &FilePath)
        requires
            old(self).wf(),
        ensures
            final(self).wf(),
            final(self)@ == (ReviewView {
                collapsed: toggled(old(self)@.collapsed, key@),
                ..old(self)@
            }),
    {
        self.collapsed.toggle(key);
    }

    /// What GitHub is to be told of these files: nothing where the pull request has no id.
    pub fn updates(&self, root: &FilePath, paths: &Vec<FilePath>) -> (r: Vec<(String, bool)>)
        ensures
            update_views(r@) == if self@.node_id is None {
                Seq::empty()
            } else {
                viewed_updates(root@, self@.viewed, path_views(paths@))
            },
    {
        let mut out: Vec<(String, bool)> = Vec::new();
        if self.node_id.is_none() {
            assert(update_views(out@) =~= Seq::<(Seq<char>, bool)>::empty());
            return out;
        }
        let ghost want = viewed_updates(root@, self@.viewed, path_views(paths@));
        let mut i: usize = 0;
        while i < paths.len()
            invariant
                i <= paths.len(),
                want == viewed_updates(root@, self@.viewed, path_views(paths@)),
                out.len() == i,
                forall|j: int| 0 <= j < i ==> ((#[trigger] out@[j]).0@, out@[j].1) == want[j],
            decreases paths.len() - i,
        {
            let u = (root.rel(&paths[i]), self.viewed.contains(&paths[i]));
            assert(path_views(paths@)[i as int] == paths@[i as int]@);
            out.push(u);
            i = i + 1;
        }
        assert(update_views(out@) =~= want);
        out
    }

    /// The files that marking the selection concerns.
    pub fn targets(&self, sel: &FilePath) -> (r: Vec<FilePath>)
        ensures
            path_views(r@) == review_targets(self@.files, sel@),
    {
        let all = paths_of(&self.files);
        let ghost pv = path_views(all@);
        let mut out: Vec<FilePath> = Vec::new();
        if let Some(i) = path_position(&all, sel) {
            assert(pv.contains(sel@));
            out.push(sel.copy());
            assert(path_views(out@) =~= seq![sel@]);
            return out;
        }
        let ghost f = |p: PathView|
            if under(p, sel@) {
                Some(p)
            } else {
                None
            };
        let mut i: usize = 0;
        proof {
            lemma_filter_map_ends(pv, f);
            assert(path_views(out@) =~= Seq::<PathView>::empty());
        }
        while i < all.len()
            invariant
                i <= all.len(),
                pv == path_views(all@),
                f == (|p: PathView|
                    if under(p, sel@) {
                        Some(p)
                    } else {
                        None
                    }),
                path_views(out@) == filter_map(pv.take(i as int), f),
            decreases all.len() - i,
        {
            proof {
                lemma_filter_map_step(pv, f, i as int);
            }
            if all[i].starts_with(sel) {
                let p = all[i].copy();
                proof {
                    lemma_path_views_push(out@, p);
                }
                out.push(p);
            }
            i = i + 1;
        }
        out
    }

    /// A key in the pane. `filter_empty` says whether the filter box is empty, `is_file`
    /// whether the selected path is a file on disk.
    pub fn review_key(&mut self, k: &Keystroke, filter_empty: bool, is_file: bool) -> (r: ReviewKey)
        requires
            old(self).wf(),
        ensures
            final(self).wf(),
            ({
                let k = k@;
                let s = old(self)@.selected;
                if k.platform && k.key == "r"@ {
                    r is Reload && final(self)@ == old(self)@
                } else if k.platform && k.shift && k.key == "c"@ {
                    &&& final(self)@ == old(self)@
                    &&& if s is Some {
                        r is CopyReference && review_key_path(r) == s
                    } else {
                        r is Nothing
                    }
                } else if k.platform && k.shift && k.key == "s"@ {
                    if s is Some {
                        let t = review_targets(old(self)@.files, s->0);
                        &&& r is Marked
                        &&& path_views(r->Marked_0@) == t
                        &&& final(self)@ == (ReviewView {
                            viewed: toggled_all(old(self)@.viewed, t),
                            ..old(self)@
                        })
                    } else {
                        r is Nothing && final(self)@ == old(self)@
                    }
                } else {
                    &&& final(self)@ == old(self)@
                    &&& if k.key == "f4"@ {
                        if s is Some && is_file {
                            r is OpenFile && review_key_path(r) == s
                        } else {
                            r is Nothing
                        }
                    } else if k.key == "enter"@ {
                        if s is Some {
                            r is OpenDiff && review_key_path(r) == s
                        } else {
                            r is Nothing
                        }
                    } else if k.key == "escape"@ {
                        if filter_empty {
                            r is Nothing
                        } else {
                            r is ClearFilter
                        }
                    } else {
                        r is Edit
                    }
                }
            }),
    {
        if k.platform && k.is("r") {
            return ReviewKey::Reload;
        }
        if k.platform && k.shift && k.is("c") {
            return match &self.selected {
                Some(p) => ReviewKey::CopyReference(p.copy()),
                None => ReviewKey::Nothing,
            };
        }
        if k.platform && k.shift && k.is("s") {
            let sel = copy_opt_path(&self.selected);
            return match sel {
                Some(p) => {
                    let t = self.targets(&p);
                    self.toggle_viewed_all(&t);
                    ReviewKey::Marked(t)
                },
                None => ReviewKey::Nothing,
            };
        }
        if k.is("f4") {
            return match &self.selected {
                Some(p) => if is_file {
                    ReviewKey::OpenFile(p.copy())
                } else {
                    ReviewKey::Nothing
                },
                None => ReviewKey::Nothing,
            };
        }
        if k.is("enter") {
            return match &self.selected {
                Some(p) => ReviewKey::OpenDiff(p.copy()),
                None => ReviewKey::Nothing,
            };
        }
        if k.is("escape") {
            return if filter_empty {
                ReviewKey::Nothing
            } else {
                ReviewKey::ClearFilter
            };
        }
        ReviewKey::Edit
    }

    /// The diff of a file of the pull request against `base_rev`; none for another path. The
    /// filter of the pane goes with it.
    pub fn open_diff(&self, path: &FilePath, base_rev: &str, filter: &str) -> (r: Option<DiffRequest>)
        ensures
            opt_request(r) == if change_paths(self@.files).contains(path@) {
                Some(
                    DiffRequestView {
                        files: change_paths(self@.files),
                        idx: first_place(change_paths(self@.files), path@),
                        old: Some(base_rev@),
                        new_rev: None,
                        pr_mode: true,
                        filter_text: filter@,
                        view: self@.view_filter,
                    },
                )
            } else {
                None
            },
    {
        let files = paths_of(&self.files);
        match path_position(&files, path) {
            Some(idx) => {
                proof {
                    let v = path_views(files@);
                    assert(v.contains(path@));
                    lemma_first_place(v, path@, idx as int);
                }
                Some(
                    DiffRequest {
                        files,
                        idx,
                        old: Some(base_rev.to_owned()),
                        new_rev: None,
                        pr_mode: true,
                        filter_text: filter.to_owned(),
                        view: self.view_filter,
                    },
                )
            },
            None => None,
        }
    }

    /// The whole pane as it is drawn.
    pub fn view_files(&self, root: &FilePath, filter: &str) -> (r: ChangesView)
        ensures
            ({
                let cv = self@.files;
                let shown = shown_changes(root@, cv, filter@, self@.view_filter, self@.viewed);
                let w = RowWorld {
                    root: root@,
                    files: shown,
                    marked: self@.viewed,
                    collapsed: self@.collapsed,
                    selected: self@.selected,
                    active: None,
                    review: true,
                };
                &&& change_views(r.files@) == shown
                &&& r.collapsed == self@.collapsed.contains(no_path())
                &&& commit_row_views(r.rows@) == if r.collapsed {
                    Seq::empty()
                } else {
                    change_rows(root@, shown, 1, self@.collapsed).map_values(|x: RowView| look(w, x))
                }
                &&& r.group_marked == (shown.len() > 0 && all_in(change_paths(shown), self@.viewed))
                &&& r.total == cv.len()
                &&& r.marked == count_marked(cv, self@.viewed)
                &&& r.percent == percent_of(r.marked as int, r.total as int)
            }),
    {
        changes_view(
            root,
            &self.files,
            filter,
            self.view_filter,
            &self.viewed,
            &self.collapsed,
            &self.selected,
            &None,
            true,
        )
    }

    /// What the header of the pane says, and its colour.
    pub fn header(&self) -> (r: (String, u32))
        ensures
            r.0@ == if self@.loading {
                "PULL REQUEST  ·  refreshing…"@
            } else if self@.base.len() == 0 {
                "PULL REQUEST"@
            } else {
                "PULL REQUEST  ·  vs "@ + self@.base
            },
            r.1 == if self@.loading {
                ACCENT
            } else {
                MUTED
            },
    {
        if self.loading {
            ("PULL REQUEST  ·  refreshing…".to_owned(), ACCENT)
        } else if self.base.as_str().is_empty() {
            ("PULL REQUEST".to_owned(), MUTED)
        } else {
            (cat("PULL REQUEST  ·  vs ", self.base.as_str()), MUTED)
        }
    }

    /// What stands in place of the list where no file is shown.
    pub fn empty_note(&self) -> (r: &'static str)
        ensures
            r@ == if self@.files.len() == 0 {
                "No changes vs base"@
            } else {
                "No matching files"@
            },
    {
        assert(self@.files.len() == self.files@.len());
        if self.files.len() == 0 {
            "No changes vs base"
        } else {
            "No matching files"
        }
    }
}

/// One row of the review list: the group of all files first, then the rows of the tree.
pub enum ReviewRow<'a> {
    Group { files: usize, marked: bool, collapsed: bool },
    Row(&'a CommitRow),
}

/// Row `ix` of the review list, which has one row more than the tree.
pub fn pr_row<'a>(v: &'a ChangesView, ix: usize) -> (r: ReviewRow<'a>)
    requires
        ix <= v.rows@.len(),
    ensures
        r == if ix == 0 {
            ReviewRow::Group {
                files: v.files@.len() as usize,
                marked: v.group_marked,
                collapsed: v.collapsed,
            }
        } else {
            ReviewRow::Row(&v.rows@[ix - 1])
        },
{
    if ix == 0 {
        ReviewRow::Group { files: v.files.len(), marked: v.group_marked, collapsed: v.collapsed }
    } else {
        ReviewRow::Row(&v.rows[ix - 1])
    }
}

/// The working-tree diff over all changed files and the file it begins with.
pub open spec fn working_files(changed: Seq<PathView>, focus: Option<PathView>) -> Seq<PathView> {
    let all = match focus {
        Some(p) => if changed.contains(p) {
            changed
        } else {
            changed.push(p)
        },
        None => changed,
    };
    sorted_by(all, |a: PathView, b: PathView| path_less(a, b))
}

impl Ranked for FilePath {
    open spec fn before(&self, other: &Self) -> bool {
        path_less(self@, other@)
    }

    fn comes_before(&self, other: &Self) -> (r: bool) {
        self.less(other)
    }

    proof fn order_is_strict(a: &Self, b: &Self) {
        path_order_is_total(a@, b@);
    }

    proof fn order_is_weak(a: &Self, b: &Self, c: &Self) {
        if a.before(c) {
            path_order_is_total(a@, b@);
            path_order_is_total(b@, c@);
            if b.before(a) {
                path_order_is_transitive(b@, a@, c@);
            }
        }
    }
}

/// Puts paths in their order.
pub fn sort_paths(v: Vec<FilePath>) -> (r: Vec<FilePath>)
    ensures
        path_views(r@) == sorted_by(path_views(v@), |a: PathView, b: PathView| path_less(a, b)),
{
    proof {
        let f = |p: FilePath| p@;
        let less = |a: PathView, b: PathView| path_less(a, b);
        assert forall|a: FilePath, b: FilePath| #[trigger] a.before(&b) == less(f(a), f(b)) by {
        }
        lemma_sorted_map(v@, f, less);
        assert(path_views(v@) =~= v@.map_values(f));
        assert(path_views(sorted(v@)) =~= sorted(v@).map_values(f));
    }
    sort(v)
}

/// The working-tree diff: all changed files, and the file in focus even where it is not
/// changed, in the order of their paths. None where there is no file.
pub fn working_diff(changed: &Vec<Change>, focus: &Option<FilePath>, filter: &str) -> (r: Option<DiffRequest>)
    ensures
        ({
            let files = working_files(change_paths(change_views(changed@)), opt_path(*focus));
            opt_request(r) == if files.len() == 0 {
                None
            } else {
                let at = match opt_path(*focus) {
                    Some(p) => first_place(files, p),
                    None => 0,
                };
                Some(
                    DiffRequestView {
                        files,
                        idx: if at < files.len() {
                            at
                        } else {
                            0
                        },
                        old: None,
                        new_rev: None,
                        pr_mode: false,
                        filter_text: filter@,
                        view: MarkFilter::All,
                    },
                )
            }
        }),
{
    let mut files = paths_of(changed);
    let ghost cv = path_views(files@);
    if let Some(p) = focus {
        match path_position(&files, p) {
            Some(i) => {
                assert(cv.contains(p@));
            },
            None => {
                let c = p.copy();
                proof {
                    lemma_path_views_push(files@, c);
                }
                files.push(c);
            },
        }
    }
    let files = sort_paths(files);
    let ghost v = path_views(files@);
    assert(v.len() == files.len());
    if files.len() == 0 {
        return None;
    }
    let idx: usize = match focus {
        Some(p) => match path_position(&files, p) {
            Some(i) => {
                proof {
                    lemma_first_place(v, p@, i as int);
                }
                i
            },
            None => {
                proof {
                    lemma_absent_place(v, p@);
                }
                0
            },
        },
        None => 0,
    };
    Some(
        DiffRequest {
            files,
            idx,
            old: None,
            new_rev: None,
            pr_mode: false,
            filter_text: filter.to_owned(),
            view: MarkFilter::All,
        },
    )
}

proof fn lemma_absent_place(v: Seq<PathView>, p: PathView)
    requires
        !v.contains(p),
    ensures
        first_place(v, p) == v.len(),
    decreases v.len(),
{
    if v.len() > 0 {
        assert(v.contains(v[0]));
        let t = v.drop_first();
        assert forall|i: int| 0 <= i < t.len() implies t[i] != p by {
            assert(v.contains(v[i + 1]));
        }
        lemma_absent_place(t, p);
    }
}

/// Marking a selected file concerns that file; marking a selected directory concerns every file under
/// it.
pub proof fn marking_concerns_what_is_selected(files: Seq<(PathView, GitState)>, sel: PathView, p: PathView)
    ensures
        change_paths(files).contains(sel) ==> review_targets(files, sel) == seq![sel],
        !change_paths(files).contains(sel) ==> (review_targets(files, sel).contains(p) <==> change_paths(files).contains(p) && under(p, sel)),
{
    let f = |p: PathView|
        if under(p, sel) {
            Some(p)
        } else {
            None
        };
    let v = change_paths(files);
    mapping_keeps_members(v, f, p);
    if !v.contains(sel) {
        if v.contains(p) && under(p, sel) {
            let k = choose|k: int| 0 <= k < v.len() && v[k] == p;
            assert(f(v[k]) == Some(p));
        }
    }
}

/// The server is told of each file, by its path from the root, whether it was viewed.
pub proof fn the_server_is_told_of_each_file(root: PathView, viewed: Set<PathView>, paths: Seq<PathView>, i: int)
    requires
        0 <= i < paths.len(),
    ensures
        viewed_updates(root, viewed, paths).len() == paths.len(),
        viewed_updates(root, viewed, paths)[i].0 == rel_text(root, paths[i]),
        viewed_updates(root, viewed, paths)[i].1 <==> viewed.contains(paths[i]),
{
}

/// The diff of the working tree goes over all changed files, and the focused one, in the order of
/// their paths.
pub proof fn the_working_diff_goes_over_all_changes(changed: Seq<PathView>, f: PathView, p: PathView)
    ensures
        working_files(changed, None).contains(p) <==> changed.contains(p),
        working_files(changed, Some(f)).contains(p) <==> changed.contains(p) || p == f,
        forall|i: int, j: int|
            #![trigger working_files(changed, Some(f))[i], working_files(changed, Some(f))[j]]
            0 <= i < j < working_files(changed, Some(f)).len() ==> !path_less(working_files(changed, Some(f))[j], working_files(changed, Some(f))[i]),
        changed.contains(f) ==> working_files(changed, Some(f)).len() == changed.len(),
{
    let less = |a: PathView, b: PathView| path_less(a, b);
    assert(can_sort(less)) by {
        assert forall|a: PathView, b: PathView| #[trigger] less(a, b) implies !less(b, a) by {
            path_order_is_total(a, b);
        }
        assert forall|a: PathView, b: PathView, c: PathView| #![trigger less(a, b), less(b, c)] !less(a, b) && !less(b, c) implies !less(a, c) by {
            path_order_is_total(a, b);
            path_order_is_total(b, c);
            if path_less(a, c) && a != b && b != c {
                path_order_is_transitive(c, b, a);
                path_order_is_total(a, c);
            }
        }
    }
    let all = if changed.contains(f) {
        changed
    } else {
        changed.push(f)
    };
    sorting_by_keeps_members(changed, less, p);
    sorting_by_keeps_members(all, less, p);
    sorting_by_orders(all, less);
    if !changed.contains(f) {
        assert(all[all.len() - 1] == f);
        if changed.contains(p) {
            let k = choose|k: int| 0 <= k < changed.len() && changed[k] == p;
            assert(all[k] == p);
        }
        if all.contains(p) && p != f {
            let k = choose|k: int| 0 <= k < all.len() && all[k] == p;
            assert(changed[k] == p);
        }
    }
}

} // verus!
