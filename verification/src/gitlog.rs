//! The git panel: the tree of branches, the log, and the details of a commit.
use vstd::prelude::*;
use crate::changes::MarkFilter;
use crate::git::{Change, CommitView, GitState, LogCommit, change_paths, change_views, commit_views, paths_of};
use crate::keys::{Keystroke, down_step, step_down, step_up};
use crate::outline::{ItemView, RowView, TreeItem, TreeRow, TreeStyle, item_views, lists_id, may_precede, names_id, open_tree_lists_every_item, row_views, rows_are_about_the_items, siblings, siblings_stand_in_order, tree, tree_lists_no_item_twice, tree_rows};
use crate::path::{FilePath, PathSet, PathView, opt_path, path_position, path_views, toggled};
use crate::review::{DiffRequest, DiffRequestView, first_place, lemma_first_place, opt_request};
use crate::text::{cat, cat3, contains, dec, decimal, join_undoes_split, lemma_pieces_nonempty, lower, occurs, opt_text, pieces, same, split, texts, trim, trimmed};
use crate::theme::{ACCENT, TEXT};

verus! {

/// The state of the git panel.
#[derive(Debug)]
pub struct GitLog {
    pub rev: String,
    pub commits: Vec<LogCommit>,
    pub sel: Option<usize>,
    pub gen: usize,
    pub branches: Vec<String>,
    pub collapsed: PathSet,
    pub details_msg: String,
    pub details_files: Vec<Change>,
}

/// The state as plain values.
pub ghost struct GitLogView {
    pub rev: Seq<char>,
    pub commits: Seq<CommitView>,
    pub sel: Option<usize>,
    pub gen: usize,
    pub branches: Seq<Seq<char>>,
    pub collapsed: Set<PathView>,
    pub details_msg: Seq<char>,
    pub details_files: Seq<(PathView, GitState)>,
}

impl View for GitLog {
    type V = GitLogView;

    open spec fn view(&self) -> GitLogView {
        GitLogView {
            rev: self.rev@,
            commits: commit_views(self.commits@),
            sel: self.sel,
            gen: self.gen,
            branches: texts(self.branches@),
            collapsed: self.collapsed@,
            details_msg: self.details_msg@,
            details_files: change_views(self.details_files@),
        }
    }
}

/// The branches as items of a tree, each numbered by its place.
pub open spec fn branch_items(branches: Seq<Seq<char>>) -> Seq<ItemView> {
    Seq::new(branches.len(), |i: int| ItemView { comps: pieces(branches[i], '/'), id: i as usize })
}

/// The rows of the tree of branches: names in their order, folders first.
pub open spec fn branch_tree(branches: Seq<Seq<char>>, collapsed: Set<PathView>) -> Seq<RowView> {
    tree(
        branch_items(branches),
        Seq::empty(),
        1,
        TreeStyle { compress: false, sort_leaves: true },
        collapsed,
    )
}

/// One row of the tree of branches.
#[derive(Debug)]
pub struct GitBranchRow {
    pub depth: usize,
    pub label: String,
    pub branch: Option<String>,
    pub folder: Option<FilePath>,
}

/// What such a row shows: a folder with its key, or a branch with its full name.
pub ghost struct BranchRowView {
    pub depth: int,
    pub label: Seq<char>,
    pub branch: Option<Seq<char>>,
    pub folder: Option<PathView>,
}

impl View for GitBranchRow {
    type V = BranchRowView;

    open spec fn view(&self) -> BranchRowView {
        BranchRowView {
            depth: self.depth as int,
            label: self.label@,
            branch: opt_text(self.branch),
            folder: opt_path(self.folder),
        }
    }
}

/// What the rows show.
pub open spec fn branch_row_views(v: Seq<GitBranchRow>) -> Seq<BranchRowView> {
    Seq::new(v.len(), |i: int| v[i]@)
}

/// How a row of the tree shows a branch.
pub open spec fn branch_row(branches: Seq<Seq<char>>, r: RowView) -> BranchRowView {
    match r {
        RowView::Dir { depth, key, label, ids } => BranchRowView {
            depth,
            label,
            branch: None,
            folder: Some(key),
        },
        RowView::Leaf { depth, name, id } => BranchRowView {
            depth,
            label: name,
            branch: Some(branches[id as int]),
            folder: None,
        },
    }
}

/// Whether a commit holds the query in its subject, its hashes or its author.
pub open spec fn commit_fits(c: CommitView, q: Seq<char>) -> bool {
    q.len() == 0 || occurs(lower(c.subject), q) || occurs(lower(c.short), q) || occurs(
        lower(c.hash),
        q,
    ) || occurs(lower(c.author), q)
}

/// The places, before `n`, of the commits that fit a query.
pub open spec fn visible_commits(v: Seq<CommitView>, query: Seq<char>, n: int) -> Seq<usize>
    decreases n,
{
    if n <= 0 {
        Seq::empty()
    } else {
        let s = visible_commits(v, query, n - 1);
        if commit_fits(v[n - 1], lower(trimmed(query))) {
            s.push((n - 1) as usize)
        } else {
            s
        }
    }
}

/// The first place of `x` in a list of numbers; 0 where it is not there.
pub open spec fn place_or_zero(v: Seq<usize>, x: Option<usize>) -> int {
    match x {
        Some(s) => if v.contains(s) {
            v.index_of_first(s)->0
        } else {
            0
        },
        None => 0,
    }
}

/// What a key does in the panel.
#[derive(Clone, Copy, Debug, PartialEq, Eq, Structural)]
pub enum GitKey {
    Close,
    Select(usize),
    Nothing,
}

/// Where the arrows go in the list of visible commits.
pub open spec fn git_key_of(key: Seq<char>, vis: Seq<usize>, sel: Option<usize>) -> GitKey {
    let cur = place_or_zero(vis, sel);
    if key == "escape"@ {
        GitKey::Close
    } else if key == "down"@ && vis.len() > 0 {
        GitKey::Select(vis[down_step(cur, vis.len() as int)])
    } else if key == "up"@ && vis.len() > 0 {
        GitKey::Select(
            vis[if cur > 0 {
                cur - 1
            } else {
                0
            }],
        )
    } else {
        GitKey::Nothing
    }
}

impl GitLog {
    /// The set holds no path twice.
    pub open spec fn wf(&self) -> bool {
        self.collapsed.wf()
    }

    /// An empty panel on the head.
    pub fn new() -> (r: GitLog)
        ensures
            r.wf(),
            r@ == (GitLogView {
                rev: "HEAD"@,
                commits: Seq::empty(),
                sel: None,
                gen: 0,
                branches: Seq::empty(),
                collapsed: Set::empty(),
                details_msg: Seq::empty(),
                details_files: Seq::empty(),
            }),
    {
        let r = GitLog {
            rev: "HEAD".to_owned(),
            commits: Vec::new(),
            sel: None,
            gen: 0,
            branches: Vec::new(),
            collapsed: PathSet::new(),
            details_msg: String::new(),
            details_files: Vec::new(),
        };
        assert(commit_views(r.commits@) =~= Seq::<CommitView>::empty());
        assert(texts(r.branches@) =~= Seq::<Seq<char>>::empty());
        assert(change_views(r.details_files@) =~= Seq::<(PathView, GitState)>::empty());
        r
    }

    /// Loading begins; gives its number.
    pub fn start_load(&mut self) -> (r: usize)
        requires
            old(self).gen < usize::MAX,
        ensures
            r == old(self).gen + 1,
            final(self)@ == (GitLogView { gen: r, ..old(self)@ }),
            old(self).wf() ==> final(self).wf(),
    {
        self.gen = self.gen + 1;
        self.gen
    }

    /// Another revision is to be shown.
    pub fn show_rev(&mut self, rev: String)
        ensures
            final(self)@ == (GitLogView { rev: rev@, ..old(self)@ }),
            old(self).wf() ==> final(self).wf(),
    {
        self.rev = rev;
    }

    /// What load number `gen` found; an older one than the last is passed over. The first
    /// commit is selected, and its hash is given back so that its details can be read.
    pub fn loaded(&mut self, gen: usize, branches: Vec<String>, commits: Vec<LogCommit>) -> (r: Option<String>)
        ensures
            old(self).wf() ==> final(self).wf(),
            if gen != old(self).gen {
                r is None && final(self)@ == old(self)@
            } else {
                &&& final(self)@ == (GitLogView {
                    branches: texts(branches@),
                    commits: commit_views(commits@),
                    sel: if commits@.len() > 0 {
                        Some(0usize)
                    } else {
                        None
                    },
                    details_msg: Seq::empty(),
                    details_files: Seq::empty(),
                    ..old(self)@
                })
                &&& opt_text(r) == if commits@.len() > 0 {
                    Some(commits@[0].hash@)
                } else {
                    None
                }
            },
    {
        if gen != self.gen {
            return None;
        }
        self.branches = branches;
        self.commits = commits;
        self.sel = None;
        self.details_msg = String::new();
        self.details_files = Vec::new();
        assert(self.details_msg@ =~= Seq::<char>::empty());
        assert(change_views(self.details_files@) =~= Seq::<(PathView, GitState)>::empty());
        if self.commits.len() > 0 {
            self.sel = Some(0);
            Some(self.commits[0].hash.clone())
        } else {
            None
        }
    }

    /// Selects commit `idx` and gives its hash, where there is one.
    pub fn select_commit(&mut self, idx: usize) -> (r: Option<String>)
        ensures
            old(self).wf() ==> final(self).wf(),
            if idx < old(self)@.commits.len() {
                &&& opt_text(r) == Some(old(self)@.commits[idx as int].hash)
                &&& final(self)@ == (GitLogView { sel: Some(idx), ..old(self)@ })
            } else {
                r is None && final(self)@ == old(self)@
            },
    {
        assert(self@.commits.len() == self.commits.len());
        if idx < self.commits.len() {
            self.sel = Some(idx);
            Some(self.commits[idx].hash.clone())
        } else {
            None
        }
    }

    /// The details of a commit that was read under load number `gen`.
    pub fn detailed(&mut self, gen: usize, msg: String, files: Vec<Change>)
        ensures
            old(self).wf() ==> final(self).wf(),
            final(self)@ == if gen == old(self).gen {
                GitLogView {
                    details_msg: msg@,
                    details_files: change_views(files@),
                    ..old(self)@
                }
            } else {
                old(self)@
            },
    {
        if gen == self.gen {
            self.details_msg = msg;
            self.details_files = files;
        }
    }

    /// Collapses a folder of branches, or expands it.
    pub fn toggle_folder(&mut self, key: &FilePath)
        requires
            old(self).wf(),
        ensures
            final(self).wf(),
            final(self)@ == (GitLogView {
                collapsed: toggled(old(self)@.collapsed, key@),
                ..old(self)@
            }),
    {
        self.collapsed.toggle(key);
    }

    /// The places of the commits that fit a query.
    pub fn visible(&self, query: &str) -> (r: Vec<usize>)
        ensures
            r@ == visible_commits(self@.commits, query@, self@.commits.len() as int),
    {
        let t = trim(query);
        let q = t.as_str().to_lowercase();
        let ghost cv = self@.commits;
        let mut out: Vec<usize> = Vec::new();
        let mut i: usize = 0;
        assert(cv.len() == self.commits.len());
        while i < self.commits.len()
            invariant
                i <= self.commits.len(),
                cv == self@.commits,
                q@ == lower(trimmed(query@)),
                out@ == visible_commits(cv, query@, i as int),
            decreases self.commits.len() - i,
        {
            let c = &self.commits[i];
            assert(cv[i as int] == c@);
            let hit = if q.as_str().is_empty() {
                true
            } else {
                let a = c.subject.as_str().to_lowercase();
                let b = c.short.as_str().to_lowercase();
                let d = c.hash.as_str().to_lowercase();
                let e = c.author.as_str().to_lowercase();
                contains(a.as_str(), q.as_str()) || contains(b.as_str(), q.as_str()) || contains(
                    d.as_str(),
                    q.as_str(),
                ) || contains(e.as_str(), q.as_str())
            };
            if hit {
                out.push(i);
            }
            i = i + 1;
        }
        out
    }

    /// The rows of the tree of branches.
    pub fn branch_rows(&self) -> (r: Vec<GitBranchRow>)
        ensures
            branch_row_views(r@) == branch_tree(self@.branches, self@.collapsed).map_values(
                |x: RowView| branch_row(self@.branches, x),
            ),
    {
        let ghost b = self@.branches;
        assert(b.len() == self.branches.len());
        let ghost want = branch_items(b);
        let mut items: Vec<TreeItem> = Vec::new();
        let mut i: usize = 0;
        while i < self.branches.len()
            invariant
                i <= self.branches.len(),
                b == self@.branches,
                b.len() == self.branches.len(),
                want == branch_items(b),
                items.len() == i,
                forall|j: int| 0 <= j < i ==> (#[trigger] items@[j])@ == want[j],
            decreases self.branches.len() - i,
        {
            let x = TreeItem { comps: split(self.branches[i].as_str(), '/'), id: i };
            assert(b[i as int] == self.branches@[i as int]@);
            assert(x@ == want[i as int]);
            items.push(x);
            i = i + 1;
        }
        assert(item_views(items@) =~= want);
        let rows = tree_rows(
            &items,
            1,
            TreeStyle { compress: false, sort_leaves: true },
            &self.collapsed,
        );
        let ghost rv = branch_tree(b, self@.collapsed);
        let mut out: Vec<GitBranchRow> = Vec::new();
        let mut k: usize = 0;
        assert(row_views(rows@).len() == rows.len());
        while k < rows.len()
            invariant
                k <= rows.len(),
                b == self@.branches,
                b.len() == self.branches.len(),
                rv == branch_tree(b, self@.collapsed),
                row_views(rows@) == rv,
                out.len() == k,
                forall|j: int| 0 <= j < k ==> (#[trigger] out@[j])@ == branch_row(b, rv[j]),
            decreases rows.len() - k,
        {
            proof {
                assert(rv[k as int] == rows@[k as int]@);
                rows_are_about_the_items(
                    branch_items(b),
                    Seq::empty(),
                    1,
                    TreeStyle { compress: false, sort_leaves: true },
                    self@.collapsed,
                    k as int,
                );
            }
            match &rows[k] {
                TreeRow::Dir { depth, key, label, ids } => {
                    out.push(
                        GitBranchRow {
                            depth: *depth,
                            label: label.clone(),
                            branch: None,
                            folder: Some(key.copy()),
                        },
                    );
                },
                TreeRow::Leaf { depth, name, id } => {
                    proof {
                        assert(names_id(branch_items(b), *id));
                        assert(*id < b.len());
                        assert(b[*id as int] == self.branches@[*id as int]@);
                    }
                    out.push(
                        GitBranchRow {
                            depth: *depth,
                            label: name.clone(),
                            branch: Some(self.branches[*id].clone()),
                            folder: None,
                        },
                    );
                },
            }
            k = k + 1;
        }
        assert(branch_row_views(out@) =~= rv.map_values(|x: RowView| branch_row(b, x)));
        out
    }

    /// A key in the panel: the arrows go through the visible commits.
    pub fn git_key(&self, k: &Keystroke, query: &str) -> (r: GitKey)
        ensures
            r == git_key_of(
                k@.key,
                visible_commits(self@.commits, query@, self@.commits.len() as int),
                self@.sel,
            ),
    {
        let vis = self.visible(query);
        if k.is("escape") {
            return GitKey::Close;
        }
        let mut cur: usize = 0;
        if let Some(s) = self.sel {
            let mut i: usize = 0;
            while i < vis.len() && vis[i] != s
                invariant
                    i <= vis.len(),
                    forall|j: int| 0 <= j < i ==> vis@[j] != s,
                decreases vis.len() - i,
            {
                i = i + 1;
            }
            if i < vis.len() {
                cur = i;
                proof {
                    assert(vis@.contains(s));
                    vis@.index_of_first_ensures(s);
                    let f = vis@.index_of_first(s)->0;
                    assert(vis@[f] == s);
                    if f < i {
                        assert(vis@[f] != s);
                    }
                }
            } else {
                assert(!vis@.contains(s));
            }
        }
        assert(cur == place_or_zero(vis@, self@.sel));
        if vis.len() == 0 {
            return GitKey::Nothing;
        }
        if k.is("down") {
            return GitKey::Select(vis[step_down(cur, vis.len())]);
        }
        if k.is("up") {
            return GitKey::Select(vis[step_up(cur)]);
        }
        GitKey::Nothing
    }

    /// The diff of a file of the selected commit: what that commit changed in it.
    pub fn open_commit_diff(&self, path: &FilePath) -> (r: Option<DiffRequest>)
        ensures
            ({
                let files = change_paths(self@.details_files);
                opt_request(r) == match self@.sel {
                    Some(s) if s < self@.commits.len() && files.contains(path@) => Some(
                        DiffRequestView {
                            files,
                            idx: first_place(files, path@),
                            old: Some(self@.commits[s as int].hash + "^"@),
                            new_rev: Some(self@.commits[s as int].hash),
                            pr_mode: false,
                            filter_text: Seq::empty(),
                            view: MarkFilter::All,
                        },
                    ),
                    _ => None,
                }
            }),
    {
        assert(self@.commits.len() == self.commits.len());
        let s: usize = match self.sel {
            Some(s) => s,
            None => {
                return None;
            },
        };
        if s >= self.commits.len() {
            return None;
        }
        let c = &self.commits[s];
        assert(self@.commits[s as int] == c@);
        let files = paths_of(&self.details_files);
        match path_position(&files, path) {
            Some(idx) => {
                proof {
                    let v = path_views(files@);
                    assert(v.contains(path@));
                    lemma_first_place(v, path@, idx as int);
                }
                let filter_text = String::new();
                assert(filter_text@ =~= Seq::<char>::empty());
                Some(
                    DiffRequest {
                        files,
                        idx,
                        old: Some(cat(c.hash.as_str(), "^")),
                        new_rev: Some(c.hash.clone()),
                        pr_mode: false,
                        filter_text,
                        view: MarkFilter::All,
                    },
                )
            },
            None => None,
        }
    }

    /// How a row of the tree of branches is drawn, with `current` checked out: whether its folder is
    /// collapsed, whether it is shown in the log, and its colour.
    pub fn branch_look(&self, row: &GitBranchRow, current: &str) -> (r: (bool, bool, u32))
        ensures
            r.0 == match row@.folder {
                Some(f) => self@.collapsed.contains(f),
                None => false,
            },
            r.1 == (row@.branch == Some(self@.rev)),
            r.2 == if row@.branch == Some(current@) {
                ACCENT
            } else {
                TEXT
            },
    {
        let collapsed = match &row.folder {
            Some(f) => self.collapsed.contains(f),
            None => false,
        };
        match &row.branch {
            Some(b) => (
                collapsed,
                same(b.as_str(), self.rev.as_str()),
                if same(b.as_str(), current) {
                    ACCENT
                } else {
                    TEXT
                },
            ),
            None => (collapsed, false, TEXT),
        }
    }

    /// What the bar above the commits says of what is shown.
    pub fn rev_label(&self) -> (r: String)
        ensures
            r@ == "⎇ "@ + self@.rev,
    {
        cat("⎇ ", self.rev.as_str())
    }

    /// What the details show: the short hash, author and date, the message or else the
    /// subject, and how many files changed. None where no commit is selected.
    pub fn details(&self) -> (r: Option<(String, String, String, String)>)
        ensures
            match r {
                Some(d) => {
                    &&& self@.sel is Some
                    &&& self@.sel->0 < self@.commits.len()
                    &&& ({
                        let c = self@.commits[self@.sel->0 as int];
                        &&& d.0@ == c.short
                        &&& d.1@ == c.author + "  ·  "@ + c.date
                        &&& d.2@ == if self@.details_msg.len() == 0 {
                            c.subject
                        } else {
                            self@.details_msg
                        }
                        &&& d.3@ == dec(self@.details_files.len()) + " file(s) changed"@
                    })
                },
                None => self@.sel is None || self@.sel->0 >= self@.commits.len(),
            },
    {
        assert(self@.commits.len() == self.commits.len());
        match self.sel {
            Some(s) => {
                if s >= self.commits.len() {
                    return None;
                }
                let c = &self.commits[s];
                assert(self@.commits[s as int] == c@);
                assert(self@.details_files.len() == self.details_files.len());
                let n = decimal(self.details_files.len() as u64);
                let msg = if self.details_msg.as_str().is_empty() {
                    c.subject.clone()
                } else {
                    self.details_msg.clone()
                };
                Some(
                    (
                        c.short.clone(),
                        cat3(c.author.as_str(), "  ·  ", c.date.as_str()),
                        msg,
                        cat(n.as_str(), " file(s) changed"),
                    ),
                )
            },
            None => None,
        }
    }
}

/// What the row of the head says: the branch, or that there is none.
pub fn head_label(branch: &str) -> (r: String)
    ensures
        r@ == "HEAD  ·  "@ + if branch@.len() == 0 {
            "detached"@
        } else {
            branch@
        },
{
    if branch.is_empty() {
        cat("HEAD  ·  ", "detached")
    } else {
        cat("HEAD  ·  ", branch)
    }
}

/// With no folder collapsed the tree lists every branch, each once, and no other; in every folder
/// the folders come first and the branches behind them, both ascending. No branch is given
/// twice.
pub proof fn branch_tree_lists_each_branch_once(branches: Seq<Seq<char>>)
    requires
        branches.no_duplicates(),
        branches.len() <= usize::MAX,
    ensures
        forall|id: usize| #[trigger]
            lists_id(branch_tree(branches, Set::empty()), id) <==> id < branches.len(),
        forall|i: int, j: int|
            #![trigger branch_tree(branches, Set::empty())[i], branch_tree(branches, Set::empty())[j]]
            0 <= i < j < branch_tree(branches, Set::empty()).len() && branch_tree(branches, Set::empty())[i] is Leaf
                && branch_tree(branches, Set::empty())[j] is Leaf ==> branch_tree(
                branches,
                Set::empty(),
            )[i]->Leaf_id != branch_tree(branches, Set::empty())[j]->Leaf_id,
        forall|i: int, j: int| #[trigger]
            siblings(branch_tree(branches, Set::empty()), i, j) ==> may_precede(
                branch_tree(branches, Set::empty())[i],
                branch_tree(branches, Set::empty())[j],
                TreeStyle { compress: false, sort_leaves: true },
            ),
{
    let style = TreeStyle { compress: false, sort_leaves: true };
    let items = branch_items(branches);
    let base = Seq::<Seq<char>>::empty();
    let e = Set::<PathView>::empty();
    let t = branch_tree(branches, e);
    assert forall|i: int, j: int| #![trigger items[i], items[j]] 0 <= i < j < items.len() implies items[i].comps
        != items[j].comps by {
        join_undoes_split(branches[i], '/');
        join_undoes_split(branches[j], '/');
        assert(branches[i] != branches[j]);
    }
    assert forall|id: usize| #[trigger] lists_id(t, id) <==> id < branches.len() by {
        if lists_id(t, id) {
            let i = choose|i: int| 0 <= i < t.len() && (#[trigger] t[i]) is Leaf && t[i]->Leaf_id == id;
            rows_are_about_the_items(items, base, 1, style, e, i);
            let k = choose|k: int| 0 <= k < items.len() && (#[trigger] items[k]).id == id && items[k].comps.len() > 0;
            assert(k as usize == id);
        }
        if id < branches.len() {
            lemma_pieces_nonempty(branches[id as int], '/');
            assert(items[id as int].id == id);
            open_tree_lists_every_item(items, base, 1, style, id);
        }
    }
    assert forall|i: int, j: int|
        #![trigger t[i], t[j]]
        0 <= i < j < t.len() && t[i] is Leaf && t[j] is Leaf implies t[i]->Leaf_id != t[j]->Leaf_id by {
        tree_lists_no_item_twice(items, base, 1, style, e, i, j);
    }
    assert forall|i: int, j: int| #[trigger] siblings(t, i, j) implies may_precede(t[i], t[j], style) by {
        siblings_stand_in_order(items, base, 1, style, e, i, j);
    }
}

// ── what the log shows ──────────────────────────────────────────────────────

/// A commit is shown exactly where its subject, one of its hashes or its author holds the filter,
/// upper and lower case alike, and in the order of the log.
pub proof fn the_log_shows_what_fits(v: Seq<CommitView>, query: Seq<char>, n: int, i: int)
    requires
        0 <= i < n <= v.len(),
        n <= usize::MAX,
    ensures
        visible_commits(v, query, n).contains(i as usize) <==> {
            let q = lower(trimmed(query));
            q.len() == 0 || occurs(lower(v[i].subject), q) || occurs(lower(v[i].author), q) || occurs(lower(v[i].hash), q) || occurs(lower(v[i].short), q)
        },
        forall|k: int| 0 <= k < visible_commits(v, query, n).len() ==> #[trigger] visible_commits(v, query, n)[k] < n,
        forall|j: int, k: int|
            #![trigger visible_commits(v, query, n)[j], visible_commits(v, query, n)[k]]
            0 <= j < k < visible_commits(v, query, n).len() ==> visible_commits(v, query, n)[j] < visible_commits(v, query, n)[k],
    decreases n,
{
    let s = visible_commits(v, query, n);
    let w = visible_commits(v, query, n - 1);
    if n > 1 {
        the_log_shows_what_fits(v, query, n - 1, if i < n - 1 { i } else { 0 });
    }
    assert forall|k: int| 0 <= k < s.len() implies #[trigger] s[k] < n by {
        if k < w.len() {
            assert(s[k] == w[k]);
        }
    }
    assert forall|j: int, k: int| #![trigger s[j], s[k]] 0 <= j < k < s.len() implies s[j] < s[k] by {
        assert(s[j] == w[j]);
        if k < w.len() {
            assert(s[k] == w[k]);
        }
    }
    if s.contains(i as usize) {
        let k = choose|k: int| 0 <= k < s.len() && s[k] == i as usize;
        if k < w.len() {
            assert(w[k] == i as usize);
            assert(w.contains(i as usize));
        }
    }
    if i < n - 1 {
        if w.contains(i as usize) {
            let k = choose|k: int| 0 <= k < w.len() && w[k] == i as usize;
            assert(s[k] == i as usize);
        }
    } else if commit_fits(v[i], lower(trimmed(query))) {
        assert(s[s.len() - 1] == i as usize);
    }
}

/// A row of the tree is a folder with its key or a branch with its full name, never both.
pub proof fn a_row_is_a_folder_or_a_branch(branches: Seq<Seq<char>>, depth: int, key: PathView, label: Seq<char>, ids: Seq<usize>, id: usize)
    ensures
        ({
            let d = branch_row(branches, RowView::Dir { depth, key, label, ids });
            let b = branch_row(branches, RowView::Leaf { depth, name: label, id });
            &&& d.branch is None && d.folder == Some(key) && d.label == label && d.depth == depth
            &&& b.folder is None && b.branch == Some(branches[id as int]) && b.label == label && b.depth == depth
        }),
{
}

/// The arrows go to the next and the previous of the shown commits and stop at the ends; escape
/// closes the log.
pub proof fn arrows_go_through_the_log(vis: Seq<usize>, i: int, sel: Option<usize>)
    requires
        vis.no_duplicates(),
        0 <= i < vis.len(),
    ensures
        i + 1 < vis.len() ==> git_key_of("down"@, vis, Some(vis[i])) == GitKey::Select(vis[i + 1]),
        i == vis.len() - 1 ==> git_key_of("down"@, vis, Some(vis[i])) == GitKey::Select(vis[i]),
        i > 0 ==> git_key_of("up"@, vis, Some(vis[i])) == GitKey::Select(vis[i - 1]),
        i == 0 ==> git_key_of("up"@, vis, Some(vis[i])) == GitKey::Select(vis[0]),
        git_key_of("escape"@, vis, sel) == GitKey::Close,
        git_key_of("down"@, Seq::empty(), sel) == GitKey::Nothing,
{
    reveal_strlit("up");
    reveal_strlit("down");
    reveal_strlit("escape");
    assert("up"@.len() == 2 && "down"@.len() == 4 && "escape"@.len() == 6);
    let x = vis[i];
    assert(vis.contains(x));
    vis.index_of_first_ensures(x);
    let k = vis.index_of_first(x)->0;
    assert(vis[k] == x);
    assert(k == i);
}

} // verus!
