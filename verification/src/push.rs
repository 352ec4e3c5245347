//! The push dialog, the offer after a rejected push, and the list of merge conflicts.
use vstd::prelude::*;
use crate::changes::{CommitRow, MarkFilter, RowWorld, change_rows, commit_row_views, look, look_rows};
use crate::git::{Change, GitState, bare_branch, change_paths, change_views, opt_str, pair_texts, paths_of, strip_origin, two_dot};
use crate::keys::Keystroke;
use crate::outline::RowView;
use crate::path::{FilePath, PathSet, PathView, lemma_path_views_push, name_of, opt_path, path_position, path_views, rel_text};
use crate::review::{DiffRequest, DiffRequestView, first_place, lemma_first_place, opt_request};
use crate::text::{before_suffix, cat, cat3, dec, decimal, opt_text, same, strip_suffix, trim, trim_end_char, trimmed, without_trailing};

verus! {

/// The state of the push dialog.
#[derive(Debug)]
pub struct PushDialog {
    pub open: bool,
    pub branch: String,
    pub target: String,
    pub base_ref: String,
    pub ahead: bool,
    pub commits: Vec<(String, String)>,
    pub files: Vec<Change>,
    pub collapsed: PathSet,
    pub selected: Option<FilePath>,
    pub commit_sel: Option<String>,
    pub tags: bool,
}

/// The state as plain values.
pub ghost struct PushView {
    pub open: bool,
    pub branch: Seq<char>,
    pub target: Seq<char>,
    pub base_ref: Seq<char>,
    pub ahead: bool,
    pub commits: Seq<(Seq<char>, Seq<char>)>,
    pub files: Seq<(PathView, GitState)>,
    pub collapsed: Set<PathView>,
    pub selected: Option<PathView>,
    pub commit_sel: Option<Seq<char>>,
    pub tags: bool,
}

impl View for PushDialog {
    type V = PushView;

    open spec fn view(&self) -> PushView {
        PushView {
            open: self.open,
            branch: self.branch@,
            target: self.target@,
            base_ref: self.base_ref@,
            ahead: self.ahead,
            commits: pair_texts(self.commits@),
            files: change_views(self.files@),
            collapsed: self.collapsed@,
            selected: opt_path(self.selected),
            commit_sel: opt_text(self.commit_sel),
            tags: self.tags,
        }
    }
}

/// Where a branch is pushed to: its upstream, else the branch of that name at the origin.
pub open spec fn push_target_of(branch: Seq<char>, upstream: Option<Seq<char>>) -> Seq<char> {
    match upstream {
        Some(u) if trimmed(u).len() > 0 => trimmed(u),
        _ => "origin/"@ + branch,
    }
}

/// Where a branch is pushed to.
pub fn push_target(branch: &str, upstream: Option<&str>) -> (r: String)
    ensures
        r@ == push_target_of(branch@, opt_str(upstream)),
{
    if let Some(u) = upstream {
        let t = trim(u);
        if !t.as_str().is_empty() {
            return t;
        }
    }
    cat("origin/", branch)
}

/// Whose files the dialog shows: those of one commit, or of the whole range.
#[derive(Debug)]
pub enum PushFiles {
    OfCommit(String),
    OfRange(String),
}

/// The diff of a file in the push dialog: of the selected commit alone, or from where the
/// branch left its base.
pub open spec fn push_diff(p: PushView, path: PathView, base_rev: Seq<char>) -> Option<DiffRequestView> {
    let listed = change_paths(p.files);
    if listed.len() == 0 {
        None
    } else {
        let files = if listed.contains(path) {
            listed
        } else {
            listed.push(path)
        };
        Some(
            DiffRequestView {
                files,
                idx: first_place(files, path),
                old: Some(
                    match p.commit_sel {
                        Some(sha) => sha + "^"@,
                        None => base_rev,
                    },
                ),
                new_rev: p.commit_sel,
                pr_mode: false,
                filter_text: Seq::empty(),
                view: MarkFilter::All,
            },
        )
    }
}

/// The selected commit after a click on one, or on the branch.
pub open spec fn commit_after_click(sel: Option<Seq<char>>, sha: Option<Seq<char>>) -> Option<Seq<char>> {
    if sel == sha {
        None
    } else {
        sha
    }
}

/// What a key does in the push dialog.
#[derive(Debug)]
pub enum PushKey {
    Close,
    Diff(FilePath),
    Push,
    Nothing,
}

/// The command that pushes, with tags if asked to.
pub open spec fn push_command(tags: bool) -> Seq<char> {
    if tags {
        "git push --tags && git push -u origin HEAD"@
    } else {
        "git push -u origin HEAD"@
    }
}

fn copy_opt_text(o: &Option<String>) -> (r: Option<String>)
    ensures
        opt_text(r) == opt_text(*o),
{
    match o {
        Some(s) => Some(s.clone()),
        None => None,
    }
}

fn same_opt_text(a: &Option<String>, b: &Option<String>) -> (r: bool)
    ensures
        r == (opt_text(*a) == opt_text(*b)),
{
    match a {
        Some(x) => match b {
            Some(y) => same(x.as_str(), y.as_str()),
            None => false,
        },
        None => b.is_none(),
    }
}

impl PushDialog {
    /// The set holds no path twice.
    pub open spec fn wf(&self) -> bool {
        self.collapsed.wf()
    }

    /// A closed dialog.
    pub fn new() -> (r: PushDialog)
        ensures
            r.wf(),
            r@ == (PushView {
                open: false,
                branch: Seq::empty(),
                target: Seq::empty(),
                base_ref: Seq::empty(),
                ahead: false,
                commits: Seq::empty(),
                files: Seq::empty(),
                collapsed: Set::empty(),
                selected: None,
                commit_sel: None,
                tags: false,
            }),
    {
        let r = PushDialog {
            open: false,
            branch: String::new(),
            target: String::new(),
            base_ref: String::new(),
            ahead: false,
            commits: Vec::new(),
            files: Vec::new(),
            collapsed: PathSet::new(),
            selected: None,
            commit_sel: None,
            tags: false,
        };
        assert(change_views(r.files@) =~= Seq::<(PathView, GitState)>::empty());
        assert(pair_texts(r.commits@) =~= Seq::<(Seq<char>, Seq<char>)>::empty());
        r
    }

    /// A click on a file selects it. Says whether its diff is to be shown: the click was a double one.
    pub fn click_file(&mut self, p: &FilePath, clicks: usize) -> (r: bool)
        requires
            old(self).wf(),
        ensures
            final(self).wf(),
            final(self)@ == (PushView { selected: Some(p@), ..old(self)@ }),
            r == (clicks >= 2),
    {
        self.selected = Some(p.copy());
        clicks >= 2
    }

    /// Opens the dialog on what would be pushed.
    pub fn show(&mut self, branch: &str, target: &str, base_ref: &str, commits: Vec<(String, String)>, files: Vec<Change>)
        ensures
            final(self).wf(),
            final(self)@ == (PushView {
                open: true,
                branch: branch@,
                target: target@,
                base_ref: base_ref@,
                commits: pair_texts(commits@),
                files: change_views(files@),
                collapsed: Set::empty(),
                selected: None,
                commit_sel: None,
                ..old(self)@
            }),
    {
        self.open = true;
        self.branch = branch.to_owned();
        self.target = target.to_owned();
        self.base_ref = base_ref.to_owned();
        self.commits = commits;
        self.files = files;
        self.collapsed = PathSet::new();
        self.selected = None;
        self.commit_sel = None;
    }

    /// A click on a commit, or on the branch: that commit alone is shown, or all where it was
    /// shown already. Says whose files are to be read.
    pub fn select_commit(&mut self, sha: Option<String>) -> (r: PushFiles)
        ensures
            old(self).wf() ==> final(self).wf(),
            ({
                let sel = commit_after_click(old(self)@.commit_sel, opt_text(sha));
                &&& final(self)@ == (PushView { commit_sel: sel, selected: None, ..old(self)@ })
                &&& match sel {
                    Some(s) => r is OfCommit && r->OfCommit_0@ == s,
                    None => r is OfRange && r->OfRange_0@ == old(self)@.base_ref + "..HEAD"@,
                }
            }),
    {
        self.commit_sel = if same_opt_text(&self.commit_sel, &sha) {
            None
        } else {
            sha
        };
        self.selected = None;
        match &self.commit_sel {
            Some(s) => PushFiles::OfCommit(s.clone()),
            None => PushFiles::OfRange(two_dot(self.base_ref.as_str())),
        }
    }

    /// The diff of a file of the dialog, given where the branch left its base.
    pub fn open_diff(&self, path: &FilePath, base_rev: &str) -> (r: Option<DiffRequest>)
        ensures
            opt_request(r) == push_diff(self@, path@, base_rev@),
    {
        let mut files = paths_of(&self.files);
        let ghost listed = path_views(files@);
        if files.len() == 0 {
            assert(listed.len() == 0);
            return None;
        }
        let idx: usize = match path_position(&files, path) {
            Some(i) => {
                proof {
                    assert(listed.contains(path@));
                    lemma_first_place(listed, path@, i as int);
                }
                i
            },
            None => {
                let n: usize = files.len();
                let c = path.copy();
                proof {
                    lemma_path_views_push(files@, c);
                    let w = listed.push(path@);
                    assert forall|j: int| 0 <= j < n implies w[j] != path@ by {
                        assert(w[j] == listed[j]);
                        assert(listed.contains(listed[j]));
                    }
                    lemma_first_place(w, path@, n as int);
                }
                files.push(c);
                n
            },
        };
        let old = match &self.commit_sel {
            Some(sha) => cat(sha.as_str(), "^"),
            None => base_rev.to_owned(),
        };
        let filter_text = String::new();
        assert(filter_text@ =~= Seq::<char>::empty());
        Some(
            DiffRequest {
                files,
                idx,
                old: Some(old),
                new_rev: copy_opt_text(&self.commit_sel),
                pr_mode: false,
                filter_text,
                view: MarkFilter::All,
            },
        )
    }

    /// Closes the dialog and gives the command that pushes. A branch without an upstream gets
    /// one.
    pub fn do_push(&mut self) -> (r: &'static str)
        ensures
            r@ == push_command(old(self)@.tags),
            final(self)@ == (PushView { open: false, ..old(self)@ }),
            old(self).wf() ==> final(self).wf(),
    {
        self.open = false;
        if self.tags {
            "git push --tags && git push -u origin HEAD"
        } else {
            "git push -u origin HEAD"
        }
    }

    /// A key in the dialog: escape closes it; enter shows the selected file's diff, or pushes
    /// where none is selected.
    pub fn push_key(&self, k: &Keystroke) -> (r: PushKey)
        ensures
            if k@.key == "escape"@ {
                r is Close
            } else if k@.key == "enter"@ && !k@.platform {
                match self@.selected {
                    Some(p) => r is Diff && r->Diff_0@ == p,
                    None => r is Push,
                }
            } else {
                r is Nothing
            },
    {
        if k.is("escape") {
            PushKey::Close
        } else if k.is("enter") && !k.platform {
            match &self.selected {
                Some(p) => PushKey::Diff(p.copy()),
                None => PushKey::Push,
            }
        } else {
            PushKey::Nothing
        }
    }

    /// The rows of the changed files.
    pub fn rows(&self, root: &FilePath) -> (r: Vec<CommitRow>)
        ensures
            ({
                let w = RowWorld {
                    root: root@,
                    files: self@.files,
                    marked: Set::empty(),
                    collapsed: self@.collapsed,
                    selected: self@.selected,
                    active: None,
                    review: false,
                };
                commit_row_views(r@) == change_rows(root@, self@.files, 0, self@.collapsed).map_values(
                    |x: RowView| look(w, x),
                )
            }),
    {
        let none = PathSet::new();
        look_rows(root, &self.files, 0, &none, &self.collapsed, &self.selected, &None, false)
    }

    /// The name of the target as it is shown.
    pub fn target_name(&self) -> (r: String)
        ensures
            r@ == bare_branch(self@.target),
    {
        strip_origin(self.target.as_str())
    }

    /// The title of the dialog.
    pub fn title(&self) -> (r: String)
        ensures
            r@ == "Push Commits to "@ + bare_branch(self@.target),
    {
        let t = strip_origin(self.target.as_str());
        cat("Push Commits to ", t.as_str())
    }

    /// How many files there are.
    pub fn count_label(&self) -> (r: String)
        ensures
            r@ == dec(self@.files.len()) + " files"@,
    {
        let d = decimal(self.files.len() as u64);
        assert(self@.files.len() == self.files@.len());
        cat(d.as_str(), " files")
    }
}

/// A second click on a commit shows the whole range again.
pub proof fn clicking_a_commit_twice_clears_it(sel: Option<Seq<char>>, sha: Seq<char>)
    requires
        sel != Some(sha),
    ensures
        commit_after_click(commit_after_click(sel, Some(sha)), Some(sha)) is None,
{
}

/// How a rejected push is made good.
#[derive(Clone, Copy, Debug, PartialEq, Eq, Structural)]
pub enum Integrate {
    Rebase,
    Merge,
}

/// The command that takes over what the remote has and pushes again.
pub fn integrate_command(how: Integrate) -> (r: &'static str)
    ensures
        r@ == match how {
            Integrate::Rebase => "git pull --rebase && git push -u origin HEAD"@,
            Integrate::Merge => "git pull --no-rebase && git push -u origin HEAD"@,
        },
{
    match how {
        Integrate::Rebase => "git pull --rebase && git push -u origin HEAD",
        Integrate::Merge => "git pull --no-rebase && git push -u origin HEAD",
    }
}

// ── merge conflicts ─────────────────────────────────────────────────────────

/// The list of files in conflict.
#[derive(Debug)]
pub struct ConflictDialog {
    pub open: bool,
    pub files: Vec<FilePath>,
    pub into: String,
    pub from: String,
}

/// The state as plain values.
pub ghost struct ConflictView {
    pub open: bool,
    pub files: Seq<PathView>,
    pub into: Seq<char>,
    pub from: Seq<char>,
}

impl View for ConflictDialog {
    type V = ConflictView;

    open spec fn view(&self) -> ConflictView {
        ConflictView {
            open: self.open,
            files: path_views(self.files@),
            into: self.into@,
            from: self.from@,
        }
    }
}

/// How a file in conflict is named: its name, and the directory it stands in.
pub open spec fn conflict_dir(rel: Seq<char>, name: Seq<char>) -> Seq<char> {
    match before_suffix(rel, name) {
        Some(d) => without_trailing(d, '/'),
        None => Seq::empty(),
    }
}

impl ConflictDialog {
    /// A closed dialog.
    pub fn new() -> (r: ConflictDialog)
        ensures
            r@ == (ConflictView {
                open: false,
                files: Seq::empty(),
                into: Seq::empty(),
                from: Seq::empty(),
            }),
    {
        let r = ConflictDialog {
            open: false,
            files: Vec::new(),
            into: String::new(),
            from: String::new(),
        };
        assert(path_views(r.files@) =~= Seq::<PathView>::empty());
        r
    }

    /// Opens the dialog where files are in conflict; says whether it did.
    pub fn show(&mut self, files: Vec<FilePath>, into: String, from: String) -> (r: bool)
        ensures
            r == (files@.len() > 0),
            final(self)@ == if r {
                ConflictView { open: true, files: path_views(files@), into: into@, from: from@ }
            } else {
                old(self)@
            },
    {
        if files.len() == 0 {
            return false;
        }
        self.files = files;
        self.into = into;
        self.from = from;
        self.open = true;
        true
    }

    /// Takes the files that are still in conflict; closes, and says so, where none is.
    pub fn reload(&mut self, files: Vec<FilePath>) -> (r: bool)
        ensures
            r == (files@.len() == 0),
            final(self)@ == (ConflictView {
                files: path_views(files@),
                open: old(self)@.open && !r,
                ..old(self)@
            }),
    {
        self.files = files;
        if self.files.len() == 0 {
            self.open = false;
            true
        } else {
            false
        }
    }

    /// A key in the dialog: escape closes it. Says whether it did.
    pub fn mc_key(&mut self, k: &Keystroke) -> (r: bool)
        ensures
            r == (k@.key == "escape"@),
            *final(self) == (ConflictDialog { open: old(self).open && !r, ..*old(self) }),
    {
        if k.is("escape") {
            self.open = false;
            true
        } else {
            false
        }
    }

    /// The title of the dialog.
    pub fn title(&self) -> (r: String)
        ensures
            r@ == "Conflicts — merging "@ + self@.from + (" into "@ + self@.into),
    {
        let t = cat(" into ", self.into.as_str());
        cat3("Conflicts — merging ", self.from.as_str(), t.as_str())
    }
}

/// The name and the directory by which a file in conflict is shown.
pub fn conflict_label(root: &FilePath, p: &FilePath) -> (r: (String, String))
    ensures
        r.0@ == match name_of(p@) {
            Some(n) => n,
            None => rel_text(root@, p@),
        },
        r.1@ == conflict_dir(rel_text(root@, p@), r.0@),
{
    let rel = root.rel(p);
    let name = match p.file_name() {
        Some(n) => n,
        None => rel.clone(),
    };
    let dir = match strip_suffix(rel.as_str(), name.as_str()) {
        Some(d) => trim_end_char(d.as_str(), '/'),
        None => {
            let e = String::new();
            assert(e@ =~= Seq::<char>::empty());
            e
        },
    };
    (name, dir)
}

/// The option by which git takes one side of a conflict.
pub fn conflict_side(theirs: bool) -> (r: &'static str)
    ensures
        r@ == if theirs {
            "--theirs"@
        } else {
            "--ours"@
        },
{
    if theirs {
        "--theirs"
    } else {
        "--ours"
    }
}

// ── what a push does ────────────────────────────────────────────────────────

/// A push sets the upstream, and tags go first where they are wanted: the command with tags ends in
/// the one without.
pub proof fn tags_are_pushed_first(branch: Seq<char>, up: Seq<char>)
    ensures
        push_command(false) == "git push -u origin HEAD"@,
        push_command(true) == "git push --tags && "@ + push_command(false),
        trimmed(up).len() > 0 ==> push_target_of(branch, Some(up)) == trimmed(up),
        push_target_of(branch, None) == "origin/"@ + branch,
        trimmed(up).len() == 0 ==> push_target_of(branch, Some(up)) == "origin/"@ + branch,
{
    reveal_strlit("git push --tags && git push -u origin HEAD");
    reveal_strlit("git push --tags && ");
    reveal_strlit("git push -u origin HEAD");
    assert(push_command(true) =~= "git push --tags && "@ + push_command(false));
}

/// A click on a commit selects it, a second click on it, or one on the branch, selects none.
pub proof fn a_click_selects_a_commit(sel: Option<Seq<char>>, sha: Seq<char>)
    ensures
        sel != Some(sha) ==> commit_after_click(sel, Some(sha)) == Some(sha),
        commit_after_click(Some(sha), Some(sha)) is None,
        commit_after_click(sel, None) is None,
{
}

/// The diff of a file shows that file among the listed ones: of a selected commit what that commit
/// changed, else what changed since the base.
pub proof fn the_diff_shows_the_file(p: PushView, path: PathView, base: Seq<char>)
    requires
        p.files.len() > 0,
    ensures
        push_diff(p, path, base) is Some,
        ({
            let d = push_diff(p, path, base)->0;
            &&& d.idx < d.files.len() && d.files[d.idx as int] == path
            &&& p.commit_sel is None ==> d.old == Some(base) && d.new_rev is None
            &&& p.commit_sel is Some ==> d.old == Some(p.commit_sel->0 + "^"@) && d.new_rev == p.commit_sel
            &&& change_paths(p.files).contains(path) ==> d.files == change_paths(p.files)
            &&& !d.pr_mode
        }),
{
    let listed = change_paths(p.files);
    let d = push_diff(p, path, base)->0;
    if listed.contains(path) {
        lemma_place_found(listed, path);
    } else {
        let files = listed.push(path);
        assert(files[files.len() - 1] == path);
        assert(files.contains(path));
        lemma_place_found(files, path);
    }
}

proof fn lemma_place_found(v: Seq<PathView>, p: PathView)
    requires
        v.contains(p),
    ensures
        0 <= first_place(v, p) < v.len(),
        v[first_place(v, p)] == p,
    decreases v.len(),
{
    let i = choose|i: int| 0 <= i < v.len() && v[i] == p;
    if v[0] != p {
        let w = v.drop_first();
        assert(w[i - 1] == p);
        assert(w.contains(p));
        lemma_place_found(w, p);
        assert(w[first_place(w, p)] == v[first_place(w, p) + 1]);
    }
}

/// A file in conflict is named by the directory before its name; one at the root has none.
pub proof fn conflicts_name_their_directory(d: Seq<char>, name: Seq<char>)
    requires
        d.len() > 0 ==> d.last() != '/',
    ensures
        conflict_dir(d + seq!['/'] + name, name) == d,
        conflict_dir(name, name) == Seq::<char>::empty(),
{
    let s = d + seq!['/'] + name;
    let h = d + seq!['/'];
    assert(s.skip(s.len() - name.len()) =~= name);
    assert(s.subrange(s.len() - name.len(), s.len() as int) =~= name);
    assert(s.take(s.len() - name.len()) =~= h);
    assert(h.drop_last() =~= d);
    assert(without_trailing(h, '/') == without_trailing(d, '/'));
    assert(without_trailing(d, '/') == d);
    assert(name.skip(0) =~= name);
    assert(name.subrange(0, name.len() as int) =~= name);
    assert(name.take(0) =~= Seq::<char>::empty());
}

} // verus!
