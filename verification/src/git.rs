//! What git and its companions print, read into plain values, and the choices that are
//! made from it.
use vstd::prelude::*;
use crate::order::{Ranked, can_sort, has_text, lemma_sorted_map, sort, sorted, sorted_by, sorting_by_keeps_members, sorting_by_orders};
use crate::path::{FilePath, PathSet, PathView, joined_path, last_char, lemma_path_views_push, path_less, path_of, path_order_is_total, path_order_is_transitive, path_views};
use crate::search::{lemma_next_at, next_at};
use crate::text::{after_prefix, before_suffix, begins, byte_len, cat, cat3, chars_of, cut, cutting_undoes_joining, dec, decimal, ends_with, filter_map, find_from, finishes, first_char, is_space, joined, lemma_filter_map_ends, lemma_filter_map_step, lemma_first_char, lemma_pieces_nonempty, lemma_texts_push, lemma_utf8_at_least, line_seq, lines, mapping_keeps_members, matches_at, number_to, occurs, occurs_at, opt_text, parse_number, pieces, reading_lines_undoes_writing, same, split, split_once, split_undoes_join, starts_with, string_of, strip_prefix, strip_suffix, texts, trim, trim_end_char, trimmed, trimmed_start, trimming_takes_blanks_only, utf8_len, without_trailing};

verus! {

/// The state of a file in the working tree or in a range of commits.
#[derive(Clone, Copy, Debug, PartialEq, Eq, Structural)]
pub enum GitState {
    New,
    Modified,
    Deleted,
}

/// A changed file.
#[derive(Debug)]
pub struct Change {
    pub path: FilePath,
    pub state: GitState,
}

impl View for Change {
    type V = (PathView, GitState);

    open spec fn view(&self) -> (PathView, GitState) {
        (self.path@, self.state)
    }
}

/// What a list of changes says.
pub open spec fn change_views(v: Seq<Change>) -> Seq<(PathView, GitState)> {
    Seq::new(v.len(), |i: int| v[i]@)
}

/// Adding a change adds what it says.
pub proof fn lemma_change_views_push(v: Seq<Change>, c: Change)
    ensures
        change_views(v.push(c)) == change_views(v).push(c@),
{
    assert(change_views(v.push(c)) =~= change_views(v).push(c@));
}

/// The paths of a list of changes.
pub open spec fn change_paths(v: Seq<(PathView, GitState)>) -> Seq<PathView> {
    v.map_values(|c: (PathView, GitState)| c.0)
}

impl Change {
    /// A copy of the change.
    pub fn copy(&self) -> (r: Change)
        ensures
            r@ == self@,
    {
        Change { path: self.path.copy(), state: self.state }
    }
}

/// A copy of a list of changes.
pub fn copy_changes(v: &Vec<Change>) -> (r: Vec<Change>)
    ensures
        change_views(r@) == change_views(v@),
{
    let mut out: Vec<Change> = Vec::new();
    let mut i: usize = 0;
    while i < v.len()
        invariant
            i <= v.len(),
            out.len() == i,
            forall|j: int| 0 <= j < i ==> out@[j]@ == v@[j]@,
        decreases v.len() - i,
    {
        out.push(v[i].copy());
        i = i + 1;
    }
    assert(change_views(out@) =~= change_views(v@));
    out
}

/// The paths of a list of changes.
pub fn paths_of(v: &Vec<Change>) -> (r: Vec<FilePath>)
    ensures
        path_views(r@) == change_paths(change_views(v@)),
{
    let mut out: Vec<FilePath> = Vec::new();
    let mut i: usize = 0;
    while i < v.len()
        invariant
            i <= v.len(),
            out.len() == i,
            forall|j: int| 0 <= j < i ==> out@[j]@ == v@[j]@.0,
        decreases v.len() - i,
    {
        out.push(v[i].path.copy());
        i = i + 1;
    }
    assert(path_views(out@) =~= change_paths(change_views(v@)));
    out
}

impl Ranked for Change {
    open spec fn before(&self, other: &Self) -> bool {
        path_less(self.path@, other.path@)
    }

    fn comes_before(&self, other: &Self) -> (r: bool) {
        self.path.less(&other.path)
    }

    proof fn order_is_strict(a: &Self, b: &Self) {
        path_order_is_total(a.path@, b.path@);
    }

    proof fn order_is_weak(a: &Self, b: &Self, c: &Self) {
        if a.before(c) {
            path_order_is_total(a.path@, b.path@);
            path_order_is_total(b.path@, c.path@);
            if b.before(a) {
                path_order_is_transitive(b.path@, a.path@, c.path@);
            }
        }
    }
}

/// The changes in the order of their paths.
pub open spec fn by_path(v: Seq<(PathView, GitState)>) -> Seq<(PathView, GitState)> {
    sorted_by(v, |a: (PathView, GitState), b: (PathView, GitState)| path_less(a.0, b.0))
}

/// Puts changes in the order of their paths.
pub fn sort_changes(v: Vec<Change>) -> (r: Vec<Change>)
    ensures
        change_views(r@) == by_path(change_views(v@)),
{
    proof {
        let f = |c: Change| c@;
        let less = |a: (PathView, GitState), b: (PathView, GitState)| path_less(a.0, b.0);
        assert forall|a: Change, b: Change| #[trigger] a.before(&b) == less(f(a), f(b)) by {
        }
        lemma_sorted_map(v@, f, less);
        assert(change_views(v@) =~= v@.map_values(f));
        assert(change_views(sorted(v@)) =~= sorted(v@).map_values(f));
    }
    sort(v)
}

// ── trimmed output ──────────────────────────────────────────────────────────

/// A text without white space round it, unless nothing is left.
pub open spec fn content_of(s: Seq<char>) -> Option<Seq<char>> {
    if trimmed(s).len() == 0 {
        None
    } else {
        Some(trimmed(s))
    }
}

/// Trims a text; None where nothing is left.
pub fn trimmed_content(s: &str) -> (r: Option<String>)
    ensures
        opt_text(r) == content_of(s@),
{
    let t = trim(s);
    if t.as_str().is_empty() {
        None
    } else {
        Some(t)
    }
}

/// The lines that hold something, trimmed.
pub open spec fn content_lines(s: Seq<char>) -> Seq<Seq<char>> {
    filter_map(line_seq(s), |l: Seq<char>| content_of(l))
}

/// The lines of a text that hold something, trimmed: names of branches, titles of
/// milestones.
pub fn trimmed_lines(s: &str) -> (r: Vec<String>)
    ensures
        texts(r@) == content_lines(s@),
{
    let ls = lines(s);
    let ghost all = texts(ls@);
    let ghost f = |l: Seq<char>| content_of(l);
    let mut out: Vec<String> = Vec::new();
    let mut i: usize = 0;
    proof {
        lemma_filter_map_ends(all, f);
        assert(texts(out@) =~= Seq::<Seq<char>>::empty());
    }
    while i < ls.len()
        invariant
            i <= ls.len(),
            all == texts(ls@),
            f == (|l: Seq<char>| content_of(l)),
            texts(out@) == filter_map(all.take(i as int), f),
        decreases ls.len() - i,
    {
        proof {
            lemma_filter_map_step(all, f, i as int);
        }
        match trimmed_content(ls[i].as_str()) {
            Some(t) => {
                proof {
                    lemma_texts_push(out@, t);
                }
                out.push(t);
            },
            None => {},
        }
        i = i + 1;
    }
    out
}

/// The paths that the lines of a text name, taken from the directory `root`.
pub open spec fn listed_paths(root: PathView, s: Seq<char>) -> Seq<PathView> {
    content_lines(s).map_values(|l: Seq<char>| joined_path(root, path_of(l)))
}

/// The paths that a command listed, one to a line: files in conflict.
pub fn paths_in_lines(root: &FilePath, s: &str) -> (r: Vec<FilePath>)
    ensures
        path_views(r@) == listed_paths(root@, s@),
{
    let ls = trimmed_lines(s);
    let ghost want = listed_paths(root@, s@);
    let mut out: Vec<FilePath> = Vec::new();
    let mut i: usize = 0;
    while i < ls.len()
        invariant
            i <= ls.len(),
            texts(ls@) == content_lines(s@),
            want == listed_paths(root@, s@),
            out.len() == i,
            forall|j: int| 0 <= j < i ==> (#[trigger] out@[j])@ == want[j],
        decreases ls.len() - i,
    {
        let p = root.join_text(ls[i].as_str());
        assert(texts(ls@)[i as int] == ls@[i as int]@);
        out.push(p);
        i = i + 1;
    }
    assert(texts(ls@).len() == ls.len());
    assert(path_views(out@) =~= want);
    out
}

/// The same paths as a set: the files that were viewed.
pub fn path_set_in_lines(root: &FilePath, s: &str) -> (r: PathSet)
    ensures
        r.wf(),
        r@ == listed_paths(root@, s@).to_set(),
{
    let v = paths_in_lines(root, s);
    path_set(v)
}

/// The set of a list of paths.
pub fn path_set(v: Vec<FilePath>) -> (r: PathSet)
    ensures
        r.wf(),
        r@ == path_views(v@).to_set(),
{
    let ghost all = path_views(v@);
    let mut out = PathSet::new();
    let mut i: usize = 0;
    assert(all.take(0) =~= Seq::<PathView>::empty());
    assert(out@ =~= all.take(0).to_set());
    while i < v.len()
        invariant
            i <= v.len(),
            all == path_views(v@),
            out.wf(),
            out@ == all.take(i as int).to_set(),
        decreases v.len() - i,
    {
        let _ = out.insert(v[i].copy());
        proof {
            let a = all.take(i as int);
            let b = all.take(i + 1);
            assert forall|x: PathView| b.contains(x) <==> a.contains(x) || x == all[i as int] by {
                if b.contains(x) {
                    let k = choose|k: int| 0 <= k < b.len() && b[k] == x;
                    if k < i {
                        assert(a[k] == x);
                    }
                }
                if a.contains(x) {
                    let k = choose|k: int| 0 <= k < a.len() && a[k] == x;
                    assert(b[k] == x);
                }
                assert(b[i as int] == all[i as int]);
            }
            assert(out@ =~= b.to_set());
        }
        i = i + 1;
    }
    assert(all.take(all.len() as int) =~= all);
    out
}

/// The path of an ignored entry: without the slashes behind it.
pub open spec fn ignored_entry(root: PathView, l: Seq<char>) -> Option<PathView> {
    let rel = without_trailing(trimmed(l), '/');
    if rel.len() == 0 {
        None
    } else {
        Some(joined_path(root, path_of(rel)))
    }
}

/// The ignored paths that git listed; whole directories stand for what is in them.
pub fn ignored_paths(root: &FilePath, s: &str) -> (r: PathSet)
    ensures
        r.wf(),
        r@ == filter_map(line_seq(s@), |l: Seq<char>| ignored_entry(root@, l)).to_set(),
{
    let ls = lines(s);
    let ghost all = texts(ls@);
    let ghost f = |l: Seq<char>| ignored_entry(root@, l);
    let mut out: Vec<FilePath> = Vec::new();
    let mut i: usize = 0;
    proof {
        lemma_filter_map_ends(all, f);
        assert(path_views(out@) =~= Seq::<PathView>::empty());
    }
    while i < ls.len()
        invariant
            i <= ls.len(),
            all == texts(ls@),
            f == (|l: Seq<char>| ignored_entry(root@, l)),
            path_views(out@) == filter_map(all.take(i as int), f),
        decreases ls.len() - i,
    {
        proof {
            lemma_filter_map_step(all, f, i as int);
        }
        let t = trim(ls[i].as_str());
        let rel = trim_end_char(t.as_str(), '/');
        if !rel.as_str().is_empty() {
            let p = root.join_text(rel.as_str());
            proof {
                lemma_path_views_push(out@, p);
            }
            out.push(p);
        }
        i = i + 1;
    }
    path_set(out)
}

// ── changed files ───────────────────────────────────────────────────────────

/// The state that a status column names: added, deleted, or else modified.
pub open spec fn state_of_status(status: Seq<char>) -> GitState {
    if status.len() > 0 && status[0] == 'A' {
        GitState::New
    } else if status.len() > 0 && status[0] == 'D' {
        GitState::Deleted
    } else {
        GitState::Modified
    }
}

/// One line of a name-status list: the status, and, behind tabs, the path; the last path
/// where there are two (a rename).
pub open spec fn status_line(root: PathView, l: Seq<char>) -> Option<(PathView, GitState)> {
    let p = pieces(l, '\t');
    if p.len() < 2 || trimmed(p.last()).len() == 0 {
        None
    } else {
        Some((joined_path(root, path_of(trimmed(p.last()))), state_of_status(p[0])))
    }
}

/// The changed files of a name-status list, in the order of their paths.
pub open spec fn name_status(root: PathView, s: Seq<char>) -> Seq<(PathView, GitState)> {
    by_path(filter_map(line_seq(s), |l: Seq<char>| status_line(root, l)))
}

/// Reads a name-status list: the files of a commit, of a range or of a pull request.
pub fn parse_name_status(root: &FilePath, s: &str) -> (r: Vec<Change>)
    ensures
        change_views(r@) == name_status(root@, s@),
{
    let ls = lines(s);
    let ghost all = texts(ls@);
    let ghost f = |l: Seq<char>| status_line(root@, l);
    let mut out: Vec<Change> = Vec::new();
    let mut i: usize = 0;
    proof {
        lemma_filter_map_ends(all, f);
        assert(change_views(out@) =~= Seq::<(PathView, GitState)>::empty());
    }
    while i < ls.len()
        invariant
            i <= ls.len(),
            all == texts(ls@),
            f == (|l: Seq<char>| status_line(root@, l)),
            change_views(out@) == filter_map(all.take(i as int), f),
        decreases ls.len() - i,
    {
        let p = split(ls[i].as_str(), '\t');
        proof {
            lemma_filter_map_step(all, f, i as int);
            lemma_pieces_nonempty(all[i as int], '\t');
            assert(texts(p@).len() == p.len());
            assert(texts(p@)[0] == p@[0]@);
            assert(texts(p@).last() == p@[p@.len() - 1]@);
        }
        if p.len() >= 2 {
            let t = trim(p[p.len() - 1].as_str());
            if !t.as_str().is_empty() {
                let st = chars_of(p[0].as_str());
                let state = if st.len() > 0 && st[0] == 'A' {
                    GitState::New
                } else if st.len() > 0 && st[0] == 'D' {
                    GitState::Deleted
                } else {
                    GitState::Modified
                };
                let c = Change { path: root.join_text(t.as_str()), state };
                proof {
                    lemma_change_views_push(out@, c);
                }
                out.push(c);
            }
        }
        i = i + 1;
    }
    sort_changes(out)
}

/// The states of the files in the working tree, each path once.
#[derive(Debug)]
pub struct GitStatus {
    pub items: Vec<Change>,
}

/// The changes as a map; of two for one path the later counts.
pub open spec fn change_map(v: Seq<(PathView, GitState)>) -> Map<PathView, GitState>
    decreases v.len(),
{
    if v.len() == 0 {
        Map::empty()
    } else {
        change_map(v.drop_last()).insert(v.last().0, v.last().1)
    }
}

impl View for GitStatus {
    type V = Map<PathView, GitState>;

    open spec fn view(&self) -> Map<PathView, GitState> {
        change_map(change_views(self.items@))
    }
}

proof fn lemma_change_map(v: Seq<(PathView, GitState)>)
    requires
        change_paths(v).no_duplicates(),
    ensures
        forall|p: PathView| #[trigger] change_map(v).dom().contains(p) <==> change_paths(v).contains(p),
        forall|i: int| 0 <= i < v.len() ==> change_map(v)[(#[trigger] v[i]).0] == v[i].1,
        change_map(v).dom().finite(),
        change_map(v).dom().len() == v.len(),
    decreases v.len(),
{
    let w = change_paths(v);
    if v.len() > 0 {
        let t = v.drop_last();
        assert(change_paths(t) =~= w.drop_last());
        assert(change_paths(t).no_duplicates());
        lemma_change_map(t);
        assert(w.last() == v.last().0);
        assert forall|p: PathView| #[trigger] change_map(v).dom().contains(p) <==> w.contains(p) by {
            if w.contains(p) {
                let k = choose|k: int| 0 <= k < w.len() && w[k] == p;
                if k < t.len() {
                    assert(change_paths(t)[k] == p);
                }
            }
            if change_paths(t).contains(p) {
                let k = choose|k: int| 0 <= k < t.len() && change_paths(t)[k] == p;
                assert(w[k] == p);
            }
            assert(w[v.len() - 1] == v.last().0);
        }
        assert(!change_paths(t).contains(v.last().0)) by {
            if change_paths(t).contains(v.last().0) {
                let k = choose|k: int| 0 <= k < t.len() && change_paths(t)[k] == v.last().0;
                assert(w[k] == w[v.len() - 1]);
            }
        }
        assert forall|i: int| 0 <= i < v.len() implies change_map(v)[(#[trigger] v[i]).0] == v[i].1 by {
            if i < t.len() {
                assert(t[i] == v[i]);
                assert(w[i] != w[v.len() - 1]);
            }
        }
    }
}

impl GitStatus {
    /// No path is held twice.
    pub open spec fn wf(&self) -> bool {
        change_paths(change_views(self.items@)).no_duplicates()
    }

    /// Nothing has changed.
    pub fn new() -> (r: GitStatus)
        ensures
            r.wf(),
            r@ == Map::<PathView, GitState>::empty(),
    {
        let r = GitStatus { items: Vec::new() };
        assert(change_views(r.items@) =~= Seq::<(PathView, GitState)>::empty());
        r
    }

    /// The state of a file.
    pub fn get(&self, p: &FilePath) -> (r: Option<GitState>)
        requires
            self.wf(),
        ensures
            match r {
                Some(s) => self@.dom().contains(p@) && self@[p@] == s,
                None => !self@.dom().contains(p@),
            },
    {
        let ghost v = change_views(self.items@);
        proof {
            lemma_change_map(v);
        }
        let mut i: usize = 0;
        while i < self.items.len()
            invariant
                i <= self.items.len(),
                v == change_views(self.items@),
                self@ == change_map(v),
                forall|p: PathView| #[trigger] change_map(v).dom().contains(p) <==> change_paths(
                    v,
                ).contains(p),
                forall|i: int| 0 <= i < v.len() ==> change_map(v)[(#[trigger] v[i]).0] == v[i].1,
                forall|j: int| 0 <= j < i ==> change_paths(v)[j] != p@,
            decreases self.items.len() - i,
        {
            if self.items[i].path.same(p) {
                assert(v[i as int].0 == p@);
                assert(change_paths(v)[i as int] == p@);
                return Some(self.items[i].state);
            }
            i = i + 1;
        }
        None
    }

    /// Sets the state of a file.
    pub fn insert(&mut self, c: Change)
        requires
            old(self).wf(),
        ensures
            final(self).wf(),
            final(self)@ == old(self)@.insert(c@.0, c@.1),
    {
        let ghost v = change_views(self.items@);
        proof {
            lemma_change_map(v);
        }
        let mut i: usize = 0;
        while i < self.items.len()
            invariant
                i <= self.items.len(),
                *self == *old(self),
                self.wf(),
                v == change_views(self.items@),
                forall|p: PathView| #[trigger] change_map(v).dom().contains(p) <==> change_paths(
                    v,
                ).contains(p),
                forall|i: int| 0 <= i < v.len() ==> change_map(v)[(#[trigger] v[i]).0] == v[i].1,
                forall|j: int| 0 <= j < i ==> change_paths(v)[j] != c@.0,
            decreases self.items.len() - i,
        {
            if self.items[i].path.same(&c.path) {
                self.items.set(i, c);
                proof {
                    let w = change_views(self.items@);
                    assert(w =~= v.update(i as int, c@));
                    assert(change_paths(w) =~= change_paths(v));
                    lemma_change_map(w);
                    let m = change_map(v).insert(c@.0, c@.1);
                    assert(change_paths(v)[i as int] == c@.0);
                    assert forall|p: PathView| change_map(w).dom().contains(p) <==> m.dom().contains(p) by {
                        assert(change_map(w).dom().contains(p) <==> change_paths(w).contains(p));
                        assert(change_map(v).dom().contains(p) <==> change_paths(v).contains(p));
                    }
                    assert forall|p: PathView| change_map(w).dom().contains(p) implies change_map(w)[p]
                        == m[p] by {
                        assert(change_paths(w).contains(p));
                        let k = choose|k: int| 0 <= k < w.len() && change_paths(w)[k] == p;
                        assert(w[k].0 == p);
                        assert(change_map(w)[w[k].0] == w[k].1);
                        if k != i {
                            assert(w[k] == v[k]);
                            assert(change_map(v)[v[k].0] == v[k].1);
                            assert(change_paths(w)[k] != change_paths(w)[i as int]);
                        }
                    }
                    assert(change_map(w) =~= m);
                }
                return;
            }
            i = i + 1;
        }
        proof {
            lemma_change_views_push(self.items@, c);
            let w = v.push(c@);
            assert(w.drop_last() =~= v);
            assert(change_paths(w) =~= change_paths(v).push(c@.0));
            assert forall|a: int, b: int| 0 <= a < b < w.len() implies change_paths(w)[a] != change_paths(
                w,
            )[b] by {
                if b < v.len() {
                    assert(change_paths(v)[a] != change_paths(v)[b]);
                }
            }
        }
        self.items.push(c);
    }

    /// The changed files in the order of their paths.
    pub fn sorted_changes(&self) -> (r: Vec<Change>)
        ensures
            change_views(r@) == by_path(change_views(self.items@)),
    {
        sort_changes(copy_changes(&self.items))
    }
}

/// How many entries the map has.
pub proof fn status_counts_paths(g: GitStatus)
    requires
        g.wf(),
    ensures
        g@.dom().finite(),
        g@.dom().len() == g.items@.len(),
{
    lemma_change_map(change_views(g.items@));
}

/// The last position at which `p` stands in `t`, at or before `k`; -1 where there is none.
pub open spec fn last_at(t: Seq<char>, p: Seq<char>, k: int) -> int
    decreases k + 1,
{
    if k < 0 {
        -1
    } else if occurs_at(t, p, k) {
        k
    } else {
        last_at(t, p, k - 1)
    }
}

/// What stands behind the last `p` in `t`; all of it where there is none.
pub open spec fn after_last(t: Seq<char>, p: Seq<char>) -> Seq<char> {
    let k = last_at(t, p, t.len() as int);
    if k < 0 {
        t
    } else {
        t.skip(k + p.len())
    }
}

/// What stands behind the last `p` in `t`.
pub fn behind_last(t: &str, p: &str) -> (r: String)
    ensures
        r@ == after_last(t@, p@),
{
    let v = chars_of(t);
    let q = chars_of(p);
    let mut k: usize = v.len();
    loop
        invariant
            k <= v.len(),
            v@ == t@,
            q@ == p@,
            last_at(t@, p@, t@.len() as int) == last_at(t@, p@, k as int),
        decreases k,
    {
        if matches_at(&v, &q, k) {
            assert(v@.subrange(k + q@.len(), v@.len() as int) =~= t@.skip(k + p@.len()));
            return string_of(&v, k + q.len(), v.len());
        }
        if k == 0 {
            assert(last_at(t@, p@, 0) == last_at(t@, p@, -1));
            return t.to_owned();
        }
        k = k - 1;
    }
}

/// Whether `c` takes one byte.
pub open spec fn is_ascii_char(c: char) -> bool {
    (c as u32) < 128
}

/// How many characters stand in the two bytes of the status columns: none where the second byte or
/// the third, the blank behind them, ends within a character.
pub open spec fn status_chars(l: Seq<char>) -> Option<int> {
    if l.len() >= 3 && is_ascii_char(l[0]) && is_ascii_char(l[1]) && is_ascii_char(l[2]) {
        Some(2)
    } else if l.len() >= 2 && 0x80 <= l[0] as u32 && (l[0] as u32) < 0x800 && is_ascii_char(l[1]) {
        Some(1)
    } else {
        None
    }
}

/// One line of `git status --porcelain`: two status columns, a blank, and the path; the
/// new path where it is a rename. A file that is gone in either column is deleted, else
/// one that is unknown or added is new.
pub open spec fn porcelain_line(root: PathView, l: Seq<char>) -> Option<(PathView, GitState)> {
    match status_chars(l) {
        Some(n) if utf8_len(l) >= 4 => {
            let xy = l.take(n);
            let file = after_last(trimmed(l.skip(n + 1)), " -> "@);
            let state = if xy.contains('D') {
                GitState::Deleted
            } else if xy.contains('?') || xy.contains('A') {
                GitState::New
            } else {
                GitState::Modified
            };
            Some((joined_path(root, path_of(file)), state))
        },
        _ => None,
    }
}

/// The states of all files in the output of `git status --porcelain`.
pub open spec fn porcelain(root: PathView, s: Seq<char>) -> Map<PathView, GitState> {
    change_map(filter_map(line_seq(s), |l: Seq<char>| porcelain_line(root, l)))
}

fn parse_porcelain_line(root: &FilePath, l: &str) -> (r: Option<Change>)
    ensures
        match r {
            Some(c) => porcelain_line(root@, l@) == Some(c@),
            None => porcelain_line(root@, l@) is None,
        },
{
    let v = chars_of(l);
    if byte_len(l) < 4 {
        return None;
    }
    let n: usize = if v.len() >= 3 && (v[0] as u32) < 128 && (v[1] as u32) < 128 && (v[2] as u32)
        < 128 {
        2
    } else if v.len() >= 2 && 0x80 <= v[0] as u32 && (v[0] as u32) < 0x800 && (v[1] as u32) < 128 {
        1
    } else {
        return None;
    };
    let ghost xy = l@.take(n as int);
    let marked = |c: char| -> (m: bool)
        requires
            n == 1 || n == 2,
            v.len() > n,
        ensures
            m == (v@[0] == c || (n == 2 && v@[1] == c)),
        { v[0] == c || (n == 2 && v[1] == c) };
    proof {
        assert forall|c: char| xy.contains(c) <==> (l@[0] == c || (n == 2 && l@[1] == c)) by {
            assert(xy[0] == l@[0]);
            if n == 2 {
                assert(xy[1] == l@[1]);
            }
        }
    }
    let tail = string_of(&v, n + 1, v.len());
    assert(tail@ =~= l@.skip(n + 1));
    let raw = trim(tail.as_str());
    let file = behind_last(raw.as_str(), " -> ");
    let state = if marked('D') {
        GitState::Deleted
    } else if marked('?') || marked('A') {
        GitState::New
    } else {
        GitState::Modified
    };
    Some(Change { path: root.join_text(file.as_str()), state })
}

/// Reads the output of `git status --porcelain`.
pub fn compute_git(root: &FilePath, s: &str) -> (r: GitStatus)
    ensures
        r.wf(),
        r@ == porcelain(root@, s@),
{
    let ls = lines(s);
    let ghost all = texts(ls@);
    let ghost f = |l: Seq<char>| porcelain_line(root@, l);
    let mut out = GitStatus::new();
    let mut i: usize = 0;
    proof {
        lemma_filter_map_ends(all, f);
    }
    while i < ls.len()
        invariant
            i <= ls.len(),
            all == texts(ls@),
            f == (|l: Seq<char>| porcelain_line(root@, l)),
            out.wf(),
            out@ == change_map(filter_map(all.take(i as int), f)),
        decreases ls.len() - i,
    {
        proof {
            lemma_filter_map_step(all, f, i as int);
        }
        match parse_porcelain_line(root, ls[i].as_str()) {
            Some(c) => {
                proof {
                    let w = filter_map(all.take(i as int), f);
                    assert(w.push(c@).drop_last() =~= w);
                }
                out.insert(c);
            },
            None => {},
        }
        i = i + 1;
    }
    out
}

// ── commits and branches ────────────────────────────────────────────────────

/// The contents of a list of pairs of strings.
pub open spec fn pair_texts(v: Seq<(String, String)>) -> Seq<(Seq<char>, Seq<char>)> {
    Seq::new(v.len(), |i: int| (v[i].0@, v[i].1@))
}

/// Reads a list of commits: a short hash and, behind a zero character, a subject on each
/// line.
pub fn parse_log_range(s: &str) -> (r: Vec<(String, String)>)
    ensures
        pair_texts(r@) == filter_map(line_seq(s@), |l: Seq<char>| cut(l, '\0')),
{
    let ls = lines(s);
    let ghost all = texts(ls@);
    let ghost f = |l: Seq<char>| cut(l, '\0');
    let mut out: Vec<(String, String)> = Vec::new();
    let mut i: usize = 0;
    proof {
        lemma_filter_map_ends(all, f);
        assert(pair_texts(out@) =~= Seq::<(Seq<char>, Seq<char>)>::empty());
    }
    while i < ls.len()
        invariant
            i <= ls.len(),
            all == texts(ls@),
            f == (|l: Seq<char>| cut(l, '\0')),
            pair_texts(out@) == filter_map(all.take(i as int), f),
        decreases ls.len() - i,
    {
        proof {
            lemma_filter_map_step(all, f, i as int);
        }
        match split_once(ls[i].as_str(), '\0') {
            Some(p) => {
                assert(pair_texts(out@.push(p)) =~= pair_texts(out@).push((p.0@, p.1@)));
                out.push(p);
            },
            None => {},
        }
        i = i + 1;
    }
    out
}

/// One commit of the log.
#[derive(Debug)]
pub struct LogCommit {
    pub hash: String,
    pub short: String,
    pub author: String,
    pub date: String,
    pub subject: String,
}

/// What a commit of the log says.
pub ghost struct CommitView {
    pub hash: Seq<char>,
    pub short: Seq<char>,
    pub author: Seq<char>,
    pub date: Seq<char>,
    pub subject: Seq<char>,
}

impl View for LogCommit {
    type V = CommitView;

    open spec fn view(&self) -> CommitView {
        CommitView {
            hash: self.hash@,
            short: self.short@,
            author: self.author@,
            date: self.date@,
            subject: self.subject@,
        }
    }
}

/// What a list of commits says.
pub open spec fn commit_views(v: Seq<LogCommit>) -> Seq<CommitView> {
    Seq::new(v.len(), |i: int| v[i]@)
}

/// The separator between the fields of a log line.
pub const FIELD_SEP: char = '\x1f';

/// One line of the log: four fields and the subject, which may hold anything and may be
/// missing.
pub open spec fn log_line(l: Seq<char>) -> Option<CommitView> {
    match cut(l, FIELD_SEP) {
        None => None,
        Some((hash, r1)) => match cut(r1, FIELD_SEP) {
            None => None,
            Some((short, r2)) => match cut(r2, FIELD_SEP) {
                None => None,
                Some((author, r3)) => match cut(r3, FIELD_SEP) {
                    None => Some(
                        CommitView { hash, short, author, date: r3, subject: Seq::empty() },
                    ),
                    Some((date, subject)) => Some(
                        CommitView { hash, short, author, date, subject },
                    ),
                },
            },
        },
    }
}

fn parse_log_line(l: &str) -> (r: Option<LogCommit>)
    ensures
        match r {
            Some(c) => log_line(l@) == Some(c@),
            None => log_line(l@) is None,
        },
{
    match split_once(l, FIELD_SEP) {
        None => None,
        Some(a) => match split_once(a.1.as_str(), FIELD_SEP) {
            None => None,
            Some(b) => match split_once(b.1.as_str(), FIELD_SEP) {
                None => None,
                Some(c) => match split_once(c.1.as_str(), FIELD_SEP) {
                    None => Some(
                        LogCommit {
                            hash: a.0,
                            short: b.0,
                            author: c.0,
                            date: c.1,
                            subject: String::new(),
                        },
                    ),
                    Some(d) => Some(
                        LogCommit { hash: a.0, short: b.0, author: c.0, date: d.0, subject: d.1 },
                    ),
                },
            },
        },
    }
}

/// Reads the log.
pub fn parse_log_commits(s: &str) -> (r: Vec<LogCommit>)
    ensures
        commit_views(r@) == filter_map(line_seq(s@), |l: Seq<char>| log_line(l)),
{
    let ls = lines(s);
    let ghost all = texts(ls@);
    let ghost f = |l: Seq<char>| log_line(l);
    let mut out: Vec<LogCommit> = Vec::new();
    let mut i: usize = 0;
    proof {
        lemma_filter_map_ends(all, f);
        assert(commit_views(out@) =~= Seq::<CommitView>::empty());
    }
    while i < ls.len()
        invariant
            i <= ls.len(),
            all == texts(ls@),
            f == (|l: Seq<char>| log_line(l)),
            commit_views(out@) == filter_map(all.take(i as int), f),
        decreases ls.len() - i,
    {
        proof {
            lemma_filter_map_step(all, f, i as int);
        }
        match parse_log_line(ls[i].as_str()) {
            Some(c) => {
                assert(commit_views(out@.push(c)) =~= commit_views(out@).push(c@));
                out.push(c);
            },
            None => {},
        }
        i = i + 1;
    }
    out
}

/// The branch that a reference names: local ones bare, remote ones with their remote; the
/// pointer to a remote's head is none.
pub open spec fn branch_of_ref(l: Seq<char>) -> Option<Seq<char>> {
    match after_prefix(l, "refs/heads/"@) {
        Some(b) => Some(b),
        None => match after_prefix(l, "refs/remotes/"@) {
            Some(r) => if finishes(r, "/HEAD"@) {
                None
            } else {
                Some(r)
            },
            None => None,
        },
    }
}

/// The branches that references name, each once, where it first comes.
pub open spec fn branches_of(ls: Seq<Seq<char>>) -> Seq<Seq<char>>
    decreases ls.len(),
{
    if ls.len() == 0 {
        Seq::empty()
    } else {
        let s = branches_of(ls.drop_last());
        match branch_of_ref(ls.last()) {
            Some(n) if n.len() > 0 && !s.contains(n) => s.push(n),
            _ => s,
        }
    }
}

fn parse_branch_ref(l: &str) -> (r: Option<String>)
    ensures
        opt_text(r) == branch_of_ref(l@),
{
    match strip_prefix(l, "refs/heads/") {
        Some(b) => Some(b),
        None => match strip_prefix(l, "refs/remotes/") {
            Some(x) => if ends_with(x.as_str(), "/HEAD") {
                None
            } else {
                Some(x)
            },
            None => None,
        },
    }
}

/// Reads the list of references into branches, local and remote.
pub fn parse_branches(s: &str) -> (r: Vec<String>)
    ensures
        texts(r@) == branches_of(line_seq(s@)),
{
    let ls = lines(s);
    let ghost all = texts(ls@);
    let mut out: Vec<String> = Vec::new();
    let mut i: usize = 0;
    assert(all.take(0) =~= Seq::<Seq<char>>::empty());
    assert(texts(out@) =~= Seq::<Seq<char>>::empty());
    while i < ls.len()
        invariant
            i <= ls.len(),
            all == texts(ls@),
            texts(out@) == branches_of(all.take(i as int)),
        decreases ls.len() - i,
    {
        proof {
            assert(all.take(i + 1).drop_last() =~= all.take(i as int));
            assert(all.take(i + 1).last() == all[i as int]);
        }
        match parse_branch_ref(ls[i].as_str()) {
            Some(n) => if !n.as_str().is_empty() && !has_text(&out, n.as_str()) {
                proof {
                    lemma_texts_push(out@, n);
                }
                out.push(n);
            },
            None => {},
        }
        i = i + 1;
    }
    assert(all.take(all.len() as int) =~= all);
    out
}

/// No branch is listed twice.
pub proof fn branches_are_listed_once(ls: Seq<Seq<char>>)
    ensures
        branches_of(ls).no_duplicates(),
    decreases ls.len(),
{
    if ls.len() > 0 {
        branches_are_listed_once(ls.drop_last());
        let s = branches_of(ls.drop_last());
        let r = branches_of(ls);
        assert forall|i: int, j: int| 0 <= i < j < r.len() implies r[i] != r[j] by {
            if j < s.len() {
                assert(s[i] != s[j]);
            } else if i < s.len() {
                assert(s.contains(s[i]));
            }
        }
    }
}

/// `s` without the prefix `p`, as often as it stands there.
pub open spec fn without_leading(s: Seq<char>, p: Seq<char>) -> Seq<char>
    decreases s.len(),
{
    if p.len() > 0 && begins(s, p) {
        without_leading(s.skip(p.len() as int), p)
    } else {
        s
    }
}

/// Removes the prefix `p`, as often as it stands there.
pub fn trim_leading(s: &str, p: &str) -> (r: String)
    ensures
        r@ == without_leading(s@, p@),
{
    let mut cur = s.to_owned();
    while !p.is_empty() && starts_with(cur.as_str(), p)
        invariant
            without_leading(cur@, p@) == without_leading(s@, p@),
        decreases cur@.len(),
    {
        match strip_prefix(cur.as_str(), p) {
            Some(t) => {
                cur = t;
            },
            None => {},
        }
    }
    cur
}

/// The default branch: that of the remote's head, else the first of the usual names that
/// exists, else main.
pub open spec fn default_branch_of(head: Option<Seq<char>>, main: bool, master: bool, develop: bool) -> Seq<char> {
    let named = match head {
        Some(s) => without_leading(trimmed(s), "origin/"@),
        None => Seq::empty(),
    };
    if named.len() > 0 {
        named
    } else if main {
        "main"@
    } else if master {
        "master"@
    } else if develop {
        "develop"@
    } else {
        "main"@
    }
}

/// The contents of an optional string slice.
pub open spec fn opt_str(o: Option<&str>) -> Option<Seq<char>> {
    match o {
        Some(s) => Some(s@),
        None => None,
    }
}

/// The default branch, from what git says of the remote's head and of the usual names.
pub fn default_branch(head: Option<&str>, main: bool, master: bool, develop: bool) -> (r: String)
    ensures
        r@ == default_branch_of(opt_str(head), main, master, develop),
{
    if let Some(s) = head {
        let t = trim(s);
        let n = trim_leading(t.as_str(), "origin/");
        if !n.as_str().is_empty() {
            return n;
        }
    }
    if main {
        "main".to_owned()
    } else if master {
        "master".to_owned()
    } else if develop {
        "develop".to_owned()
    } else {
        "main".to_owned()
    }
}

/// The base branch of a pull request: what GitHub says, else the default branch.
pub fn pr_base(said: Option<&str>, default: &str) -> (r: String)
    ensures
        r@ == match opt_str(said) {
            Some(s) if trimmed(s).len() > 0 => trimmed(s),
            _ => default@,
        },
{
    if let Some(s) = said {
        let t = trim(s);
        if !t.as_str().is_empty() {
            return t;
        }
    }
    default.to_owned()
}

/// The branch without its remote.
pub open spec fn bare_branch(base: Seq<char>) -> Seq<char> {
    match after_prefix(base, "origin/"@) {
        Some(b) => b,
        None => base,
    }
}

/// A branch without the remote in front of it.
pub fn strip_origin(base: &str) -> (r: String)
    ensures
        r@ == bare_branch(base@),
{
    match strip_prefix(base, "origin/") {
        Some(b) => b,
        None => base.to_owned(),
    }
}

/// The reference to compare with: the branch on the remote where it exists there.
pub fn resolve_base_ref(base: &str, on_remote: bool) -> (r: String)
    ensures
        r@ == if on_remote {
            "origin/"@ + base@
        } else {
            base@
        },
{
    if on_remote {
        cat("origin/", base)
    } else {
        base.to_owned()
    }
}

/// The revision to compare with: where the branch left its base, else the base itself.
pub fn diff_base_rev(base_ref: &str, merge_base: Option<&str>) -> (r: String)
    ensures
        r@ == match opt_str(merge_base) {
            Some(m) if trimmed(m).len() > 0 => trimmed(m),
            _ => base_ref@,
        },
{
    if let Some(m) = merge_base {
        let t = trim(m);
        if !t.as_str().is_empty() {
            return t;
        }
    }
    base_ref.to_owned()
}

/// The name in quotes on the first line of a merge message.
pub open spec fn quoted_ref(msg: Seq<char>) -> Option<Seq<char>> {
    let ls = line_seq(msg);
    if ls.len() == 0 {
        None
    } else {
        let l = ls[0];
        let a = first_char(l, '\'');
        let b = last_char(l, '\'');
        if a < l.len() && b > a + 1 {
            Some(l.subrange(a + 1, b))
        } else {
            None
        }
    }
}

/// The last place of a character.
pub proof fn lemma_last_char(s: Seq<char>, c: char)
    ensures
        -1 <= last_char(s, c) < s.len(),
        last_char(s, c) >= 0 ==> s[last_char(s, c)] == c,
        forall|j: int| last_char(s, c) < j < s.len() ==> s[j] != c,
    decreases s.len(),
{
    if s.len() > 0 && s.last() != c {
        lemma_last_char(s.drop_last(), c);
        assert forall|j: int| last_char(s, c) < j < s.len() implies s[j] != c by {
            if j < s.len() - 1 {
                assert(s.drop_last()[j] == s[j]);
            }
        }
    }
}

/// What is being merged in, for display: the name in quotes in the merge message, else the commit
/// that is merged.
pub open spec fn merged_name(msg: Option<Seq<char>>, head: Option<Seq<char>>) -> Seq<char> {
    let quoted = match msg {
        Some(m) => quoted_ref(m),
        None => None,
    };
    let commit = match head {
        Some(h) => content_of(h),
        None => None,
    };
    match quoted {
        Some(q) => q,
        None => match commit {
            Some(c) => c,
            None => "the other branch"@,
        },
    }
}

/// What is being merged in, for display, from the contents of `MERGE_MSG` and `MERGE_HEAD`.
pub fn merge_source(msg: Option<&str>, head: Option<&str>) -> (r: String)
    ensures
        r@ == merged_name(opt_str(msg), opt_str(head)),
{
    if let Some(m) = msg {
        let ls = lines(m);
        assert(texts(ls@).len() == ls.len());
        if ls.len() > 0 {
            let v = chars_of(ls[0].as_str());
            assert(texts(ls@)[0] == v@);
            proof {
                lemma_first_char(v@, '\'');
                lemma_last_char(v@, '\'');
            }
            let mut a: usize = 0;
            while a < v.len() && v[a] != '\''
                invariant
                    a <= first_char(v@, '\'') <= v@.len(),
                    forall|j: int| 0 <= j < first_char(v@, '\'') ==> v@[j] != '\'',
                    first_char(v@, '\'') < v@.len() ==> v@[first_char(v@, '\'')] == '\'',
                decreases v.len() - a,
            {
                a = a + 1;
            }
            assert(a == first_char(v@, '\''));
            if a < v.len() {
                let mut b: usize = v.len() - 1;
                while b > a && v[b] != '\''
                    invariant
                        a < v.len(),
                        v@[a as int] == '\'',
                        a <= b < v.len(),
                        last_char(v@, '\'') <= b,
                        last_char(v@, '\'') >= a,
                        last_char(v@, '\'') >= 0 ==> v@[last_char(v@, '\'')] == '\'',
                        forall|j: int| last_char(v@, '\'') < j < v@.len() ==> v@[j] != '\'',
                    decreases b,
                {
                    b = b - 1;
                }
                assert(b == last_char(v@, '\''));
                if b > a + 1 {
                    return string_of(&v, a + 1, b);
                }
            }
        }
    }
    if let Some(h) = head {
        if let Some(c) = trimmed_content(h) {
            return c;
        }
    }
    "the other branch".to_owned()
}

/// What stands behind the first `p` in `l`.
pub open spec fn after_first(l: Seq<char>, p: Seq<char>) -> Option<Seq<char>> {
    match next_at(l, p, 0) {
        Some(i) => Some(l.skip(i + p.len())),
        None => None,
    }
}

/// What stands behind the first `p`.
pub fn behind_first(l: &str, p: &str) -> (r: Option<String>)
    ensures
        opt_text(r) == after_first(l@, p@),
{
    let v = chars_of(l);
    let q = chars_of(p);
    let f = find_from(&v, &q, 0);
    proof {
        lemma_next_at(
            v@,
            q@,
            0,
            match f {
                Some(i) => Some(i as int),
                None => None,
            },
        );
    }
    match f {
        Some(i) => {
            assert(occurs_at(v@, q@, i as int));
            assert(v@.subrange(i + q@.len(), v@.len() as int) =~= l@.skip(i + p@.len()));
            let n: usize = v.len();
            Some(string_of(&v, i + q.len(), n))
        },
        None => None,
    }
}

/// What the oldest entry that says so was created from.
pub open spec fn created_from(ls: Seq<Seq<char>>) -> Option<Seq<char>>
    decreases ls.len(),
{
    if ls.len() == 0 {
        None
    } else {
        match after_first(ls.last(), "Created from "@) {
            Some(p) => Some(trimmed(p)),
            None => created_from(ls.drop_last()),
        }
    }
}

/// A digit of a number in base 16.
pub open spec fn hex_digit(c: char) -> bool {
    ('0' <= c && c <= '9') || ('a' <= c && c <= 'f') || ('A' <= c && c <= 'F')
}

/// Whether `s` is the id of a commit, whole or cut short: nothing but digits in base 16, at
/// least the seven that git prints and at most those of its longest ids.
pub open spec fn is_commit_id(s: Seq<char>) -> bool {
    7 <= s.len() <= 64 && forall|i: int| 0 <= i < s.len() ==> hex_digit(#[trigger] s[i])
}

fn commit_id(s: &str) -> (r: bool)
    ensures
        r == is_commit_id(s@),
{
    let v = chars_of(s);
    let mut i: usize = 0;
    while i < v.len()
        invariant
            i <= v.len(),
            v@ == s@,
            forall|j: int| 0 <= j < i ==> hex_digit(#[trigger] s@[j]),
        decreases v.len() - i,
    {
        let c = v[i];
        if !(('0' <= c && c <= '9') || ('a' <= c && c <= 'f') || ('A' <= c && c <= 'F')) {
            assert(s@[i as int] == c);
            return false;
        }
        i = i + 1;
    }
    7 <= v.len() && v.len() <= 64
}

/// The parent that a branch's reflog names: none where it is the branch itself, the head,
/// a bare commit, or nothing; without its remote.
pub open spec fn parent_in_reflog(s: Seq<char>, branch: Seq<char>) -> Option<Seq<char>> {
    if branch.len() == 0 {
        None
    } else {
        match created_from(line_seq(s)) {
            Some(p) => if p.len() == 0 || p == branch || p == "HEAD"@ || is_commit_id(p) {
                None
            } else {
                Some(bare_branch(p))
            },
            None => None,
        }
    }
}

/// The branch that `branch` was made from, by its reflog.
pub fn branch_parent(reflog: &str, branch: &str) -> (r: Option<String>)
    ensures
        opt_text(r) == parent_in_reflog(reflog@, branch@),
{
    if branch.is_empty() {
        return None;
    }
    let ls = lines(reflog);
    let ghost all = texts(ls@);
    let mut n: usize = ls.len();
    assert(all.take(n as int) =~= all);
    while n > 0
        invariant
            n <= ls.len(),
            all == texts(ls@),
            all == line_seq(reflog@),
            branch@.len() > 0,
            created_from(all) == created_from(all.take(n as int)),
        decreases n,
    {
        proof {
            assert(all.take(n as int).last() == all[n - 1]);
            assert(all.take(n as int).drop_last() =~= all.take(n - 1));
        }
        match behind_first(ls[n - 1].as_str(), "Created from ") {
            Some(x) => {
                let p = trim(x.as_str());
                if p.as_str().is_empty() || same(p.as_str(), branch) || same(p.as_str(), "HEAD")
                    || commit_id(p.as_str()) {
                    return None;
                }
                return Some(strip_origin(p.as_str()));
            },
            None => {},
        }
        n = n - 1;
    }
    None
}

/// The web address of a repository, from the address of its remote.
pub open spec fn github_url(remote: Seq<char>) -> Option<Seq<char>> {
    let t = trimmed(remote);
    let u = match before_suffix(t, ".git"@) {
        Some(x) => x,
        None => t,
    };
    match after_prefix(u, "git@github.com:"@) {
        Some(rest) => Some("https://github.com/"@ + rest),
        None => match after_prefix(u, "ssh://git@github.com/"@) {
            Some(rest) => Some("https://github.com/"@ + rest),
            None => match after_prefix(u, "https://github.com/"@) {
                Some(rest) => Some("https://github.com/"@ + rest),
                None => match after_prefix(u, "http://github.com/"@) {
                    Some(rest) => Some("https://github.com/"@ + rest),
                    None => None,
                },
            },
        },
    }
}

/// The web address of the repository at GitHub. None where it is elsewhere.
pub fn github_base_url(remote: &str) -> (r: Option<String>)
    ensures
        opt_text(r) == github_url(remote@),
{
    let t = trim(remote);
    let u = match strip_suffix(t.as_str(), ".git") {
        Some(x) => x,
        None => t,
    };
    match strip_prefix(u.as_str(), "git@github.com:") {
        Some(rest) => Some(cat("https://github.com/", rest.as_str())),
        None => match strip_prefix(u.as_str(), "ssh://git@github.com/") {
            Some(rest) => Some(cat("https://github.com/", rest.as_str())),
            None => match strip_prefix(u.as_str(), "https://github.com/") {
                Some(rest) => Some(cat("https://github.com/", rest.as_str())),
                None => match strip_prefix(u.as_str(), "http://github.com/") {
                    Some(rest) => Some(cat("https://github.com/", rest.as_str())),
                    None => None,
                },
            },
        },
    }
}

// ── arguments of commands ───────────────────────────────────────────────────

/// What `git show` is asked for: a file at a revision.
pub fn show_arg(rev: &str, rel: &str) -> (r: String)
    ensures
        r@ == rev@ + ":"@ + rel@,
{
    cat3(rev, ":", rel)
}

/// What `git show` is asked for: a file at a stage of a merge.
pub fn stage_arg(rel: &str, stage: u8) -> (r: String)
    ensures
        r@ == ":"@ + dec(stage as nat) + (":"@ + rel@),
{
    let d = decimal(stage as u64);
    let t = cat(":", rel);
    cat3(":", d.as_str(), t.as_str())
}

/// The range from where the branch left its base up to the head.
pub fn three_dot(base_ref: &str) -> (r: String)
    ensures
        r@ == base_ref@ + "...HEAD"@,
{
    cat(base_ref, "...HEAD")
}

/// The range of the commits that the upstream does not have.
pub fn two_dot(upstream: &str) -> (r: String)
    ensures
        r@ == upstream@ + "..HEAD"@,
{
    cat(upstream, "..HEAD")
}

/// The mutation that marks a file as viewed, or takes the mark away.
pub open spec fn mutation_text(viewed: bool) -> Seq<char> {
    "mutation($id:ID!,$path:String!){ "@ + (if viewed {
        "markFileAsViewed"@
    } else {
        "unmarkFileAsViewed"@
    }) + "(input:{pullRequestId:$id, path:$path}){ clientMutationId } }"@
}

fn viewed_mutation(viewed: bool) -> (r: String)
    ensures
        r@ == mutation_text(viewed),
{
    let field = if viewed {
        "markFileAsViewed"
    } else {
        "unmarkFileAsViewed"
    };
    cat3(
        "mutation($id:ID!,$path:String!){ ",
        field,
        "(input:{pullRequestId:$id, path:$path}){ clientMutationId } }",
    )
}

// ── random names and memory ─────────────────────────────────────────────────

/// One step of the generator.
pub open spec fn next_seed(n: u64) -> u64 {
    ((n + 0x9e3779b97f4a7c15) % 0x1_0000_0000_0000_0000) as u64
}

/// The number drawn from a state of the generator.
pub open spec fn mixed(n: u64) -> u64 {
    let a = (((n ^ (n >> 30u64)) * 0xbf58476d1ce4e5b9) % 0x1_0000_0000_0000_0000) as u64;
    let b = (((a ^ (a >> 27u64)) * 0x94d049bb133111eb) % 0x1_0000_0000_0000_0000) as u64;
    b ^ (b >> 31u64)
}

/// The characters that a name is made of.
pub open spec fn id_char(k: int) -> char {
    if k < 26 {
        (97 + k) as u8 as char
    } else {
        (48 + k - 26) as u8 as char
    }
}

/// The first `k` characters drawn from the seed `n`.
pub open spec fn id_chars(n: u64, k: nat) -> Seq<char>
    decreases k,
{
    if k == 0 {
        Seq::empty()
    } else {
        seq![id_char((mixed(next_seed(n)) % 36) as int)] + id_chars(next_seed(n), (k - 1) as nat)
    }
}

/// A short name of five lower-case letters and digits, made from a seed.
pub fn random_id(seed: u64) -> (r: String)
    ensures
        r@ == id_chars(seed, 5),
        r@.len() == 5,
{
    let mut n: u64 = seed;
    let mut s = String::new();
    let mut k: usize = 0;
    assert(s@ + id_chars(n, 5) =~= id_chars(seed, 5));
    while k < 5
        invariant
            k <= 5,
            s@.len() == k,
            s@ + id_chars(n, (5 - k) as nat) == id_chars(seed, 5),
        decreases 5 - k,
    {
        let ghost n0 = n;
        n = n.wrapping_add(0x9e3779b97f4a7c15);
        assert(n == next_seed(n0));
        let mut z: u64 = n;
        z = (z ^ (z >> 30u64)).wrapping_mul(0xbf58476d1ce4e5b9);
        z = (z ^ (z >> 27u64)).wrapping_mul(0x94d049bb133111eb);
        z = z ^ (z >> 31u64);
        assert(z == mixed(n));
        let i: u8 = (z % 36) as u8;
        let c: char = if i < 26 {
            (97 + i) as char
        } else {
            (48 + (i - 26)) as char
        };
        assert(c == id_char((z % 36) as int));
        let ghost was = s@;
        s.push(c);
        k = k + 1;
        proof {
            assert(was.push(c) + id_chars(n, (5 - k) as nat) =~= was + (seq![c] + id_chars(
                n,
                (5 - k) as nat,
            )));
        }
    }
    assert(s@ + id_chars(n, 0) =~= s@);
    s
}

/// The memory that `ps` prints in kilobytes, in megabytes; 0 where it cannot be read.
pub fn mem_mb(rss: &str) -> (r: u64)
    ensures
        r == match number_to(trimmed(rss@), u64::MAX as nat) {
            Some(kb) => (kb / 1024) as u64,
            None => 0,
        },
{
    let t = trim(rss);
    match parse_number(t.as_str(), u64::MAX) {
        Some(kb) => kb / 1024,
        None => 0,
    }
}

/// The arguments that ask which files of a pull request were viewed. `nwo` is the owner and the
/// name of the repository; none where it has no slash.
pub fn viewed_query_args(nwo: &str, num: &str) -> (r: Option<Vec<String>>)
    ensures
        match cut(nwo@, '/') {
            Some((owner, repo)) => r is Some && texts((r->0)@) == seq![
                "api"@,
                "graphql"@,
                "--paginate"@,
                "-f"@,
                "query=query($owner:String!,$repo:String!,$num:Int!,$endCursor:String){repository(owner:$owner,name:$repo){pullRequest(number:$num){files(first:100,after:$endCursor){nodes{path viewerViewedState} pageInfo{hasNextPage endCursor}}}}}"@,
                "-f"@,
                "owner="@ + owner,
                "-f"@,
                "repo="@ + repo,
                "-F"@,
                "num="@ + num@,
                "-q"@,
                ".data.repository.pullRequest.files.nodes[] | select(.viewerViewedState==\"VIEWED\") | .path"@,
            ],
            None => r is None,
        },
{
    match split_once(nwo, '/') {
        Some((owner, repo)) => {
            let v = vec![
                "api".to_owned(),
                "graphql".to_owned(),
                "--paginate".to_owned(),
                "-f".to_owned(),
                "query=query($owner:String!,$repo:String!,$num:Int!,$endCursor:String){repository(owner:$owner,name:$repo){pullRequest(number:$num){files(first:100,after:$endCursor){nodes{path viewerViewedState} pageInfo{hasNextPage endCursor}}}}}".to_owned(),
                "-f".to_owned(),
                cat("owner=", owner.as_str()),
                "-f".to_owned(),
                cat("repo=", repo.as_str()),
                "-F".to_owned(),
                cat("num=", num),
                "-q".to_owned(),
                ".data.repository.pullRequest.files.nodes[] | select(.viewerViewedState==\"VIEWED\") | .path".to_owned(),
            ];
            assert(texts(v@) =~= seq![
                "api"@,
                "graphql"@,
                "--paginate"@,
                "-f"@,
                "query=query($owner:String!,$repo:String!,$num:Int!,$endCursor:String){repository(owner:$owner,name:$repo){pullRequest(number:$num){files(first:100,after:$endCursor){nodes{path viewerViewedState} pageInfo{hasNextPage endCursor}}}}}"@,
                "-f"@,
                "owner="@ + owner@,
                "-f"@,
                "repo="@ + repo@,
                "-F"@,
                "num="@ + num@,
                "-q"@,
                ".data.repository.pullRequest.files.nodes[] | select(.viewerViewedState==\"VIEWED\") | .path"@,
            ]);
            Some(v)
        },
        None => None,
    }
}

/// The arguments that mark a file of a pull request as viewed, or take the mark away.
pub fn set_viewed_args(pr_id: &str, path: &str, viewed: bool) -> (r: Vec<String>)
    ensures
        texts(r@) == seq![
            "api"@,
            "graphql"@,
            "-f"@,
            "query="@ + mutation_text(viewed),
            "-f"@,
            "id="@ + pr_id@,
            "-f"@,
            "path="@ + path@,
        ],
{
    let q = viewed_mutation(viewed);
    let v = vec![
        "api".to_owned(),
        "graphql".to_owned(),
        "-f".to_owned(),
        cat("query=", q.as_str()),
        "-f".to_owned(),
        cat("id=", pr_id),
        "-f".to_owned(),
        cat("path=", path),
    ];
    assert(texts(v@) =~= seq![
        "api"@,
        "graphql"@,
        "-f"@,
        "query="@ + mutation_text(viewed),
        "-f"@,
        "id="@ + pr_id@,
        "-f"@,
        "path="@ + path@,
    ]);
    v
}

proof fn lemma_id_chars(n: u64, k: nat, i: int)
    requires
        0 <= i < id_chars(n, k).len(),
    ensures
        ({
            let c = id_chars(n, k)[i];
            ('a' <= c && c <= 'z') || ('0' <= c && c <= '9')
        }),
    decreases k,
{
    if i > 0 {
        lemma_id_chars(next_seed(n), (k - 1) as nat, i - 1);
    }
}

/// An id is made of lower-case letters and digits alone, whatever the seed.
pub proof fn ids_are_letters_and_digits(seed: u64, i: int)
    requires
        0 <= i < id_chars(seed, 5).len(),
    ensures
        ({
            let c = id_chars(seed, 5)[i];
            ('a' <= c && c <= 'z') || ('0' <= c && c <= '9')
        }),
{
    lemma_id_chars(seed, 5, i);
}

// ── what git's output says ──────────────────────────────────────────────────

/// One line of `git status --porcelain` by its two columns, a blank and a path: a file is deleted
/// where either column says D, else new where either says ? or A, and else modified.
pub proof fn status_columns_decide(root: PathView, x: char, y: char, path: Seq<char>)
    requires
        (x as u32) < 128,
        (y as u32) < 128,
        path.len() > 0,
        trimmed(path) == path,
        !occurs(path, " -> "@),
    ensures
        ({
            let r = porcelain_line(root, seq![x, y, ' '] + path);
            &&& r is Some
            &&& (r->0).0 == joined_path(root, path_of(path))
            &&& (r->0).1 == GitState::Deleted <==> (x == 'D' || y == 'D')
            &&& (r->0).1 == GitState::New <==> !(x == 'D' || y == 'D') && (x == '?' || y == '?' || x == 'A' || y == 'A')
            &&& (r->0).1 == GitState::Modified <==> x != 'D' && y != 'D' && x != '?' && y != '?' && x != 'A' && y != 'A'
        }),
{
    let l = seq![x, y, ' '] + path;
    lemma_utf8_at_least(l);
    let xy = l.take(2);
    assert(xy =~= seq![x, y]);
    assert(xy[0] == x && xy[1] == y);
    assert forall|c: char| xy.contains(c) <==> (x == c || y == c) by {
        if x == c {
            assert(xy[0] == c);
        }
        if y == c {
            assert(xy[1] == c);
        }
    }
    assert(l.skip(3) =~= path);
    assert(status_chars(l) == Some(2int));
    lemma_after_last(path, " -> "@);
}

/// Of a renamed file the new path counts.
pub proof fn renamed_files_have_their_new_path(root: PathView, x: char, y: char, a: Seq<char>, b: Seq<char>)
    requires
        (x as u32) < 128,
        (y as u32) < 128,
        trimmed(a + " -> "@ + b) == a + " -> "@ + b,
        !occurs(" -> "@.skip(1) + b, " -> "@),
    ensures
        ({
            let r = porcelain_line(root, seq![x, y, ' '] + (a + " -> "@ + b));
            r is Some && (r->0).0 == joined_path(root, path_of(b))
        }),
{
    let t = a + " -> "@ + b;
    let l = seq![x, y, ' '] + t;
    reveal_strlit(" -> ");
    lemma_utf8_at_least(l);
    assert(l.skip(3) =~= t);
    assert(status_chars(l) == Some(2int));
    let p = " -> "@;
    assert(occurs_at(t, p, a.len() as int)) by {
        assert(t.subrange(a.len() as int, a.len() as int + p.len()) =~= p);
    }
    assert forall|k: int| a.len() < k implies !occurs_at(t, p, k) by {
        if occurs_at(t, p, k) {
            let u = p.skip(1) + b;
            assert(t.skip(a.len() as int + 1) =~= u);
            assert(t.subrange(k, k + p.len()) =~= u.subrange(k - a.len() - 1, k - a.len() - 1 + p.len()));
            assert(occurs_at(u, p, k - a.len() - 1));
        }
    }
    lemma_last_is(t, p, a.len() as int, t.len() as int);
    assert(t.skip(a.len() as int + p.len()) =~= b);
}

proof fn lemma_last_is(t: Seq<char>, p: Seq<char>, i: int, k: int)
    requires
        0 <= i <= k,
        occurs_at(t, p, i),
        forall|j: int| i < j ==> !occurs_at(t, p, j),
    ensures
        last_at(t, p, k) == i,
    decreases k,
{
    if k > i {
        lemma_last_is(t, p, i, k - 1);
    }
}

proof fn lemma_after_last(t: Seq<char>, p: Seq<char>)
    requires
        !occurs(t, p),
    ensures
        after_last(t, p) == t,
{
    lemma_last_none(t, p, t.len() as int);
}

proof fn lemma_last_none(t: Seq<char>, p: Seq<char>, k: int)
    requires
        !occurs(t, p),
    ensures
        last_at(t, p, k) < 0,
    decreases k + 1,
{
    if k >= 0 {
        assert(!occurs_at(t, p, k));
        lemma_last_none(t, p, k - 1);
    }
}

/// Whether a list names a path.
pub open spec fn names_path(v: Seq<(PathView, GitState)>, p: PathView) -> bool {
    exists|i: int| 0 <= i < v.len() && (#[trigger] v[i]).0 == p
}

/// The state of a path is the one that the last entry for it names; a path without an entry has
/// none.
pub proof fn the_last_state_counts(a: Seq<(PathView, GitState)>, p: PathView, st: GitState, b: Seq<(PathView, GitState)>)
    requires
        !names_path(b, p),
    ensures
        change_map(a + seq![(p, st)] + b).dom().contains(p),
        change_map(a + seq![(p, st)] + b)[p] == st,
        !change_map(b).dom().contains(p),
    decreases b.len(),
{
    let v = a + seq![(p, st)] + b;
    if b.len() == 0 {
        assert(v.last() == (p, st));
    } else {
        let c = b.drop_last();
        assert(!names_path(c, p)) by {
            if names_path(c, p) {
                let i = choose|i: int| 0 <= i < c.len() && (#[trigger] c[i]).0 == p;
                assert(b[i].0 == p);
            }
        }
        the_last_state_counts(a, p, st, c);
        assert(v.drop_last() =~= a + seq![(p, st)] + c);
        assert(v.last() == b.last());
        assert(b[b.len() - 1].0 != p);
    }
}

/// Whether line `n` is read and names the path `p`.
pub open spec fn line_names(ls: Seq<Seq<char>>, f: spec_fn(Seq<char>) -> Option<(PathView, GitState)>, n: int, p: PathView) -> bool {
    0 <= n < ls.len() && f(ls[n]) is Some && (f(ls[n])->0).0 == p
}

proof fn lemma_lines_known(ls: Seq<Seq<char>>, f: spec_fn(Seq<char>) -> Option<(PathView, GitState)>, p: PathView)
    ensures
        change_map(filter_map(ls, f)).dom().contains(p) <==> exists|n: int| line_names(ls, f, n, p),
    decreases ls.len(),
{
    if ls.len() > 0 {
        let t = ls.drop_last();
        lemma_lines_known(t, f, p);
        let x = ls.last();
        let v = filter_map(ls, f);
        let w = filter_map(t, f);
        let end = ls.len() - 1;
        if f(x) is Some {
            assert(v.drop_last() =~= w);
            assert(v.last() == f(x)->0);
            if (f(x)->0).0 == p {
                assert(line_names(ls, f, end, p));
            }
        }
        if change_map(w).dom().contains(p) {
            let n = choose|n: int| line_names(t, f, n, p);
            assert(ls[n] == t[n]);
            assert(line_names(ls, f, n, p));
        }
        if exists|n: int| line_names(ls, f, n, p) {
            let n = choose|n: int| line_names(ls, f, n, p);
            if n < t.len() {
                assert(t[n] == ls[n]);
                assert(line_names(t, f, n, p));
            }
        }
    } else {
        assert forall|n: int| !line_names(ls, f, n, p) by {}
    }
}

proof fn lemma_last_line_counts(ls: Seq<Seq<char>>, f: spec_fn(Seq<char>) -> Option<(PathView, GitState)>, p: PathView, n: int)
    requires
        line_names(ls, f, n, p),
        forall|m: int| n < m ==> !line_names(ls, f, m, p),
    ensures
        change_map(filter_map(ls, f))[p] == (f(ls[n])->0).1,
    decreases ls.len(),
{
    let t = ls.drop_last();
    let x = ls.last();
    let v = filter_map(ls, f);
    let w = filter_map(t, f);
    let end = ls.len() - 1;
    if f(x) is Some {
        assert(v.drop_last() =~= w);
        assert(v.last() == f(x)->0);
    }
    if n < end {
        assert(!line_names(ls, f, end, p));
        assert(t[n] == ls[n]);
        assert forall|m: int| n < m implies !line_names(t, f, m, p) by {
            if line_names(t, f, m, p) {
                assert(ls[m] == t[m]);
                assert(line_names(ls, f, m, p));
            }
        }
        lemma_last_line_counts(t, f, p, n);
        lemma_lines_known(t, f, p);
        assert(line_names(t, f, n, p));
    }
}

/// Whether line `n` of git's status names the path `p`.
pub open spec fn status_names(root: PathView, s: Seq<char>, n: int, p: PathView) -> bool {
    0 <= n < line_seq(s).len() && porcelain_line(root, line_seq(s)[n]) is Some && (porcelain_line(root, line_seq(s)[n])->0).0 == p
}

/// The status of a repository knows exactly the paths that a line of git's output names.
pub proof fn status_knows_every_line(root: PathView, s: Seq<char>, p: PathView)
    ensures
        porcelain(root, s).dom().contains(p) <==> exists|n: int| status_names(root, s, n, p),
{
    let f = |l: Seq<char>| porcelain_line(root, l);
    lemma_lines_known(line_seq(s), f, p);
    assert forall|n: int| status_names(root, s, n, p) == line_names(line_seq(s), f, n, p) by {}
    if exists|n: int| line_names(line_seq(s), f, n, p) {
        let n = choose|n: int| line_names(line_seq(s), f, n, p);
        assert(status_names(root, s, n, p));
    }
    if exists|n: int| status_names(root, s, n, p) {
        let n = choose|n: int| status_names(root, s, n, p);
        assert(line_names(line_seq(s), f, n, p));
    }
}

/// A path has the state that the last line of git's output for it says.
pub proof fn the_last_status_line_counts(root: PathView, s: Seq<char>, n: int, p: PathView)
    requires
        status_names(root, s, n, p),
        forall|m: int| n < m ==> !status_names(root, s, m, p),
    ensures
        porcelain(root, s)[p] == (porcelain_line(root, line_seq(s)[n])->0).1,
{
    let f = |l: Seq<char>| porcelain_line(root, l);
    assert forall|m: int| n < m implies !line_names(line_seq(s), f, m, p) by {
        assert(!status_names(root, s, m, p));
    }
    lemma_last_line_counts(line_seq(s), f, p, n);
}

/// A line of a name-status list, a letter, a tab and a path, says that the file was added, deleted,
/// or else modified; of a rename, which names two paths, the second counts.
pub proof fn name_status_letters_decide(root: PathView, st: Seq<char>, from: Seq<char>, path: Seq<char>)
    requires
        st.len() > 0,
        !st.contains('\t'),
        !from.contains('\t'),
        !path.contains('\t'),
        path.len() > 0,
        trimmed(path) == path,
    ensures
        ({
            let a = status_line(root, st + seq!['\t'] + path);
            let b = status_line(root, st + seq!['\t'] + from + seq!['\t'] + path);
            &&& a is Some && (a->0).0 == joined_path(root, path_of(path))
            &&& b is Some && b == a
            &&& (a->0).1 == GitState::New <==> st[0] == 'A'
            &&& (a->0).1 == GitState::Deleted <==> st[0] == 'D'
        }),
{
    let v = seq![st, path];
    split_undoes_join(v, '\t');
    assert(v.drop_last() =~= seq![st]);
    assert(seq![st].drop_last() =~= Seq::<Seq<char>>::empty());
    assert(joined(seq![st], seq!['\t']) =~= st);
    assert(joined(v, seq!['\t']) =~= st + seq!['\t'] + path);
    let w = seq![st, from, path];
    split_undoes_join(w, '\t');
    assert(w.drop_last() =~= seq![st, from]);
    assert(w.drop_last().drop_last() =~= seq![st]);
    assert(joined(w.drop_last(), seq!['\t']) =~= st + seq!['\t'] + from);
    assert(joined(w, seq!['\t']) =~= st + seq!['\t'] + from + seq!['\t'] + path);
}

/// A name-status list gives every file that one of its lines names, and no other, in the order of
/// their paths.
pub proof fn name_status_lists_every_file(root: PathView, s: Seq<char>, c: (PathView, GitState))
    ensures
        name_status(root, s).contains(c) <==> exists|n: int|
            0 <= n < line_seq(s).len() && status_line(root, #[trigger] line_seq(s)[n]) == Some(c),
        forall|i: int, j: int|
            #![trigger name_status(root, s)[i], name_status(root, s)[j]]
            0 <= i < j < name_status(root, s).len() ==> !path_less(name_status(root, s)[j].0, name_status(root, s)[i].0),
{
    let f = |l: Seq<char>| status_line(root, l);
    let v = filter_map(line_seq(s), f);
    lemma_mapped_members(line_seq(s), f, c);
    changes_stand_by_path(v, c);
}

proof fn lemma_mapped_members<B>(ls: Seq<Seq<char>>, f: spec_fn(Seq<char>) -> Option<B>, c: B)
    ensures
        filter_map(ls, f).contains(c) <==> exists|n: int| 0 <= n < ls.len() && f(#[trigger] ls[n]) == Some(c),
    decreases ls.len(),
{
    let v = filter_map(ls, f);
    if ls.len() > 0 {
        let t = ls.drop_last();
        let w = filter_map(t, f);
        lemma_mapped_members(t, f, c);
        assert(ls[ls.len() - 1] == ls.last());
        if v.contains(c) {
            let k = choose|k: int| 0 <= k < v.len() && v[k] == c;
            if k < w.len() {
                assert(w[k] == c);
                assert(w.contains(c));
                let n = choose|n: int| 0 <= n < t.len() && f(#[trigger] t[n]) == Some(c);
                assert(ls[n] == t[n]);
            }
        }
        if exists|n: int| 0 <= n < ls.len() && f(#[trigger] ls[n]) == Some(c) {
            let n = choose|n: int| 0 <= n < ls.len() && f(#[trigger] ls[n]) == Some(c);
            if n < t.len() {
                assert(t[n] == ls[n]);
                let k = choose|k: int| 0 <= k < w.len() && w[k] == c;
                assert(v[k] == c);
            } else {
                assert(v[v.len() - 1] == c);
            }
        }
    }
}

/// Changes are put in the order of their paths, and none is lost or added.
pub proof fn changes_stand_by_path(v: Seq<(PathView, GitState)>, c: (PathView, GitState))
    ensures
        by_path(v).contains(c) <==> v.contains(c),
        by_path(v).len() == v.len(),
        forall|i: int, j: int|
            #![trigger by_path(v)[i], by_path(v)[j]]
            0 <= i < j < by_path(v).len() ==> !path_less(by_path(v)[j].0, by_path(v)[i].0),
{
    let less = |a: (PathView, GitState), b: (PathView, GitState)| path_less(a.0, b.0);
    assert(can_sort(less)) by {
        assert forall|a: (PathView, GitState), b: (PathView, GitState)| #[trigger] less(a, b) implies !less(b, a) by {
            path_order_is_total(a.0, b.0);
        }
        assert forall|a: (PathView, GitState), b: (PathView, GitState), c: (PathView, GitState)|
            #![trigger less(a, b), less(b, c)]
            !less(a, b) && !less(b, c) implies !less(a, c) by {
            path_order_is_total(a.0, b.0);
            path_order_is_total(b.0, c.0);
            if path_less(a.0, c.0) {
                if a.0 != b.0 && b.0 != c.0 {
                    path_order_is_transitive(c.0, b.0, a.0);
                    path_order_is_total(a.0, c.0);
                }
            }
        }
    }
    sorting_by_orders(v, less);
    sorting_by_keeps_members(v, less, c);
}

/// A line of the log is read field by field: hash, short hash, author and date, and the subject,
/// which may hold anything.
pub proof fn log_lines_are_read(c: CommitView)
    requires
        !c.hash.contains('\x1f'),
        !c.short.contains('\x1f'),
        !c.author.contains('\x1f'),
        !c.date.contains('\x1f'),
    ensures
        log_line(
            c.hash + seq!['\x1f'] + (c.short + seq!['\x1f'] + (c.author + seq!['\x1f'] + (c.date + seq!['\x1f'] + c.subject))),
        ) == Some(c),
{
    let r3 = c.date + seq!['\x1f'] + c.subject;
    let r2 = c.author + seq!['\x1f'] + r3;
    let r1 = c.short + seq!['\x1f'] + r2;
    cutting_undoes_joining(c.hash, r1, '\x1f');
    cutting_undoes_joining(c.short, r2, '\x1f');
    cutting_undoes_joining(c.author, r3, '\x1f');
    cutting_undoes_joining(c.date, c.subject, '\x1f');
}

/// A local branch goes by its bare name, a remote one with its remote, and the pointer to a
/// remote's head is no branch.
pub proof fn references_name_branches(b: Seq<char>)
    ensures
        branch_of_ref("refs/heads/"@ + b) == Some(b),
        !finishes(b, "/HEAD"@) ==> branch_of_ref("refs/remotes/"@ + b) == Some(b),
        branch_of_ref("refs/remotes/"@ + (b + "/HEAD"@)) is None,
        branch_of_ref("refs/tags/"@ + b) is None,
{
    reveal_strlit("refs/heads/");
    reveal_strlit("refs/remotes/");
    reveal_strlit("refs/tags/");
    let h = "refs/heads/"@;
    let r = "refs/remotes/"@;
    let g = "refs/tags/"@;
    assert((h + b).take(h.len() as int) =~= h);
    assert((h + b).skip(h.len() as int) =~= b);
    assert((r + b).take(r.len() as int) =~= r);
    assert((r + b).skip(r.len() as int) =~= b);
    assert(!begins(r + b, h)) by {
        assert((r + b)[5] == 'r');
        if begins(r + b, h) {
            assert((r + b).take(h.len() as int)[5] == h[5]);
        }
    }
    let x = b + "/HEAD"@;
    assert((r + x).take(r.len() as int) =~= r);
    assert((r + x).skip(r.len() as int) =~= x);
    assert(!begins(r + x, h)) by {
        assert((r + x)[5] == 'r');
        if begins(r + x, h) {
            assert((r + x).take(h.len() as int)[5] == h[5]);
        }
    }
    assert(x.skip(x.len() - "/HEAD"@.len()) =~= "/HEAD"@);
    let t = g + b;
    assert(t[5] == 't');
    if begins(t, h) {
        assert(t.take(h.len() as int)[5] == h[5]);
    }
    if begins(t, r) {
        assert(t.take(r.len() as int)[5] == r[5]);
    }
}

/// The list of branches holds exactly those that a reference names.
pub proof fn every_branch_is_listed(ls: Seq<Seq<char>>, b: Seq<char>)
    ensures
        branches_of(ls).contains(b) <==> b.len() > 0 && exists|n: int| 0 <= n < ls.len() && branch_of_ref(#[trigger] ls[n]) == Some(b),
    decreases ls.len(),
{
    let v = branches_of(ls);
    if ls.len() > 0 {
        let t = ls.drop_last();
        let w = branches_of(t);
        every_branch_is_listed(t, b);
        assert(ls[ls.len() - 1] == ls.last());
        if v.contains(b) {
            let k = choose|k: int| 0 <= k < v.len() && v[k] == b;
            if k < w.len() {
                assert(w[k] == b);
                assert(w.contains(b));
                let n = choose|n: int| 0 <= n < t.len() && branch_of_ref(#[trigger] t[n]) == Some(b);
                assert(ls[n] == t[n]);
            }
        }
        if b.len() > 0 && exists|n: int| 0 <= n < ls.len() && branch_of_ref(#[trigger] ls[n]) == Some(b) {
            let n = choose|n: int| 0 <= n < ls.len() && branch_of_ref(#[trigger] ls[n]) == Some(b);
            if n < t.len() {
                assert(t[n] == ls[n]);
                let k = choose|k: int| 0 <= k < w.len() && w[k] == b;
                assert(v[k] == b);
            } else if w.contains(b) {
                let k = choose|k: int| 0 <= k < w.len() && w[k] == b;
                assert(v[k] == b);
            } else {
                assert(v[v.len() - 1] == b);
            }
        }
    }
}

/// Branches come in the order of the references: a further reference adds its branch behind, if
/// at all.
pub proof fn branches_keep_their_order(ls: Seq<Seq<char>>, l: Seq<char>)
    ensures
        branches_of(ls.push(l)) == branches_of(ls) || (branch_of_ref(l) is Some && branches_of(ls.push(l)) == branches_of(ls).push(
            branch_of_ref(l)->0,
        )),
{
    assert(ls.push(l).drop_last() =~= ls);
}

/// The default branch is the one that the remote's head points at; where that is not known, main,
/// master or develop, the first of them that there is, and main where there is none.
pub proof fn default_branch_is_the_remotes(b: Seq<char>, main: bool, master: bool, develop: bool)
    requires
        b.len() > 0,
        trimmed("origin/"@ + b) == "origin/"@ + b,
        !begins(b, "origin/"@),
    ensures
        default_branch_of(Some("origin/"@ + b), main, master, develop) == b,
        default_branch_of(None, true, master, develop) == "main"@,
        default_branch_of(None, false, true, develop) == "master"@,
        default_branch_of(None, false, false, true) == "develop"@,
        default_branch_of(None, false, false, false) == "main"@,
        bare_branch("origin/"@ + b) == b,
        bare_branch(b) == b,
{
    reveal_strlit("origin/");
    let o = "origin/"@;
    assert((o + b).take(o.len() as int) =~= o);
    assert((o + b).skip(o.len() as int) =~= b);
    assert(without_leading(b, o) == b);
}

/// A merge message names what is merged in quotes; without it the commit is named.
pub proof fn merges_are_named(a: Seq<char>, name: Seq<char>, c: Seq<char>, head: Option<Seq<char>>, id: Seq<char>)
    requires
        name.len() > 0,
        !a.contains('\''),
        !c.contains('\''),
        !(a + seq!['\''] + name + seq!['\''] + c).contains('\n'),
        (a + seq!['\''] + name + seq!['\''] + c).last() != '\r',
        trimmed(id) == id,
        id.len() > 0,
    ensures
        merged_name(Some(a + seq!['\''] + name + seq!['\''] + c), head) == name,
        merged_name(None, Some(id)) == id,
        merged_name(None, None) == "the other branch"@,
{
    let l = a + seq!['\''] + name + seq!['\''] + c;
    let v = seq![l];
    reading_lines_undoes_writing(v);
    assert(v.drop_last() =~= Seq::<Seq<char>>::empty());
    assert(joined(v, seq!['\n']) =~= l);
    let rest = name + seq!['\''] + c;
    assert(l =~= a + seq!['\''] + rest);
    cutting_undoes_joining(a, rest, '\'');
    lemma_first_char(l, '\'');
    let i = first_char(l, '\'');
    assert(l.take(i) == a);
    assert(i == a.len());
    let front = a + seq!['\''] + name;
    lemma_last_quote(front, c);
    assert(l =~= front + seq!['\''] + c);
    assert(l.subrange(a.len() as int + 1, front.len() as int) =~= name);
}

proof fn lemma_last_quote(a: Seq<char>, c: Seq<char>)
    requires
        !c.contains('\''),
    ensures
        last_char(a + seq!['\''] + c, '\'') == a.len(),
    decreases c.len(),
{
    let l = a + seq!['\''] + c;
    if c.len() > 0 {
        let d = c.drop_last();
        assert(!d.contains('\'')) by {
            if d.contains('\'') {
                let k = choose|k: int| 0 <= k < d.len() && d[k] == '\'';
                assert(c[k] == '\'');
            }
        }
        lemma_last_quote(a, d);
        assert(l.drop_last() =~= a + seq!['\''] + d);
        assert(l.last() == c.last());
        assert(c[c.len() - 1] != '\'');
    }
}

/// However a remote at GitHub is written, its address on the web is the same.
pub proof fn github_addresses_agree(r: Seq<char>)
    requires
        trimmed(r) == r,
        r.len() > 0,
        !finishes(r, ".git"@),
    ensures
        github_url("git@github.com:"@ + r) == Some("https://github.com/"@ + r),
        github_url("ssh://git@github.com/"@ + r) == Some("https://github.com/"@ + r),
        github_url("https://github.com/"@ + r) == Some("https://github.com/"@ + r),
        github_url("http://github.com/"@ + r) == Some("https://github.com/"@ + r),
        github_url("https://github.com/"@ + (r + ".git"@)) == Some("https://github.com/"@ + r),
        github_url("git@github.com:"@ + (r + ".git"@)) == Some("https://github.com/"@ + r),
{
    reveal_strlit("git@github.com:");
    reveal_strlit("ssh://git@github.com/");
    reveal_strlit("https://github.com/");
    reveal_strlit("http://github.com/");
    reveal_strlit(".git");
    let g = "git@github.com:"@;
    let s = "ssh://git@github.com/"@;
    let h = "https://github.com/"@;
    let p = "http://github.com/"@;
    let e = ".git"@;
    lemma_remote(g, r);
    lemma_remote(s, r);
    lemma_remote(h, r);
    lemma_remote(p, r);
    lemma_remote_git(h, r);
    lemma_remote_git(g, r);
    assert((s + r)[0] == 's');
    assert((h + r)[0] == 'h');
    assert((p + r)[0] == 'h' && (p + r)[4] == ':' && (h + r)[4] == 's');
    assert(begins(g + r, g)) by { assert((g + r).take(g.len() as int) =~= g); }
    assert(begins(s + r, s)) by { assert((s + r).take(s.len() as int) =~= s); }
    assert(begins(h + r, h)) by { assert((h + r).take(h.len() as int) =~= h); }
    assert(begins(p + r, p)) by { assert((p + r).take(p.len() as int) =~= p); }
    assert((g + r).skip(g.len() as int) =~= r);
    assert((s + r).skip(s.len() as int) =~= r);
    assert((h + r).skip(h.len() as int) =~= r);
    assert((p + r).skip(p.len() as int) =~= r);
    assert(!begins(s + r, g)) by { if begins(s + r, g) { assert((s + r).take(g.len() as int)[0] == g[0]); } }
    assert(!begins(h + r, g)) by { if begins(h + r, g) { assert((h + r).take(g.len() as int)[0] == g[0]); } }
    assert(!begins(p + r, g)) by { if begins(p + r, g) { assert((p + r).take(g.len() as int)[0] == g[0]); } }
    assert(!begins(h + r, s)) by { if begins(h + r, s) { assert((h + r).take(s.len() as int)[0] == s[0]); } }
    assert(!begins(p + r, s)) by { if begins(p + r, s) { assert((p + r).take(s.len() as int)[0] == s[0]); } }
    assert(!begins(p + r, h)) by { if begins(p + r, h) { assert((p + r).take(h.len() as int)[4] == h[4]); } }
}

proof fn lemma_remote(pre: Seq<char>, r: Seq<char>)
    requires
        pre.len() > 0,
        !is_space(pre[0]),
        trimmed(r) == r,
        r.len() > 0,
        !finishes(r, ".git"@),
        pre.last() == '/' || pre.last() == ':',
    ensures
        trimmed(pre + r) == pre + r,
        before_suffix(pre + r, ".git"@) is None,
{
    let t = pre + r;
    reveal_strlit(".git");
    lemma_not_blank(r);
    assert(trimmed_start(t) == t);
    assert(t.last() == r.last());
    if finishes(t, ".git"@) {
        let e = t.skip(t.len() - 4);
        assert(e == ".git"@);
        if r.len() >= 4 {
            assert(r.skip(r.len() - 4) =~= e);
        } else {
            assert(e[3 - r.len()] == pre.last());
            assert(e[0] == '.' && e[1] == 'g' && e[2] == 'i' && e[3] == 't');
        }
    }
}

proof fn lemma_remote_git(pre: Seq<char>, r: Seq<char>)
    requires
        pre.len() > 0,
        !is_space(pre[0]),
    ensures
        trimmed(pre + (r + ".git"@)) == pre + (r + ".git"@),
        before_suffix(pre + (r + ".git"@), ".git"@) == Some(pre + r),
{
    reveal_strlit(".git");
    let t = pre + (r + ".git"@);
    assert(t.last() == 't');
    assert(t[0] == pre[0]);
    assert(trimmed_start(t) == t);
    assert(t.skip(t.len() - 4) =~= ".git"@);
    assert(t.take(t.len() - 4) =~= pre + r);
}

proof fn lemma_not_blank(r: Seq<char>)
    requires
        trimmed(r) == r,
        r.len() > 0,
    ensures
        !is_space(r[0]),
        !is_space(r.last()),
{
    trimming_takes_blanks_only(r);
}

/// The branch that another was made from is the one that its oldest entry in the reflog names,
/// without its remote; a commit, the head or the branch itself is none.
pub proof fn reflogs_name_the_parent(newer: Seq<Seq<char>>, parent: Seq<char>, branch: Seq<char>)
    requires
        branch.len() > 0,
        trimmed(parent) == parent,
        parent.len() > 0,
        parent != branch,
        parent != "HEAD"@,
        !parent.contains('\n'),
        parent.last() != '\r',
        forall|i: int| 0 <= i < newer.len() ==> !(#[trigger] newer[i]).contains('\n') && (newer[i].len() > 0 ==> newer[i].last() != '\r'),
    ensures
        ({
            let s = joined(newer.push("branch: Created from "@ + parent), seq!['\n']);
            &&& !is_commit_id(parent) ==> parent_in_reflog(s, branch) == Some(bare_branch(parent))
            &&& is_commit_id(parent) ==> parent_in_reflog(s, branch) is None
            &&& parent_in_reflog(s, Seq::empty()) is None
        }),
{
    let l = "branch: Created from "@ + parent;
    let v = newer.push(l);
    reveal_strlit("branch: Created from ");
    reveal_strlit("Created from ");
    let c = "Created from "@;
    assert(!l.contains('\n')) by {
        if l.contains('\n') {
            let k = choose|k: int| 0 <= k < l.len() && l[k] == '\n';
            if k >= 21 {
                assert(parent[k - 21] == '\n');
                assert(parent.contains('\n'));
            }
        }
    }
    assert(l.last() == parent.last());
    assert forall|i: int| 0 <= i < v.len() implies !(#[trigger] v[i]).contains('\n') && (v[i].len() > 0 ==> v[i].last() != '\r') by {
        if i < newer.len() {
            assert(v[i] == newer[i]);
        }
    }
    reading_lines_undoes_writing(v);
    assert(v.last() == l);
    assert(occurs_at(l, c, 8)) by {
        assert(l.subrange(8, 21) =~= c);
    }
    assert forall|j: int| 0 <= j < 8 implies !occurs_at(l, c, j) by {
        if occurs_at(l, c, j) {
            assert(l.subrange(j, j + 13)[0] == l[j]);
            assert(l[j] != 'C');
        }
    }
    lemma_next_at(l, c, 0, Some(8int));
    assert(l.skip(21) =~= parent);
}

/// A commit's id is hexadecimal digits, as many as git prints at least.
pub proof fn commit_ids_are_hexadecimal(s: Seq<char>)
    ensures
        s.len() == 40 && (forall|i: int| 0 <= i < s.len() ==> ('0' <= #[trigger] s[i] <= '9') || ('a' <= s[i] <= 'f')) ==> is_commit_id(s),
        s.len() < 7 ==> !is_commit_id(s),
        (exists|i: int| 0 <= i < s.len() && 'g' <= #[trigger] s[i] <= 'z') ==> !is_commit_id(s),
{
}

/// An ignored directory goes by its path, without the slash that stands behind it.
pub proof fn ignored_directories_have_no_slash(root: PathView, rel: Seq<char>)
    requires
        trimmed(rel) == rel && trimmed(rel + seq!['/']) == rel + seq!['/'],
        rel.len() > 0 && rel.last() != '/',
    ensures
        ignored_entry(root, rel) == Some(joined_path(root, path_of(rel))),
        ignored_entry(root, rel + seq!['/']) == Some(joined_path(root, path_of(rel))),
{
    let s = rel + seq!['/'];
    assert(s.drop_last() =~= rel);
    assert(without_trailing(rel, '/') == rel);
    assert(without_trailing(s, '/') == without_trailing(s.drop_last(), '/'));
}

/// Every line that holds something names a path, in the order of the lines.
pub proof fn every_line_names_a_path(root: PathView, s: Seq<char>, i: int)
    requires
        0 <= i < line_seq(s).len(),
        trimmed(line_seq(s)[i]).len() > 0,
    ensures
        listed_paths(root, s).contains(joined_path(root, path_of(trimmed(line_seq(s)[i])))),
        listed_paths(root, s).len() <= line_seq(s).len(),
{
    let f = |l: Seq<char>| content_of(l);
    let l = line_seq(s)[i];
    let v = content_lines(s);
    assert(f(l) == Some(trimmed(l)));
    mapping_keeps_members(line_seq(s), f, trimmed(l));
    let k = choose|k: int| 0 <= k < v.len() && v[k] == trimmed(l);
    assert(listed_paths(root, s)[k] == joined_path(root, path_of(trimmed(l))));
}

/// Where every line holds something, the paths are those of the lines, one by one.
pub proof fn paths_keep_the_order_of_lines(root: PathView, s: Seq<char>, i: int)
    requires
        forall|k: int| 0 <= k < line_seq(s).len() ==> trimmed(#[trigger] line_seq(s)[k]).len() > 0,
        0 <= i < line_seq(s).len(),
    ensures
        listed_paths(root, s).len() == line_seq(s).len(),
        listed_paths(root, s)[i] == joined_path(root, path_of(trimmed(line_seq(s)[i]))),
{
    lemma_content_of_all(line_seq(s));
}

proof fn lemma_content_of_all(ls: Seq<Seq<char>>)
    requires
        forall|k: int| 0 <= k < ls.len() ==> trimmed(#[trigger] ls[k]).len() > 0,
    ensures
        filter_map(ls, |l: Seq<char>| content_of(l)) == ls.map_values(|l: Seq<char>| trimmed(l)),
    decreases ls.len(),
{
    let f = |l: Seq<char>| content_of(l);
    let g = |l: Seq<char>| trimmed(l);
    if ls.len() > 0 {
        lemma_content_of_all(ls.drop_last());
        assert(trimmed(ls[ls.len() - 1]).len() > 0);
        assert(f(ls.last()) == Some(trimmed(ls.last())));
    }
    assert(filter_map(ls, f) =~= ls.map_values(g));
}

/// A file is marked as viewed by the one mutation and loses its mark by the other.
pub proof fn marks_have_their_mutation()
    ensures
        mutation_text(true) == "mutation($id:ID!,$path:String!){ "@ + "markFileAsViewed"@
            + "(input:{pullRequestId:$id, path:$path}){ clientMutationId } }"@,
        mutation_text(false) == "mutation($id:ID!,$path:String!){ "@ + "unmarkFileAsViewed"@
            + "(input:{pullRequestId:$id, path:$path}){ clientMutationId } }"@,
{
}

/// The parent is what stands behind the mark in the last line that has one, without the blanks round
/// it; lines without the mark say nothing.
pub proof fn the_last_mark_names_the_parent(ls: Seq<Seq<char>>, l: Seq<char>)
    ensures
        after_first(l, "Created from "@) is Some ==> created_from(ls.push(l)) == Some(trimmed(after_first(l, "Created from "@)->0)),
        after_first(l, "Created from "@) is None ==> created_from(ls.push(l)) == created_from(ls),
        created_from(Seq::empty()) is None,
{
    assert(ls.push(l).drop_last() =~= ls);
    assert(ls.push(l).last() == l);
}

} // verus!
