//! The commit pane: which files are staged, the commit command, and what its keys do.
use vstd::prelude::*;
use crate::changes::{ChangesView, MarkFilter, RowWorld, change_rows, changes_view, commit_row_views, count_marked, look, no_path, shown_changes, toggle_all, toggled_all};
use crate::git::{GitStatus, by_path, change_paths, change_views};
use crate::keys::{Keystroke, percent_of};
use crate::outline::RowView;
use crate::path::{FilePath, PathSet, PathView, all_in, opt_path, path_views, rel_text, toggled};
use crate::text::{begins, cat, cat3, chars_of, dec, decimal, join, joined, texts, trim, trimmed};

verus! {

/// The state of the commit pane.
#[derive(Debug)]
pub struct CommitPane {
    pub view_filter: MarkFilter,
    pub checked: PathSet,
    pub collapsed: PathSet,
    pub selected: Option<FilePath>,
    pub wip_id: String,
}

/// The state as plain values.
pub ghost struct CommitPaneView {
    pub view_filter: MarkFilter,
    pub checked: Set<PathView>,
    pub collapsed: Set<PathView>,
    pub selected: Option<PathView>,
    pub wip_id: Seq<char>,
}

impl View for CommitPane {
    type V = CommitPaneView;

    open spec fn view(&self) -> CommitPaneView {
        CommitPaneView {
            view_filter: self.view_filter,
            checked: self.checked@,
            collapsed: self.collapsed@,
            selected: opt_path(self.selected),
            wip_id: self.wip_id@,
        }
    }
}

/// A text with a backslash before every quote.
pub open spec fn quoted(s: Seq<char>) -> Seq<char>
    decreases s.len(),
{
    if s.len() == 0 {
        s
    } else if s.last() == '"' {
        quoted(s.drop_last()) + seq!['\\', '"']
    } else {
        quoted(s.drop_last()).push(s.last())
    }
}

/// Puts a backslash before every quote.
pub fn quote(s: &str) -> (r: String)
    ensures
        r@ == quoted(s@),
{
    let v = chars_of(s);
    let mut out = String::new();
    let mut i: usize = 0;
    assert(s@.take(0) =~= Seq::<char>::empty());
    assert(out@ =~= quoted(s@.take(0)));
    while i < v.len()
        invariant
            i <= v.len(),
            v@ == s@,
            out@ == quoted(s@.take(i as int)),
        decreases v.len() - i,
    {
        proof {
            assert(s@.take(i + 1).drop_last() =~= s@.take(i as int));
            assert(s@.take(i + 1).last() == s@[i as int]);
        }
        let ghost was = out@;
        if v[i] == '"' {
            out.push('\\');
            out.push('"');
            assert(out@ =~= was + seq!['\\', '"']);
        } else {
            out.push(v[i]);
        }
        i = i + 1;
    }
    assert(s@.take(s@.len() as int) =~= s@);
    out
}

/// The message of a commit: the text, or a short one with an id where there is none.
pub open spec fn commit_message(text: Seq<char>, id: Seq<char>) -> Seq<char> {
    if trimmed(text).len() == 0 {
        "wip: "@ + id
    } else {
        trimmed(text)
    }
}

/// The shown paths of files, each in quotes.
pub open spec fn quoted_paths(root: PathView, v: Seq<PathView>) -> Seq<Seq<char>> {
    v.map_values(|p: PathView| "\""@ + rel_text(root, p) + "\""@)
}

/// The command that stages: the checked files, or everything where none is checked.
pub open spec fn add_command(root: PathView, checked: Seq<PathView>) -> Seq<char> {
    if checked.len() == 0 {
        "git add -A"@
    } else {
        "git add "@ + joined(quoted_paths(root, checked), seq![' '])
    }
}

/// The command that stages and commits, and pushes if asked to.
pub open spec fn commit_command(root: PathView, checked: Seq<PathView>, message: Seq<char>, push: bool) -> Seq<char> {
    let c = add_command(root, checked) + " && git commit -m \""@ + quoted(message) + "\""@;
    if push {
        c + " && git push -u origin HEAD"@
    } else {
        c
    }
}

/// What a key does in the list of changes.
#[derive(Debug)]
pub enum ChangesKey {
    CopyReference(FilePath),
    Refresh,
    ClearFilter,
    Open(FilePath),
    ConfirmDelete(FilePath),
    Edit,
    Nothing,
}

/// The path that such an action is about.
pub open spec fn changes_key_path(k: ChangesKey) -> Option<PathView> {
    match k {
        ChangesKey::CopyReference(p) => Some(p@),
        ChangesKey::Open(p) => Some(p@),
        ChangesKey::ConfirmDelete(p) => Some(p@),
        _ => None,
    }
}

impl CommitPane {
    /// The sets hold no path twice.
    pub open spec fn wf(&self) -> bool {
        self.checked.wf() && self.collapsed.wf()
    }

    /// An empty pane.
    pub fn new(wip_id: String) -> (r: CommitPane)
        ensures
            r.wf(),
            r@ == (CommitPaneView {
                view_filter: MarkFilter::All,
                checked: Set::empty(),
                collapsed: Set::empty(),
                selected: None,
                wip_id: wip_id@,
            }),
    {
        CommitPane {
            view_filter: MarkFilter::All,
            checked: PathSet::new(),
            collapsed: PathSet::new(),
            selected: None,
            wip_id,
        }
    }

    /// A click on a file selects it. Says whether it is to be opened: the click was a double one.
    pub fn click_file(&mut self, p: &FilePath, clicks: usize) -> (r: bool)
        requires
            old(self).wf(),
        ensures
            final(self).wf(),
            final(self)@ == (CommitPaneView { selected: Some(p@), ..old(self)@ }),
            r == (clicks >= 2),
    {
        self.selected = Some(p.copy());
        clicks >= 2
    }

    /// Checks a file, or takes the check away.
    pub fn toggle_checked(&mut self, p: &FilePath)
        requires
            old(self).wf(),
        ensures
            final(self).wf(),
            final(self)@ == (CommitPaneView {
                checked: toggled(old(self)@.checked, p@),
                ..old(self)@
            }),
    {
        self.checked.toggle(p);
    }

    /// Checks a group of files, or unchecks it where all of it is checked.
    pub fn toggle_checked_all(&mut self, paths: &Vec<FilePath>)
        requires
            old(self).wf(),
        ensures
            final(self).wf(),
            final(self)@ == (CommitPaneView {
                checked: toggled_all(old(self)@.checked, path_views(paths@)),
                ..old(self)@
            }),
    {
        toggle_all(&mut self.checked, paths);
    }

    /// Collapses a directory, or expands it.
    pub fn toggle_collapsed(&mut self, key: &FilePath)
        requires
            old(self).wf(),
        ensures
            final(self).wf(),
            final(self)@ == (CommitPaneView {
                collapsed: toggled(old(self)@.collapsed, key@),
                ..old(self)@
            }),
    {
        self.collapsed.toggle(key);
    }

    /// Goes to the pane with the active file alone checked, where it is changed.
    pub fn goto_commit(&mut self, active: &Option<FilePath>, git: &GitStatus)
        requires
            old(self).wf(),
            git.wf(),
        ensures
            final(self).wf(),
            final(self)@ == (CommitPaneView {
                checked: match opt_path(*active) {
                    Some(p) => if git@.dom().contains(p) {
                        set![p]
                    } else {
                        Set::empty()
                    },
                    None => Set::empty(),
                },
                ..old(self)@
            }),
    {
        let mut s = PathSet::new();
        if let Some(p) = active {
            if let Some(_) = git.get(p) {
                let _ = s.insert(p.copy());
                assert(s@ =~= set![p@]);
            }
        }
        self.checked = s;
    }

    /// The command of a commit with the message `text`. Afterwards nothing is checked, and
    /// the next short message has a new id.
    pub fn do_commit(&mut self, root: &FilePath, text: &str, push: bool, next_id: String) -> (r: String)
        requires
            old(self).wf(),
        ensures
            final(self).wf(),
            r@ == commit_command(
                root@,
                path_views(old(self).checked.items@),
                commit_message(text@, old(self)@.wip_id),
                push,
            ),
            final(self)@ == (CommitPaneView {
                checked: Set::empty(),
                wip_id: next_id@,
                ..old(self)@
            }),
    {
        let t = trim(text);
        let msg = if t.as_str().is_empty() {
            cat("wip: ", self.wip_id.as_str())
        } else {
            t
        };
        let safe = quote(msg.as_str());
        let ghost pv = path_views(self.checked.items@);
        let ghost want = quoted_paths(root@, pv);
        let add = if self.checked.items.len() == 0 {
            "git add -A".to_owned()
        } else {
            let mut v: Vec<String> = Vec::new();
            let mut i: usize = 0;
            while i < self.checked.items.len()
                invariant
                    i <= self.checked.items.len(),
                    *self == *old(self),
                    pv == path_views(self.checked.items@),
                    want == quoted_paths(root@, pv),
                    v.len() == i,
                    forall|j: int| 0 <= j < i ==> (#[trigger] v@[j])@ == want[j],
                decreases self.checked.items.len() - i,
            {
                let rel = root.rel(&self.checked.items[i]);
                v.push(cat3("\"", rel.as_str(), "\""));
                i = i + 1;
            }
            assert(texts(v@) =~= want);
            proof {
                reveal_strlit(" ");
                assert(" "@ =~= seq![' ']);
            }
            let list = join(&v, " ");
            cat("git add ", list.as_str())
        };
        let head = cat3(add.as_str(), " && git commit -m \"", safe.as_str());
        let cmd = cat(head.as_str(), "\"");
        let r = if push {
            cat(cmd.as_str(), " && git push -u origin HEAD")
        } else {
            cmd
        };
        self.checked = PathSet::new();
        self.wip_id = next_id;
        r
    }

    /// Forgets the selection of a path that was deleted.
    pub fn deleted(&mut self, p: &FilePath)
        requires
            old(self).wf(),
        ensures
            final(self).wf(),
            final(self)@ == (CommitPaneView {
                selected: if old(self)@.selected == Some(p@) {
                    None
                } else {
                    old(self)@.selected
                },
                ..old(self)@
            }),
    {
        let gone = match &self.selected {
            Some(s) => s.same(p),
            None => false,
        };
        if gone {
            self.selected = None;
        }
    }

    /// A key in the list of changes. `filter_empty` says whether the filter box is empty,
    /// `is_file` whether the selected path is a file on disk.
    pub fn changes_key(&self, k: &Keystroke, filter_empty: bool, is_file: bool) -> (r: ChangesKey)
        ensures
            ({
                let k = k@;
                let s = self@.selected;
                if k.platform && k.shift && k.key == "c"@ {
                    if s is Some {
                        r is CopyReference && changes_key_path(r) == s
                    } else {
                        r is Nothing
                    }
                } else if k.platform && k.key == "r"@ {
                    r is Refresh
                } else if k.platform {
                    r is Nothing
                } else if k.key == "escape"@ {
                    if filter_empty {
                        r is Nothing
                    } else {
                        r is ClearFilter
                    }
                } else if (k.key == "f4"@ || k.key == "enter"@) && !k.shift {
                    if s is Some && is_file {
                        r is Open && changes_key_path(r) == s
                    } else {
                        r is Nothing
                    }
                } else if (k.key == "backspace"@ && filter_empty) || k.key == "delete"@ {
                    if s is Some {
                        r is ConfirmDelete && changes_key_path(r) == s
                    } else {
                        r is Nothing
                    }
                } else {
                    r is Edit
                }
            }),
    {
        if k.platform && k.shift && k.is("c") {
            return match &self.selected {
                Some(p) => ChangesKey::CopyReference(p.copy()),
                None => ChangesKey::Nothing,
            };
        }
        if k.platform && k.is("r") {
            return ChangesKey::Refresh;
        }
        if k.platform {
            return ChangesKey::Nothing;
        }
        if k.is("escape") {
            return if filter_empty {
                ChangesKey::Nothing
            } else {
                ChangesKey::ClearFilter
            };
        }
        if (k.is("f4") || k.is("enter")) && !k.shift {
            return match &self.selected {
                Some(p) => if is_file {
                    ChangesKey::Open(p.copy())
                } else {
                    ChangesKey::Nothing
                },
                None => ChangesKey::Nothing,
            };
        }
        if (k.is("backspace") && filter_empty) || k.is("delete") {
            return match &self.selected {
                Some(p) => ChangesKey::ConfirmDelete(p.copy()),
                None => ChangesKey::Nothing,
            };
        }
        ChangesKey::Edit
    }

    /// The whole pane as it is drawn.
    pub fn view_changes(&self, root: &FilePath, git: &GitStatus, filter: &str, active: &Option<FilePath>) -> (r: ChangesView)
        ensures
            ({
                let cv = by_path(change_views(git.items@));
                let shown = shown_changes(root@, cv, filter@, self@.view_filter, self@.checked);
                let w = RowWorld {
                    root: root@,
                    files: shown,
                    marked: self@.checked,
                    collapsed: self@.collapsed,
                    selected: self@.selected,
                    active: opt_path(*active),
                    review: false,
                };
                &&& change_views(r.files@) == shown
                &&& r.collapsed == self@.collapsed.contains(no_path())
                &&& commit_row_views(r.rows@) == if r.collapsed {
                    Seq::empty()
                } else {
                    change_rows(root@, shown, 1, self@.collapsed).map_values(|x: RowView| look(w, x))
                }
                &&& r.group_marked == (shown.len() > 0 && all_in(change_paths(shown), self@.checked))
                &&& r.total == cv.len()
                &&& r.marked == count_marked(cv, self@.checked)
                &&& r.percent == percent_of(r.marked as int, r.total as int)
            }),
    {
        let all = git.sorted_changes();
        changes_view(
            root,
            &all,
            filter,
            self.view_filter,
            &self.checked,
            &self.collapsed,
            &self.selected,
            active,
            false,
        )
    }
}

/// What a key does in the box of the commit message.
#[derive(Clone, Copy, Debug, PartialEq, Eq, Structural)]
pub enum MessageKey {
    Leave,
    Commit,
    Edit,
}

/// Escape leaves the box, a command enter commits, the rest is typed.
pub fn commit_key(k: &Keystroke) -> (r: MessageKey)
    ensures
        r == if k@.key == "escape"@ {
            MessageKey::Leave
        } else if k@.key == "enter"@ && k@.platform {
            MessageKey::Commit
        } else {
            MessageKey::Edit
        },
{
    if k.is("escape") {
        MessageKey::Leave
    } else if k.is("enter") && k.platform {
        MessageKey::Commit
    } else {
        MessageKey::Edit
    }
}

/// What the header of the pane says.
pub fn commit_header(count: usize) -> (r: String)
    ensures
        r@ == "COMMIT  ·  "@ + dec(count as nat) + " changed"@,
{
    let d = decimal(count as u64);
    cat3("COMMIT  ·  ", d.as_str(), " changed")
}

/// A text without the backslashes before its quotes.
pub open spec fn unquoted(s: Seq<char>) -> Seq<char>
    decreases s.len(),
{
    if s.len() == 0 {
        s
    } else if s.len() >= 2 && s.last() == '"' && s[s.len() - 2] == '\\' {
        unquoted(s.drop_last().drop_last()).push('"')
    } else {
        unquoted(s.drop_last()).push(s.last())
    }
}

/// A quoted message holds the message: taking the backslashes before its quotes away gives it
/// back.
pub proof fn unquoting_restores_the_message(s: Seq<char>)
    ensures
        unquoted(quoted(s)) == s,
    decreases s.len(),
{
    if s.len() > 0 {
        unquoting_restores_the_message(s.drop_last());
        let q = quoted(s.drop_last());
        if s.last() == '"' {
            let t = q + seq!['\\', '"'];
            assert(t.last() == '"' && t[t.len() - 2] == '\\');
            assert(t.drop_last().drop_last() =~= q);
        } else {
            let t = q.push(s.last());
            assert(t.drop_last() =~= q);
        }
        assert(s.drop_last().push(s.last()) =~= s);
    }
}

// ── what a commit stages and says ───────────────────────────────────────────

/// The files that are named behind `git add`: each in quotes, with a blank between any two.
pub open spec fn staged_names(root: PathView, v: Seq<PathView>) -> Seq<char>
    decreases v.len(),
{
    if v.len() == 0 {
        Seq::empty()
    } else if v.len() == 1 {
        "\""@ + rel_text(root, v[0]) + "\""@
    } else {
        staged_names(root, v.drop_last()) + " \""@ + rel_text(root, v.last()) + "\""@
    }
}

proof fn lemma_staged(root: PathView, v: Seq<PathView>)
    requires
        v.len() > 0,
    ensures
        joined(quoted_paths(root, v), seq![' ']) == staged_names(root, v),
        staged_names(root, v).len() > 0,
        staged_names(root, v)[0] == '"',
    decreases v.len(),
{
    let q = quoted_paths(root, v);
    reveal_strlit("\"");
    reveal_strlit(" \"");
    assert("\""@ =~= seq!['"']);
    assert(" \""@ =~= seq![' ', '"']);
    if v.len() == 1 {
        assert(q =~= seq![q[0]]);
        assert(q.drop_last() =~= Seq::<Seq<char>>::empty());
        assert(joined(q, seq![' ']) =~= q[0]);
    } else {
        lemma_staged(root, v.drop_last());
        assert(q.drop_last() =~= quoted_paths(root, v.drop_last()));
        assert(q.last() == "\""@ + rel_text(root, v.last()) + "\""@);
        assert(joined(q, seq![' ']) =~= staged_names(root, v));
    }
}

/// A commit stages the checked files and no others, pushed or not; where none is checked it stages
/// everything. The message stands in quotes behind it.
pub proof fn checked_files_are_staged(root: PathView, v: Seq<PathView>, m: Seq<char>, push: bool)
    ensures
        v.len() > 0 ==> begins(
            commit_command(root, v, m, push),
            "git add "@ + staged_names(root, v) + " && git commit -m \""@ + quoted(m) + "\""@,
        ),
        v.len() > 0 ==> commit_command(root, v, m, push)[8] == '"',
        v.len() == 0 ==> begins(
            commit_command(root, v, m, push),
            "git add -A && git commit -m \""@ + quoted(m) + "\""@,
        ),
{
    let c = commit_command(root, v, m, push);
    if v.len() > 0 {
        lemma_staged(root, v);
        let want = "git add "@ + staged_names(root, v) + " && git commit -m \""@ + quoted(m) + "\""@;
        assert(c.take(want.len() as int) =~= want);
        reveal_strlit("git add ");
        assert("git add "@.len() == 8);
        assert(want[8] == staged_names(root, v)[0]);
        assert(c.take(want.len() as int)[8] == c[8]);
    } else {
        let want = "git add -A && git commit -m \""@ + quoted(m) + "\""@;
        reveal_strlit("git add -A");
        reveal_strlit(" && git commit -m \"");
        reveal_strlit("git add -A && git commit -m \"");
        assert("git add -A && git commit -m \""@ =~= "git add -A"@ + " && git commit -m \""@);
        assert(c.take(want.len() as int) =~= want);
    }
}

/// Pushing adds the push behind the commit and changes nothing else.
pub proof fn a_push_follows_the_commit(root: PathView, v: Seq<PathView>, m: Seq<char>)
    ensures
        commit_command(root, v, m, true) == commit_command(root, v, m, false) + " && git push -u origin HEAD"@,
        commit_command(root, v, m, false).last() == '"',
        commit_command(root, v, m, false).len() == add_command(root, v).len() + " && git commit -m \""@.len() + quoted(m).len() + 1,
{
    reveal_strlit("\"");
}

/// The message is what was typed without blanks round it; where nothing was typed it is made up of
/// the id.
pub proof fn a_commit_has_a_message(text: Seq<char>, id: Seq<char>)
    ensures
        trimmed(text).len() > 0 ==> commit_message(text, id) == trimmed(text),
        trimmed(text).len() == 0 ==> commit_message(text, id) == "wip: "@ + id,
        commit_message(text, id).len() > 0,
{
    reveal_strlit("wip: ");
}

/// In a quoted message every quote has a backslash before it, so that none ends the text early.
pub proof fn every_quote_is_escaped(s: Seq<char>, i: int)
    requires
        0 <= i < quoted(s).len(),
        quoted(s)[i] == '"',
    ensures
        i > 0 && quoted(s)[i - 1] == '\\',
    decreases s.len(),
{
    if s.len() > 0 {
        let q = quoted(s.drop_last());
        if i < q.len() {
            assert(quoted(s)[i] == q[i]);
            every_quote_is_escaped(s.drop_last(), i);
            assert(quoted(s)[i - 1] == q[i - 1]);
        }
    }
}

/// A message without quotes is passed on as it is.
pub proof fn plain_messages_stay(s: Seq<char>)
    requires
        !s.contains('"'),
    ensures
        quoted(s) == s,
    decreases s.len(),
{
    if s.len() > 0 {
        let t = s.drop_last();
        assert(!t.contains('"')) by {
            if t.contains('"') {
                let k = choose|k: int| 0 <= k < t.len() && t[k] == '"';
                assert(s[k] == '"');
            }
        }
        plain_messages_stay(t);
        assert(s[s.len() - 1] == s.last());
        assert(t.push(s.last()) =~= s);
    }
}

} // verus!
