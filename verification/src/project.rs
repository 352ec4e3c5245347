//! The files of a window: its tree and its tabs, kept in step, and the context menus on them.
use vstd::prelude::*;
use crate::filetree::{FileTree, FileTreeView, Listing, ListingView, TreeWorld, listing_views, longest_path, revealed, tree_entries};
use crate::keys::Keystroke;
use crate::path::{FilePath, PathSet, PathView, opt_path, parent_of, path_text, path_views, rel_text};
use crate::prompts::new_file_dir;
use crate::tabs::{Opened, Tabs, active_after_close, opened};
use crate::text::{dec, digit_char, digits_count_in_tens, number_to, parse_usize, reading_undoes_writing};

verus! {

/// The tree and the tabs of a window.
#[derive(Debug)]
pub struct Project {
    pub tree: FileTree,
    pub tabs: Tabs,
}

/// The editor that is saved when the active tab is left.
pub open spec fn leaving(s: Tabs) -> Option<usize> {
    match s.list.current() {
        Some(t) => if t.scratch {
            None
        } else {
            Some(t.editor)
        },
        None => None,
    }
}

/// The path of the active tab.
pub open spec fn active_file(s: Tabs) -> Option<PathView> {
    match s.list.current() {
        Some(t) => Some(t.path@),
        None => None,
    }
}

/// The tree with a path selected and all above it expanded.
pub open spec fn showing(t: FileTreeView, p: PathView) -> FileTreeView {
    FileTreeView { selected: Some(p), expanded: revealed(t.expanded, t.root, p), ..t }
}

/// What the tree of a window is listed from at first: the root alone is expanded.
pub open spec fn first_world(listings: Seq<ListingView>, root: PathView, ignored: Set<PathView>) -> TreeWorld {
    TreeWorld { listings, expanded: set![root], ignored, limit: root.parts.len() }
}

proof fn lemma_only_path(v: Seq<PathView>, p: PathView)
    requires
        v.no_duplicates(),
        forall|q: PathView| v.contains(q) <==> q == p,
    ensures
        longest_path(v) == p.parts.len(),
{
    assert(v.contains(p));
    let i = choose|i: int| 0 <= i < v.len() && v[i] == p;
    if v.len() > 1 {
        assert(v.contains(v[0]) && v.contains(v[1]));
        assert(v[0] == v[1]);
    }
    assert(v.len() == 1);
    assert(v.last() == p);
    assert(longest_path(v.drop_last()) == 0);
}

/// An action of the editor's context menu.
#[derive(Clone, Copy, Debug, PartialEq, Eq, Structural)]
pub enum EditorAction {
    Reveal,
    CopyFullPath,
    CopyPath,
    CloseTab,
}

/// An action of the tree's context menu.
#[derive(Clone, Copy, Debug, PartialEq, Eq, Structural)]
pub enum TreeAction {
    NewFile,
    RevealInFinder,
    CopyFullPath,
    CopyPath,
    Refresh,
    Delete,
}

/// The actions of the editor's context menu, in their order.
pub open spec fn editor_actions() -> Seq<EditorAction> {
    seq![
        EditorAction::Reveal,
        EditorAction::CopyFullPath,
        EditorAction::CopyPath,
        EditorAction::CloseTab,
    ]
}

/// The actions of the tree's context menu, in their order.
pub open spec fn tree_actions() -> Seq<TreeAction> {
    seq![
        TreeAction::NewFile,
        TreeAction::RevealInFinder,
        TreeAction::CopyFullPath,
        TreeAction::CopyPath,
        TreeAction::Refresh,
        TreeAction::Delete,
    ]
}

/// The actions of the editor's context menu with their labels.
pub fn editor_ctx_actions() -> (r: Vec<(EditorAction, &'static str)>)
    ensures
        r@.len() == editor_actions().len(),
        forall|i: int| 0 <= i < r@.len() ==> (#[trigger] r@[i]).0 == editor_actions()[i],
        r@[0].1@ == "Reveal in Dir Tree"@,
        r@[1].1@ == "Copy Full Path"@,
        r@[2].1@ == "Copy Path"@,
        r@[3].1@ == "Close Tab"@,
{
    vec![
        (EditorAction::Reveal, "Reveal in Dir Tree"),
        (EditorAction::CopyFullPath, "Copy Full Path"),
        (EditorAction::CopyPath, "Copy Path"),
        (EditorAction::CloseTab, "Close Tab"),
    ]
}

/// The actions of the tree's context menu with their labels.
pub fn tree_ctx_actions() -> (r: Vec<(TreeAction, &'static str)>)
    ensures
        r@.len() == tree_actions().len(),
        forall|i: int| 0 <= i < r@.len() ==> (#[trigger] r@[i]).0 == tree_actions()[i],
        r@[0].1@ == "New File"@,
        r@[1].1@ == "Reveal in Finder"@,
        r@[2].1@ == "Copy Full Path"@,
        r@[3].1@ == "Copy Path"@,
        r@[4].1@ == "Refresh"@,
        r@[5].1@ == "Delete"@,
{
    vec![
        (TreeAction::NewFile, "New File"),
        (TreeAction::RevealInFinder, "Reveal in Finder"),
        (TreeAction::CopyFullPath, "Copy Full Path"),
        (TreeAction::CopyPath, "Copy Path"),
        (TreeAction::Refresh, "Refresh"),
        (TreeAction::Delete, "Delete"),
    ]
}

/// The place in a menu of `n` actions that a key names: 1 is the first.
pub open spec fn menu_place(key: Seq<char>, n: int) -> Option<int> {
    match number_to(key, usize::MAX as nat) {
        Some(k) => if 1 <= k <= n {
            Some(k - 1)
        } else {
            None
        },
        None => None,
    }
}

fn menu_index(key: &str, n: usize) -> (r: Option<usize>)
    ensures
        match r {
            Some(i) => menu_place(key@, n as int) == Some(i as int) && i < n,
            None => menu_place(key@, n as int) is None,
        },
{
    match parse_usize(key) {
        Some(k) => if k >= 1 && k <= n {
            Some(k - 1)
        } else {
            None
        },
        None => None,
    }
}

/// What a key does in an open context menu.
#[derive(Clone, Copy, Debug, PartialEq, Eq, Structural)]
pub enum MenuKey {
    Close,
    RunEditor(EditorAction),
    RunTree(TreeAction),
    Nothing,
}

/// A key while the editor's context menu is open.
pub open spec fn editor_menu_key(key: Seq<char>) -> MenuKey {
    if key == "escape"@ {
        MenuKey::Close
    } else {
        match menu_place(key, editor_actions().len() as int) {
            Some(i) => MenuKey::RunEditor(editor_actions()[i]),
            None => MenuKey::Nothing,
        }
    }
}

/// A key while the tree's context menu is open.
pub open spec fn tree_menu_key(key: Seq<char>) -> MenuKey {
    if key == "escape"@ {
        MenuKey::Close
    } else {
        match menu_place(key, tree_actions().len() as int) {
            Some(i) => MenuKey::RunTree(tree_actions()[i]),
            None => MenuKey::Nothing,
        }
    }
}

/// A key while the editor's context menu is open: escape closes it, a digit runs an action.
pub fn editor_ctx_key(k: &Keystroke) -> (r: MenuKey)
    ensures
        r == editor_menu_key(k@.key),
{
    if k.is("escape") {
        return MenuKey::Close;
    }
    let v = editor_ctx_actions();
    match menu_index(k.key.as_str(), v.len()) {
        Some(i) => MenuKey::RunEditor(v[i].0),
        None => MenuKey::Nothing,
    }
}

/// A key while the tree's context menu is open: escape closes it, a digit runs an action.
pub fn tree_ctx_key(k: &Keystroke) -> (r: MenuKey)
    ensures
        r == tree_menu_key(k@.key),
{
    if k.is("escape") {
        return MenuKey::Close;
    }
    let v = tree_ctx_actions();
    match menu_index(k.key.as_str(), v.len()) {
        Some(i) => MenuKey::RunTree(v[i].0),
        None => MenuKey::Nothing,
    }
}

/// What running an action of the editor's menu asks for.
#[derive(Debug)]
pub enum EditorRun {
    /// The tree has changed; it has the keyboard.
    Revealed,
    /// Copy this text and say so.
    Copy(String, &'static str),
    /// The active tab is to be closed.
    CloseTab,
    Nothing,
}

/// What running an action of the tree's menu asks for.
#[derive(Debug)]
pub enum TreeRun {
    /// Ask for the name of a new file in this directory.
    AskName(FilePath),
    /// Show this path in the file manager.
    RevealOutside(FilePath),
    /// Copy this text and say so.
    Copy(String, &'static str),
    /// Read the directories anew.
    Rebuild,
    /// Ask whether to delete.
    Confirm,
    Nothing,
}

/// What running an action of the editor's menu asks for: that a text is copied, with what to say
/// of it, that the tab is closed, or nothing where no file is open.
pub open spec fn editor_run(o: Project, a: EditorAction, r: EditorRun) -> bool {
    let p = active_file(o.tabs);
    match a {
        EditorAction::CloseTab => r is CloseTab,
        EditorAction::Reveal => if p is Some {
            r is Revealed
        } else {
            r is Nothing
        },
        EditorAction::CopyFullPath => match p {
            Some(p) => r is Copy && r->Copy_0@ == path_text(p) && r->Copy_1@
                == "Full path copied"@,
            None => r is Nothing,
        },
        EditorAction::CopyPath => match p {
            Some(p) => r is Copy && r->Copy_0@ == rel_text(o.tree@.root, p) && r->Copy_1@
                == "Reference copied"@,
            None => r is Nothing,
        },
    }
}

/// What running an action of the tree's menu on `p` asks for.
pub open spec fn tree_run(o: Project, a: TreeAction, p: Option<PathView>, is_dir: bool, r: TreeRun) -> bool {
    match a {
        TreeAction::NewFile => {
            &&& r is AskName
            &&& r->AskName_0@ == match p {
                Some(p) => if is_dir {
                    p
                } else {
                    match parent_of(p) {
                        Some(d) => d,
                        None => o.tree@.root,
                    }
                },
                None => o.tree@.root,
            }
        },
        TreeAction::Refresh => r is Rebuild,
        TreeAction::RevealInFinder => match p {
            Some(p) => r is RevealOutside && r->RevealOutside_0@ == p,
            None => r is Nothing,
        },
        TreeAction::CopyFullPath => match p {
            Some(p) => r is Copy && r->Copy_0@ == path_text(p) && r->Copy_1@
                == "Full path copied"@,
            None => r is Nothing,
        },
        TreeAction::CopyPath => match p {
            Some(p) => r is Copy && r->Copy_0@ == rel_text(o.tree@.root, p) && r->Copy_1@
                == "Reference copied"@,
            None => r is Nothing,
        },
        TreeAction::Delete => if p is Some {
            r is Confirm
        } else {
            r is Nothing
        },
    }
}

/// The tree after an action of its menu: to refresh a directory expands it, and to delete is
/// asked first.
pub open spec fn tree_after_run(t: FileTreeView, a: TreeAction, p: Option<PathView>, is_dir: bool) -> FileTreeView {
    if p is Some && a == TreeAction::Refresh && is_dir {
        FileTreeView { expanded: t.expanded.insert(p->0), ..t }
    } else if p is Some && a == TreeAction::Delete {
        FileTreeView { confirm_delete: p, ..t }
    } else {
        t
    }
}

impl Project {
    /// The tree and the list of tabs are in order.
    pub open spec fn wf(&self) -> bool {
        self.tree.wf() && self.tabs.wf()
    }

    /// A project whose root is expanded and listed, and of which no file is open.
    pub fn new(root: FilePath, ignored: PathSet, listings: &Vec<Listing>) -> (r: Project)
        requires
            ignored.wf(),
        ensures
            r.wf(),
            r.tree@ == (FileTreeView {
                root: root@,
                expanded: set![root@],
                ignored: ignored@,
                entries: tree_entries(first_world(listing_views(listings@), root@, ignored@), root@),
                selected: None,
                multi: Set::empty(),
                clipboard: None,
                confirm_delete: None,
            }),
            r.tabs.list.items@.len() == 0,
            r.tabs.list.active == 0,
            r.tabs.scratch_count == 0,
    {
        let ghost rv = root@;
        let ghost iv = ignored@;
        let mut tree = FileTree::new(root, ignored);
        proof {
            let v = path_views(tree.expanded.items@);
            assert forall|q: PathView| v.contains(q) <==> q == rv by {
                assert(tree.expanded@.contains(q) <==> v.contains(q));
            }
            lemma_only_path(v, rv);
            assert(tree.world(listing_views(listings@)) == first_world(
                listing_views(listings@),
                rv,
                iv,
            ));
        }
        tree.rebuild(listings);
        Project { tree, tabs: Tabs::new() }
    }

    /// The number of the editor that has the keyboard when a popup closes: that of the active
    /// tab. The root of the window has it where no file is open.
    pub fn focus_active(&self) -> (r: Option<usize>)
        ensures
            r == match self.tabs.list.current() {
                Some(t) => Some(t.editor),
                None => None,
            },
    {
        if self.tabs.list.active < self.tabs.list.items.len() {
            Some(self.tabs.list.items[self.tabs.list.active].editor)
        } else {
            None
        }
    }

    /// The editor to save when the active tab is left.
    pub fn save_active(&self) -> (r: Option<usize>)
        ensures
            r == leaving(self.tabs),
    {
        self.tabs.saved_on_leave(self.tabs.list.active)
    }

    /// The ignored paths were read anew. Says whether the tree has to be listed anew.
    pub fn ignored_read(&mut self, ignored: PathSet) -> (r: bool)
        requires
            old(self).wf(),
            ignored.wf(),
        ensures
            final(self).wf(),
            r == (ignored@ != old(self).tree@.ignored),
            final(self).tree@ == (FileTreeView { ignored: ignored@, ..old(self).tree@ }),
            final(self).tabs == old(self).tabs,
    {
        let changed = !ignored.equal(&self.tree.ignored);
        if changed {
            self.tree.ignored = ignored;
        }
        changed
    }

    /// Opens a file in a tab and shows it in the tree. Gives the editor to save, and the tab.
    pub fn open_file(&mut self, path: &FilePath, fresh: usize) -> (r: (Option<usize>, Opened))
        requires
            old(self).wf(),
        ensures
            final(self).wf(),
            r.0 == leaving(old(self).tabs),
            final(self).tree@ == showing(old(self).tree@, path@),
            opened(old(self).tabs, final(self).tabs, path@, fresh, r.1),
    {
        let e = self.save_active();
        let o = self.tabs.open_file(path, fresh);
        self.tree.show(path);
        (e, o)
    }

    /// Selects a folder in the tree, expanded.
    pub fn open_folder(&mut self, p: &FilePath)
        requires
            old(self).wf(),
        ensures
            final(self).wf(),
            final(self).tree@ == showing(
                FileTreeView { expanded: old(self).tree@.expanded.insert(p@), ..old(self).tree@ },
                p@,
            ),
            final(self).tabs == old(self).tabs,
    {
        let _ = self.tree.expanded.insert(p.copy());
        self.tree.show(p);
    }

    /// Shows the active file in the tree. Says whether there is one.
    pub fn reveal_active_in_tree(&mut self) -> (r: bool)
        requires
            old(self).wf(),
        ensures
            final(self).wf(),
            final(self).tabs == old(self).tabs,
            r == (active_file(old(self).tabs) is Some),
            final(self).tree@ == match active_file(old(self).tabs) {
                Some(p) => showing(old(self).tree@, p),
                None => old(self).tree@,
            },
    {
        match self.tabs.active_path() {
            Some(p) => {
                self.tree.show(&p);
                true
            },
            None => false,
        }
    }

    /// Goes to tab `ix` and shows its file in the tree. Gives the editor to save, and whether
    /// there is such a tab.
    pub fn switch_tab(&mut self, ix: usize) -> (r: (Option<usize>, bool))
        requires
            old(self).wf(),
        ensures
            final(self).wf(),
            r.1 == (ix < old(self).tabs.list.items@.len()),
            r.0 == if !r.1 || ix == old(self).tabs.list.active {
                None
            } else {
                leaving(old(self).tabs)
            },
            final(self).tabs.list.items == old(self).tabs.list.items,
            final(self).tabs.scratch_count == old(self).tabs.scratch_count,
            final(self).tabs.list.active == if r.1 {
                ix
            } else {
                old(self).tabs.list.active
            },
            final(self).tree@ == if r.1 {
                showing(old(self).tree@, old(self).tabs.list.items@[ix as int].path@)
            } else {
                old(self).tree@
            },
    {
        if ix >= self.tabs.list.items.len() {
            return (None, false);
        }
        let e = if ix != self.tabs.list.active {
            self.save_active()
        } else {
            None
        };
        let _ = self.tabs.list.switch(ix);
        let p = self.tabs.list.items[ix].path.copy();
        self.tree.show(&p);
        (e, true)
    }

    /// Closes tab `ix`; the tree selects the file that is active then. Gives the editor to save.
    pub fn close_tab(&mut self, ix: usize) -> (r: Option<usize>)
        requires
            old(self).wf(),
        ensures
            final(self).wf(),
            final(self).tabs.scratch_count == old(self).tabs.scratch_count,
            ({
                let o = old(self).tabs.list;
                let n = o.items@.len() as int;
                if ix >= n {
                    r is None && *final(self) == *old(self)
                } else {
                    &&& r == if o.items@[ix as int].scratch {
                        None
                    } else {
                        Some(o.items@[ix as int].editor)
                    }
                    &&& final(self).tabs.list.items@ == o.items@.remove(ix as int)
                    &&& final(self).tabs.list.active == active_after_close(
                        o.active as int,
                        ix as int,
                        n,
                    )
                    &&& final(self).tree@ == (FileTreeView {
                        selected: match active_file(final(self).tabs) {
                            Some(p) => Some(p),
                            None => old(self).tree@.selected,
                        },
                        ..old(self).tree@
                    })
                }
            }),
    {
        let e = self.tabs.saved_on_leave(ix);
        match self.tabs.list.close(ix) {
            None => None,
            Some(_) => {
                if let Some(p) = self.tabs.active_path() {
                    self.tree.selected = Some(p);
                }
                e
            },
        }
    }

    /// Closes all tabs but the active one.
    pub fn close_other_tabs(&mut self)
        requires
            old(self).wf(),
        ensures
            final(self).wf(),
            final(self).tree == old(self).tree,
            final(self).tabs.scratch_count == old(self).tabs.scratch_count,
            if old(self).tabs.list.items@.len() == 0 {
                final(self).tabs == old(self).tabs
            } else {
                &&& final(self).tabs.list.items@ == seq![
                    old(self).tabs.list.items@[old(self).tabs.list.active as int],
                ]
                &&& final(self).tabs.list.active == 0
            },
    {
        let _ = self.tabs.list.close_others();
    }

    /// Runs an action of the editor's context menu. A text that is to be copied comes with what
    /// to say of it.
    pub fn editor_ctx_run(&mut self, a: EditorAction) -> (r: EditorRun)
        requires
            old(self).wf(),
        ensures
            final(self).wf(),
            final(self).tabs == old(self).tabs,
            ({
                let o = *old(self);
                let p = active_file(o.tabs);
                &&& final(self).tree@ == if a == EditorAction::Reveal && p is Some {
                    showing(o.tree@, p->0)
                } else {
                    o.tree@
                }
                &&& editor_run(o, a, r)
            }),
    {
        match a {
            EditorAction::CloseTab => EditorRun::CloseTab,
            EditorAction::Reveal => if self.reveal_active_in_tree() {
                EditorRun::Revealed
            } else {
                EditorRun::Nothing
            },
            EditorAction::CopyFullPath => match self.tabs.active_path() {
                Some(p) => EditorRun::Copy(p.to_text(), "Full path copied"),
                None => EditorRun::Nothing,
            },
            EditorAction::CopyPath => match self.tabs.active_path() {
                Some(p) => EditorRun::Copy(self.tree.root.rel(&p), "Reference copied"),
                None => EditorRun::Nothing,
            },
        }
    }

    /// Runs an action of the tree's context menu on the path it was opened on. `is_dir` says
    /// whether that path is a directory on disk.
    pub fn tree_ctx_run(&mut self, a: TreeAction, on: &Option<FilePath>, is_dir: bool) -> (r: TreeRun)
        requires
            old(self).wf(),
        ensures
            final(self).wf(),
            final(self).tabs == old(self).tabs,
            ({
                let o = *old(self);
                let p = opt_path(*on);
                &&& final(self).tree@ == tree_after_run(o.tree@, a, p, is_dir)
                &&& tree_run(o, a, p, is_dir, r)
            }),
    {
        match a {
            TreeAction::NewFile => TreeRun::AskName(new_file_dir(&self.tree.root, on, is_dir)),
            TreeAction::RevealInFinder => match on {
                Some(p) => TreeRun::RevealOutside(p.copy()),
                None => TreeRun::Nothing,
            },
            TreeAction::CopyFullPath => match on {
                Some(p) => TreeRun::Copy(p.to_text(), "Full path copied"),
                None => TreeRun::Nothing,
            },
            TreeAction::CopyPath => match on {
                Some(p) => TreeRun::Copy(self.tree.root.rel(p), "Reference copied"),
                None => TreeRun::Nothing,
            },
            TreeAction::Refresh => {
                if let Some(p) = on {
                    if is_dir {
                        let _ = self.tree.expanded.insert(p.copy());
                    }
                }
                TreeRun::Rebuild
            },
            TreeAction::Delete => match on {
                Some(p) => {
                    self.tree.confirm_delete = Some(p.copy());
                    TreeRun::Confirm
                },
                None => TreeRun::Nothing,
            },
        }
    }
}

/// The digits of a context menu run its actions in the order in which they are listed, and escape
/// closes it; a number beyond the list does nothing.
pub proof fn digits_run_menu_actions(n: nat)
    ensures
        editor_menu_key(dec(1)) == MenuKey::RunEditor(EditorAction::Reveal),
        editor_menu_key(dec(2)) == MenuKey::RunEditor(EditorAction::CopyFullPath),
        editor_menu_key(dec(3)) == MenuKey::RunEditor(EditorAction::CopyPath),
        editor_menu_key(dec(4)) == MenuKey::RunEditor(EditorAction::CloseTab),
        tree_menu_key(dec(1)) == MenuKey::RunTree(TreeAction::NewFile),
        tree_menu_key(dec(2)) == MenuKey::RunTree(TreeAction::RevealInFinder),
        tree_menu_key(dec(3)) == MenuKey::RunTree(TreeAction::CopyFullPath),
        tree_menu_key(dec(4)) == MenuKey::RunTree(TreeAction::CopyPath),
        tree_menu_key(dec(5)) == MenuKey::RunTree(TreeAction::Refresh),
        tree_menu_key(dec(6)) == MenuKey::RunTree(TreeAction::Delete),
        n == 0 || n > 4 ==> editor_menu_key(dec(n)) == MenuKey::Nothing,
        n == 0 || n > 6 ==> tree_menu_key(dec(n)) == MenuKey::Nothing,
        editor_menu_key("escape"@) == MenuKey::Close && tree_menu_key("escape"@) == MenuKey::Close,
{
    reveal_strlit("escape");
    reading_undoes_writing(1);
    reading_undoes_writing(2);
    reading_undoes_writing(3);
    reading_undoes_writing(4);
    reading_undoes_writing(5);
    reading_undoes_writing(6);
    reading_undoes_writing(n);
    lemma_not_escape(1);
    lemma_not_escape(2);
    lemma_not_escape(3);
    lemma_not_escape(4);
    lemma_not_escape(5);
    lemma_not_escape(6);
    lemma_not_escape(n);
}

proof fn lemma_not_escape(n: nat)
    ensures
        dec(n) != "escape"@,
{
    reveal_strlit("escape");
    digits_count_in_tens(n / 10, n % 10);
    let d = dec(n);
    assert(d.last() == digit_char(n % 10));
    assert("escape"@.last() == 'e');
    assert(digit_char(n % 10) as u32 <= 57);
}

/// What the menus copy: the whole path, or the path from the root.
pub proof fn menus_copy_paths(o: Project, p: PathView, is_dir: bool, r: EditorRun, t: TreeRun)
    ensures
        active_file(o.tabs) == Some(p) && editor_run(o, EditorAction::CopyFullPath, r) ==> r is Copy && r->Copy_0@ == path_text(p),
        active_file(o.tabs) == Some(p) && editor_run(o, EditorAction::CopyPath, r) ==> r is Copy && r->Copy_0@ == rel_text(o.tree@.root, p),
        active_file(o.tabs) is None && editor_run(o, EditorAction::CopyPath, r) ==> r is Nothing,
        editor_run(o, EditorAction::CloseTab, r) ==> r is CloseTab,
        tree_run(o, TreeAction::CopyFullPath, Some(p), is_dir, t) ==> t is Copy && t->Copy_0@ == path_text(p),
        tree_run(o, TreeAction::CopyPath, Some(p), is_dir, t) ==> t is Copy && t->Copy_0@ == rel_text(o.tree@.root, p),
        tree_run(o, TreeAction::RevealInFinder, Some(p), is_dir, t) ==> t is RevealOutside && t->RevealOutside_0@ == p,
        tree_run(o, TreeAction::NewFile, Some(p), true, t) ==> t is AskName && t->AskName_0@ == p,
        tree_run(o, TreeAction::NewFile, Some(p), false, t) && parent_of(p) is Some ==> t is AskName && t->AskName_0@ == parent_of(p)->0,
        tree_run(o, TreeAction::Delete, Some(p), is_dir, t) ==> t is Confirm,
        tree_run(o, TreeAction::Refresh, Some(p), is_dir, t) ==> t is Rebuild,
{
}

/// Deleting is asked about first and names the path; nothing else of the tree changes with a menu but
/// that a refreshed directory is expanded.
pub proof fn menus_change_little(t: FileTreeView, p: PathView, is_dir: bool, a: TreeAction)
    ensures
        tree_after_run(t, TreeAction::Delete, Some(p), is_dir).confirm_delete == Some(p),
        tree_after_run(t, TreeAction::Delete, Some(p), is_dir).entries == t.entries,
        tree_after_run(t, TreeAction::Refresh, Some(p), true).expanded.contains(p),
        a != TreeAction::Delete && a != TreeAction::Refresh ==> tree_after_run(t, a, Some(p), is_dir) == t,
        a != TreeAction::Delete ==> tree_after_run(t, a, Some(p), is_dir).confirm_delete == t.confirm_delete,
{
}

/// The active tab is the one that its place names; a file that is left is saved, a scratch buffer is
/// not.
pub proof fn the_active_file_is_saved(s: Tabs)
    requires
        s.list.active < s.list.items@.len(),
    ensures
        active_file(s) == Some(s.list.items@[s.list.active as int].path@),
        s.list.items@[s.list.active as int].scratch ==> leaving(s) is None,
        !s.list.items@[s.list.active as int].scratch ==> leaving(s) == Some(s.list.items@[s.list.active as int].editor),
{
}

/// Showing a file selects it and changes no row, and every directory that was expanded stays so.
pub proof fn showing_selects_the_file(t: FileTreeView, p: PathView)
    ensures
        showing(t, p).selected == Some(p),
        showing(t, p).entries == t.entries && showing(t, p).root == t.root && showing(t, p).multi == t.multi,
        showing(t, p).expanded == revealed(t.expanded, t.root, p),
{
}

} // verus!
