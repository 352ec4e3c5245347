//! One project's window: its popups, and all its parts together.
use vstd::prelude::*;
use crate::agent::{Transcript, TranscriptView};
use crate::changes::MarkFilter;
use crate::commit::{CommitPane, CommitPaneView};
use crate::console::{RunEnd, RunView, run_end, run_ended};
use crate::docks::{Docks, Drags, Focus, LeftPanel, LeftView, no_drags};
use crate::filetree::{FileTreeView, Listing, listing_views, tree_entries};
use crate::find::FindPanel;
use crate::finder::{Finder, FinderView, finder_listing, goto_target, position_or_one};
use crate::git::{GitState, GitStatus, change_paths, change_views, id_chars, random_id};
use crate::gitlog::{GitLog, GitLogView};
use crate::keys::Keystroke;
use crate::palette::{Cmd, GitPopup, GitPopupView, Palette};
use crate::path::{FilePath, PathSet, PathView, copy_opt_path, opt_path, path_views};
use crate::pr::PrLink;
use crate::processes::ProcessManager;
use crate::project::{EditorAction, EditorRun, MenuKey, Project, TreeAction, TreeRun, active_file, editor_ctx_key, editor_menu_key, editor_run, first_world, leaving, showing, tree_after_run, tree_ctx_key, tree_menu_key, tree_run};
use crate::prompts::{BranchPrompt, PrPrompt, PrPromptView};
use crate::push::{ConflictDialog, ConflictView, PushDialog, PushView};
use crate::repo::{Repo, branch_name};
use crate::review::{DiffRequest, DiffRequestView, ReviewPane, ReviewView, first_place, working_diff, working_files};
use crate::tabs::{Opened, opened};
use crate::text::{cat, opt_text, pieces, texts, trim, trimmed};

verus! {

/// A message that goes away by itself.
#[derive(Debug)]
pub struct Flash {
    pub msg: Option<String>,
    pub gen: usize,
}

impl Flash {
    /// Shows a message; gives the number under which it is to be hidden.
    pub fn show(&mut self, msg: &str) -> (r: usize)
        requires
            old(self).gen < usize::MAX,
        ensures
            r == old(self).gen + 1,
            final(self).gen == r,
            opt_text(final(self).msg) == Some(msg@),
    {
        self.msg = Some(msg.to_owned());
        self.gen = self.gen + 1;
        self.gen
    }

    /// The time of message `gen` is over: it goes, unless another has followed.
    pub fn expire(&mut self, gen: usize)
        ensures
            final(self).gen == old(self).gen,
            final(self).msg == if gen == old(self).gen {
                None
            } else {
                old(self).msg
            },
    {
        if gen == self.gen {
            self.msg = None;
        }
    }
}

/// The popups of a window.
#[derive(Debug)]
pub struct Popups {
    pub editor_ctx: bool,
    pub tree_ctx: Option<FilePath>,
    pub palette: Palette,
    pub finder: Finder,
    pub goto_open: bool,
    pub branch_prompt: BranchPrompt,
    pub new_file: Option<FilePath>,
    pub conflicts: ConflictDialog,
    pub pr_prompt: PrPrompt,
    pub run_prompt: bool,
    pub new_project: bool,
    pub find: FindPanel,
    pub git_popup: GitPopup,
    pub ws_open: bool,
    pub procs: ProcessManager,
    pub push: PushDialog,
}

/// Whether a popup is open that escape closes.
pub open spec fn has_popup(s: Popups) -> bool {
    s.palette.open || s.finder.open || s.goto_open || s.branch_prompt.open || s.new_file is Some
        || s.pr_prompt.open || s.run_prompt || s.new_project || s.find.open || s.git_popup.open
        || s.conflicts.open || s.ws_open
}

/// The popups when escape has closed them.
pub open spec fn popups_closed(s: Popups) -> Popups {
    Popups {
        palette: Palette { open: false, ..s.palette },
        finder: Finder { open: false, ..s.finder },
        goto_open: false,
        branch_prompt: BranchPrompt { open: false, ..s.branch_prompt },
        new_file: None,
        conflicts: ConflictDialog { open: false, ..s.conflicts },
        pr_prompt: PrPrompt { open: false, ..s.pr_prompt },
        run_prompt: false,
        new_project: false,
        find: FindPanel { open: false, ..s.find },
        git_popup: GitPopup { open: false, action_branch: None, ..s.git_popup },
        ws_open: false,
        ..s
    }
}

/// What a key does at the root of the window.
#[derive(Clone, Copy, Debug, PartialEq, Eq, Structural)]
pub enum RootKey {
    /// A context menu is open and the key is for it.
    Menu(MenuKey),
    /// The menu of a branch closed, the popup stays.
    BackToBranches,
    /// The popups closed; the keyboard goes to the active editor.
    Closed,
    Nothing,
}

/// What a key does at the root of the window, and the popups afterwards: an open context menu
/// takes it; else escape closes the menu of a branch, and where there is none, every popup.
pub open spec fn root_key(s: Popups, key: Seq<char>) -> (RootKey, Popups) {
    if s.editor_ctx {
        let m = editor_menu_key(key);
        (RootKey::Menu(m), Popups { editor_ctx: m != MenuKey::Close, ..s })
    } else if s.tree_ctx is Some {
        let m = tree_menu_key(key);
        (
            RootKey::Menu(m),
            Popups {
                tree_ctx: if m == MenuKey::Close {
                    None
                } else {
                    s.tree_ctx
                },
                ..s
            },
        )
    } else if key == "escape"@ && s.git_popup.open && s.git_popup.action_branch is Some {
        (
            RootKey::BackToBranches,
            Popups { git_popup: GitPopup { action_branch: None, ..s.git_popup }, ..s },
        )
    } else if key == "escape"@ && has_popup(s) {
        (RootKey::Closed, popups_closed(s))
    } else {
        (RootKey::Nothing, s)
    }
}

/// However many popups are open, four times escape closes them all, context menus with them.
pub proof fn escape_closes_every_popup(s: Popups)
    ensures
        ({
            let a = root_key(s, "escape"@).1;
            let b = root_key(a, "escape"@).1;
            let c = root_key(b, "escape"@).1;
            let d = root_key(c, "escape"@).1;
            !has_popup(d) && !d.editor_ctx && d.tree_ctx is None
        }),
{
    assert(editor_menu_key("escape"@) == MenuKey::Close);
    assert(tree_menu_key("escape"@) == MenuKey::Close);
}

/// A key other than escape closes no popup.
pub proof fn only_escape_closes_popups(s: Popups, key: Seq<char>)
    requires
        key != "escape"@,
    ensures
        root_key(s, key).1 == s,
{
    assert(editor_menu_key(key) != MenuKey::Close);
    assert(tree_menu_key(key) != MenuKey::Close);
}

/// Whether nothing is open and every dialog is as it begins, in a program with that process id.
pub open spec fn fresh_popups(r: Popups, own_pid: u32) -> bool {
    &&& !r.editor_ctx
    &&& r.tree_ctx is None
    &&& !r.palette.open && r.palette.sel == 0 && r.palette.gen == 0
    &&& r.palette.results@ == Seq::<Cmd>::empty()
    &&& r.finder@ == (FinderView {
        open: false,
        results: Seq::empty(),
        selected: 0,
        gen: 0,
        dirs_mode: false,
        all_files: Seq::empty(),
        all_dirs: Seq::empty(),
    })
    &&& !r.goto_open
    &&& r.branch_prompt == (BranchPrompt { open: false, make_pr: false })
    &&& r.new_file is None
    &&& r.conflicts@ == (ConflictView {
        open: false,
        files: Seq::empty(),
        into: Seq::empty(),
        from: Seq::empty(),
    })
    &&& r.pr_prompt@ == (PrPromptView { open: false, milestones: Seq::empty(), sel: 0 })
    &&& !r.run_prompt
    &&& !r.new_project
    &&& fresh_find(r.find)
    &&& r.git_popup@ == (GitPopupView {
        open: false,
        branches: Seq::empty(),
        local: Seq::empty(),
        sel: 0,
        action_branch: None,
        action_sel: 0,
    })
    &&& !r.ws_open
    &&& fresh_procs(r.procs, own_pid)
    &&& r.push@ == (PushView {
        open: false,
        branch: Seq::empty(),
        target: Seq::empty(),
        base_ref: Seq::empty(),
        ahead: false,
        commits: Seq::empty(),
        files: Seq::empty(),
        collapsed: Set::empty(),
        selected: None,
        commit_sel: None,
        tags: false,
    })
}

/// Whether the find dialog is as it begins: closed, with nothing found, upper and lower case alike.
pub open spec fn fresh_find(f: FindPanel) -> bool {
    &&& !f.open && !f.pdragging && !f.case_sensitive
    &&& f.scope@.len() == 0
    &&& f.results@.len() == 0
    &&& f.selected == 0 && f.gen == 0
    &&& f.preview is None
    &&& f.psel is None
}

/// Whether the process list is as it begins: closed and empty, narrowed to this program and to
/// the workspace.
pub open spec fn fresh_procs(p: ProcessManager, own: u32) -> bool {
    &&& !p.open
    &&& p.list@.len() == 0
    &&& p.own == own
    &&& p.workspace_pids@.len() == 0
    &&& p.workspace_only && p.only_tide
    &&& p.selected@.len() == 0
    &&& p.anchor is None
}

impl Popups {
    /// Nothing is open.
    pub fn new(own_pid: u32) -> (r: Popups)
        ensures
            fresh_popups(r, own_pid),
            !has_popup(r),
            r.push.wf(),
    {
        let pr_prompt = PrPrompt::new();
        assert(texts(pr_prompt.milestones@).len() == pr_prompt.milestones@.len());
        Popups {
            editor_ctx: false,
            tree_ctx: None,
            palette: Palette::new(),
            finder: Finder::new(),
            goto_open: false,
            branch_prompt: BranchPrompt::new(),
            new_file: None,
            conflicts: ConflictDialog::new(),
            pr_prompt,
            run_prompt: false,
            new_project: false,
            find: FindPanel::new(),
            git_popup: GitPopup::new(),
            ws_open: false,
            procs: ProcessManager::new(own_pid),
            push: PushDialog::new(),
        }
    }

    fn any_open(&self) -> (r: bool)
        ensures
            r == has_popup(*self),
    {
        self.palette.open || self.finder.open || self.goto_open || self.branch_prompt.open
            || self.new_file.is_some() || self.pr_prompt.open || self.run_prompt || self.new_project
            || self.find.open || self.git_popup.open || self.conflicts.open || self.ws_open
    }

    fn close_all(&mut self)
        ensures
            *final(self) == popups_closed(*old(self)),
    {
        self.palette.open = false;
        self.finder.open = false;
        self.goto_open = false;
        self.branch_prompt.open = false;
        self.new_file = None;
        self.conflicts.open = false;
        self.pr_prompt.open = false;
        self.run_prompt = false;
        self.new_project = false;
        self.find.open = false;
        self.git_popup.open = false;
        self.git_popup.action_branch = None;
        self.ws_open = false;
    }

    /// A key that reached the root of the window.
    pub fn on_root_key(&mut self, k: &Keystroke) -> (r: RootKey)
        ensures
            (r, *final(self)) == root_key(*old(self), k@.key),
    {
        if self.editor_ctx {
            let m = editor_ctx_key(k);
            if m == MenuKey::Close {
                self.editor_ctx = false;
            }
            return RootKey::Menu(m);
        }
        if self.tree_ctx.is_some() {
            let m = tree_ctx_key(k);
            if m == MenuKey::Close {
                self.tree_ctx = None;
            }
            return RootKey::Menu(m);
        }
        if !k.is("escape") {
            return RootKey::Nothing;
        }
        if self.git_popup.open && self.git_popup.action_branch.is_some() {
            self.git_popup.action_branch = None;
            return RootKey::BackToBranches;
        }
        if !self.any_open() {
            return RootKey::Nothing;
        }
        self.close_all();
        RootKey::Closed
    }

    /// Whether a text input is on screen, the left panel's among them.
    pub fn input_visible(&self, left: LeftPanel) -> (r: bool)
        ensures
            r == has_input(*self, left),
    {
        self.finder.open || self.goto_open || self.branch_prompt.open || self.new_file.is_some()
            || self.pr_prompt.open || self.run_prompt || self.new_project || self.find.open
            || self.git_popup.open || self.palette.open || self.procs.open || (left.shown
            && left.view == LeftView::Changes)
    }

    /// A command has ended: files in conflict are shown, and a push that was rejected offers to
    /// integrate what is new on the remote.
    pub fn command_ended(&mut self, e: RunEnd, files: Vec<FilePath>, into: String, from: String)
        ensures
            final(self).conflicts@ == if e.show_conflicts && files@.len() > 0 {
                ConflictView { open: true, files: path_views(files@), into: into@, from: from@ }
            } else {
                old(self).conflicts@
            },
            *final(self) == (Popups {
                conflicts: final(self).conflicts,
                push: PushDialog { ahead: old(self).push.ahead || e.push_ahead, ..old(self).push },
                ..*old(self)
            }),
    {
        if e.show_conflicts {
            let _ = self.conflicts.show(files, into, from);
        }
        if e.push_ahead {
            self.push.ahead = true;
        }
    }

    /// The tree's context menu closes; where it led to a new file, its name is asked for.
    pub fn close_tree_menu(&mut self, new_file: Option<FilePath>)
        ensures
            *final(self) == (Popups {
                tree_ctx: None,
                new_file: if new_file is Some {
                    new_file
                } else {
                    old(self).new_file
                },
                ..*old(self)
            }),
    {
        self.tree_ctx = None;
        if new_file.is_some() {
            self.new_file = new_file;
        }
    }

    /// A key in the go-to-line box: enter goes to the line and column typed, escape and enter
    /// close it. `has_file` says whether a file is open. Gives where to go, and whether the key
    /// is for the text.
    pub fn goto_key(&mut self, k: &Keystroke, typed: &str, has_file: bool) -> (r: (Option<(usize, usize)>, bool))
        ensures
            ({
                let closes = k@.key == "escape"@ || k@.key == "enter"@;
                &&& *final(self) == (Popups {
                    goto_open: old(self).goto_open && !closes,
                    ..*old(self)
                })
                &&& r.1 == !closes
                &&& if k@.key == "enter"@ && has_file {
                    &&& r.0 is Some
                    &&& (r.0->0).0 == position_or_one(pieces(typed@, ':'), 0)
                    &&& (r.0->0).1 == position_or_one(pieces(typed@, ':'), 1)
                } else {
                    r.0 is None
                }
            }),
    {
        proof {
            reveal_strlit("enter");
            reveal_strlit("escape");
            assert("enter"@.len() != "escape"@.len());
        }
        if k.is("escape") {
            self.goto_open = false;
            return (None, false);
        }
        if k.is("enter") {
            self.goto_open = false;
            if has_file {
                return (Some(goto_target(typed)), false);
            }
            return (None, false);
        }
        (None, true)
    }
}

/// Whether a text input is on screen.
pub open spec fn has_input(s: Popups, left: LeftPanel) -> bool {
    s.finder.open || s.goto_open || s.branch_prompt.open || s.new_file is Some || s.pr_prompt.open
        || s.run_prompt || s.new_project || s.find.open || s.git_popup.open || s.palette.open
        || s.procs.open || (left.shown && left.view == LeftView::Changes)
}

/// The caret of an input that has the keyboard.
pub open spec fn caret_text(on: bool) -> Seq<char> {
    if on {
        "▏"@
    } else {
        " "@
    }
}

/// The caret of an input.
pub fn caret(on: bool) -> (r: &'static str)
    ensures
        r@ == caret_text(on),
{
    if on {
        "▏"
    } else {
        " "
    }
}

/// The caret of an input that shows one only while it has the keyboard.
pub fn caret_if(on: bool, focused: bool) -> (r: &'static str)
    ensures
        r@ == if focused {
            caret_text(on)
        } else {
            ""@
        },
{
    if focused {
        caret(on)
    } else {
        ""
    }
}

/// The projects of the workspace, as the switcher of a window shows them.
#[derive(Debug)]
pub struct Siblings {
    pub names: Vec<String>,
    pub branches: Vec<String>,
    pub active: usize,
}

/// One project's window.
#[derive(Debug)]
pub struct Storm {
    pub project: Project,
    pub docks: Docks,
    pub left: LeftPanel,
    pub repo: Repo,
    pub popups: Popups,
    pub commit: CommitPane,
    pub review: ReviewPane,
    pub agent: Transcript,
    pub log: GitLog,
    pub siblings: Siblings,
    pub flash: Flash,
    pub drags: Drags,
    pub caret_on: bool,
    pub read_only: bool,
    pub inited: bool,
}

/// What showing a diff asks for.
#[derive(Debug)]
pub enum ShowDiff {
    /// The diff of a file that is about to be pushed.
    Push(FilePath),
    /// The diff of a file under review.
    Review(FilePath),
    /// The diff of the working tree.
    Working(DiffRequest),
    Nothing,
}

/// The text that a new terminal is given first.
pub fn startup_text(cmd: Option<&str>) -> (r: Option<String>)
    ensures
        opt_text(r) == match cmd {
            Some(c) => if trimmed(c@).len() == 0 {
                None
            } else {
                Some(trimmed(c@) + seq!['\n'])
            },
            None => None,
        },
{
    match cmd {
        Some(c) => {
            let t = trim(c);
            if t.as_str().is_empty() {
                None
            } else {
                proof {
                    reveal_strlit("\n");
                    assert("\n"@ =~= seq!['\n']);
                }
                Some(cat(t.as_str(), "\n"))
            }
        },
        None => None,
    }
}

impl Storm {
    /// Every part is in order.
    pub open spec fn wf(&self) -> bool {
        &&& self.project.wf()
        &&& self.docks.wf()
        &&& self.repo.wf()
        &&& self.popups.push.wf()
        &&& self.popups.procs.wf()
        &&& self.commit.wf()
        &&& self.review.wf()
        &&& self.agent.wf()
        &&& self.log.wf()
    }

    /// The window of a project: its tree is listed, one terminal is open, files are read-only.
    /// `seed` makes the id of the first short commit message.
    pub fn new(root: FilePath, ignored: PathSet, listings: &Vec<Listing>, seed: u64, own_pid: u32, terminal: usize) -> (r: Storm)
        requires
            ignored.wf(),
        ensures
            r.wf(),
            r.project.tree@ == (FileTreeView {
                root: root@,
                expanded: set![root@],
                ignored: ignored@,
                entries: tree_entries(first_world(listing_views(listings@), root@, ignored@), root@),
                selected: None,
                multi: Set::empty(),
                clipboard: None,
                confirm_delete: None,
            }),
            r.project.tabs.list.items@.len() == 0 && r.project.tabs.list.active == 0,
            r.project.tabs.scratch_count == 0,
            r.docks.terminals.items@ == seq![terminal] && r.docks.terminals.active == 0,
            r.docks.show_terminal,
            r.docks.run@ == (RunView {
                open: false,
                cmd: Seq::empty(),
                lines: Seq::empty(),
                running: false,
                active: false,
                failed: false,
                spin: 0,
                gen: 0,
            }),
            !r.docks.git_open && !r.docks.agent_open && !r.docks.browser_open,
            r.docks.browser_url@ == "http://localhost:3000"@,
            r.left == (LeftPanel { view: LeftView::Files, shown: true }),
            r.repo.status@ == Map::<PathView, GitState>::empty(),
            r.repo.branch@.len() == 0 && r.repo.parent is None && r.repo.mem_mb == 0,
            r.repo.pr_link is None && r.repo.pr_link_branch@.len() == 0,
            fresh_popups(r.popups, own_pid) && !has_popup(r.popups),
            r.commit@ == (CommitPaneView {
                view_filter: MarkFilter::All,
                checked: Set::empty(),
                collapsed: Set::empty(),
                selected: None,
                wip_id: id_chars(seed, 5),
            }),
            r.review@ == (ReviewView {
                files: Seq::empty(),
                viewed: Set::empty(),
                collapsed: Set::empty(),
                base: Seq::empty(),
                selected: None,
                gen: 0,
                loading: false,
                node_id: None,
                view_filter: MarkFilter::All,
            }),
            r.agent@ == (TranscriptView {
                msgs: Seq::empty(),
                cur: None,
                cur_thought: None,
                busy: false,
            }),
            r.log@ == (GitLogView {
                rev: "HEAD"@,
                commits: Seq::empty(),
                sel: None,
                gen: 0,
                branches: Seq::empty(),
                collapsed: Set::empty(),
                details_msg: Seq::empty(),
                details_files: Seq::empty(),
            }),
            r.siblings.names@.len() == 0 && r.siblings.branches@.len() == 0 && r.siblings.active == 0,
            r.flash.msg is None && r.flash.gen == 0,
            r.drags == no_drags(),
            r.caret_on,
            r.read_only,
            !r.inited,
    {
        Storm {
            project: Project::new(root, ignored, listings),
            docks: Docks::new(terminal),
            left: LeftPanel { view: LeftView::Files, shown: true },
            repo: Repo::new(),
            popups: Popups::new(own_pid),
            commit: CommitPane::new(random_id(seed)),
            review: ReviewPane::new(),
            agent: Transcript::new(),
            log: GitLog::new(),
            siblings: Siblings { names: Vec::new(), branches: Vec::new(), active: 0 },
            flash: Flash { msg: None, gen: 0 },
            drags: Drags {
                tree: false,
                term: false,
                agent: false,
                git: false,
                find_edge: None,
                find_moving: false,
                find_split: false,
            },
            caret_on: true,
            read_only: true,
            inited: false,
        }
    }

    /// The caret blinks; says whether anything is to be drawn for it.
    pub fn blink(&mut self) -> (r: bool)
        ensures
            *final(self) == (Storm { caret_on: !old(self).caret_on, ..*old(self) }),
            r == has_input(old(self).popups, old(self).left),
    {
        self.caret_on = !self.caret_on;
        self.popups.input_visible(self.left)
    }

    /// Allows editing, or forbids it; gives what to say of it.
    pub fn toggle_read_only(&mut self) -> (r: &'static str)
        ensures
            *final(self) == (Storm { read_only: !old(self).read_only, ..*old(self) }),
            r@ == if old(self).read_only {
                "Edit mode"@
            } else {
                "Read-only mode"@
            },
    {
        self.read_only = !self.read_only;
        if self.read_only {
            "Read-only mode"
        } else {
            "Edit mode"
        }
    }

    /// Takes in what a look at the repository found. `pr` is the pull request and the parent of
    /// the branch, where they were asked for. Says whether the tree has to be listed anew.
    pub fn polled(
        &mut self,
        status: GitStatus,
        branch: String,
        mem_mb: u64,
        ignored: PathSet,
        pr: Option<(Option<PrLink>, Option<String>)>,
    ) -> (r: bool)
        requires
            old(self).wf(),
            status.wf(),
            ignored.wf(),
        ensures
            final(self).wf(),
            r == (ignored@ != old(self).project.tree@.ignored),
            final(self).project.tree@ == (FileTreeView {
                ignored: ignored@,
                ..old(self).project.tree@
            }),
            final(self).project.tabs == old(self).project.tabs,
            final(self).repo.pr_link_branch@ == if pr is Some {
                branch@
            } else {
                old(self).repo.pr_link_branch@
            },
            final(self).repo == (Repo {
                status,
                branch,
                mem_mb,
                parent: match pr {
                    Some(p) => p.1,
                    None => old(self).repo.parent,
                },
                pr_link: match pr {
                    Some(p) => p.0,
                    None => old(self).repo.pr_link,
                },
                pr_link_branch: final(self).repo.pr_link_branch,
            }),
            *final(self) == (Storm {
                project: final(self).project,
                repo: final(self).repo,
                ..*old(self)
            }),
    {
        self.repo.polled(status, branch, mem_mb, pr);
        self.project.ignored_read(ignored)
    }

    /// A command has ended. `conflicts` are the files in conflict now, `from` is what was
    /// merged. Where some are, their dialog opens; a rejected push offers to integrate what is
    /// new on the remote; any other failure shows the console.
    pub fn run_finished(&mut self, success: bool, conflicts: Vec<FilePath>, from: String) -> (r: RunEnd)
        requires
            old(self).wf(),
        ensures
            final(self).wf(),
            ({
                let o = *old(self);
                let e = run_end(o.docks.run@, success, conflicts@.len() > 0);
                &&& r == e
                &&& final(self).docks.run@ == run_ended(o.docks.run@, success, conflicts@.len() > 0)
                &&& final(self).docks == (Docks {
                    run: final(self).docks.run,
                    git_open: o.docks.git_open && !final(self).docks.run.open,
                    ..o.docks
                })
                &&& final(self).popups.conflicts@ == if e.show_conflicts {
                    ConflictView {
                        open: true,
                        files: path_views(conflicts@),
                        into: branch_name(o.repo),
                        from: from@,
                    }
                } else {
                    o.popups.conflicts@
                }
                &&& final(self).popups == (Popups {
                    conflicts: final(self).popups.conflicts,
                    push: PushDialog { ahead: o.popups.push.ahead || e.push_ahead, ..o.popups.push },
                    ..o.popups
                })
                &&& *final(self) == (Storm {
                    docks: final(self).docks,
                    popups: final(self).popups,
                    ..o
                })
            }),
    {
        let e = self.docks.run_finished(success, conflicts.len() > 0);
        let into = self.repo.branch_label();
        self.popups.command_ended(e, conflicts, into, from);
        e
    }

    /// Shows the terminal, or hides it. Gives the editor to save, and where the keyboard goes.
    pub fn toggle_terminal(&mut self, fresh: usize) -> (r: (Option<usize>, Focus))
        requires
            old(self).wf(),
        ensures
            final(self).wf(),
            r.0 == leaving(old(self).project.tabs),
            ({
                let o = old(self).docks;
                let f = final(self).docks;
                if o.show_terminal {
                    r.1 == Focus::Active && f == (Docks { show_terminal: false, ..o })
                } else {
                    &&& f == (Docks {
                        show_terminal: true,
                        browser_open: false,
                        terminals: f.terminals,
                        ..o
                    })
                    &&& if o.terminals.items@.len() == 0 {
                        &&& f.terminals.items@ == seq![fresh]
                        &&& f.terminals.active == 0
                        &&& r.1 == Focus::Terminal(fresh)
                    } else {
                        &&& f.terminals == o.terminals
                        &&& r.1 == Focus::Terminal(o.terminals.items@[o.terminals.active as int])
                    }
                }
            }),
            *final(self) == (Storm { docks: final(self).docks, ..*old(self) }),
    {
        let e = self.project.save_active();
        let f = self.docks.toggle_terminal(fresh);
        (e, f)
    }

    /// Goes to the commit pane with the active file checked, if it has changed. Gives the
    /// editor to save.
    pub fn act_goto_commit(&mut self) -> (r: Option<usize>)
        requires
            old(self).wf(),
        ensures
            final(self).wf(),
            r == leaving(old(self).project.tabs),
            final(self).commit@ == (CommitPaneView {
                checked: match active_file(old(self).project.tabs) {
                    Some(p) => if old(self).repo.status@.dom().contains(p) {
                        set![p]
                    } else {
                        Set::empty()
                    },
                    None => Set::empty(),
                },
                ..old(self).commit@
            }),
            *final(self) == (Storm {
                left: LeftPanel { view: LeftView::Changes, shown: true },
                commit: final(self).commit,
                ..*old(self)
            }),
    {
        let e = self.project.save_active();
        let p = self.project.tabs.active_path();
        self.commit.goto_commit(&p, &self.repo.status);
        self.left.show(LeftView::Changes);
        e
    }

    /// Opens a file from the changes and hides the left panel, so that the editor has its
    /// place. Gives the editor to save, and the tab.
    pub fn open_commit_file(&mut self, path: &FilePath, fresh: usize) -> (r: (Option<usize>, Opened))
        requires
            old(self).wf(),
        ensures
            final(self).wf(),
            r.0 == leaving(old(self).project.tabs),
            final(self).project.tree@ == showing(old(self).project.tree@, path@),
            opened(old(self).project.tabs, final(self).project.tabs, path@, fresh, r.1),
            *final(self) == (Storm {
                project: final(self).project,
                left: LeftPanel { shown: false, ..old(self).left },
                ..*old(self)
            }),
    {
        self.left.shown = false;
        self.project.open_file(path, fresh)
    }

    /// Goes to what the finder found: a folder is selected in the tree, expanded; a file is
    /// opened, and the editor to save and the tab are given.
    pub fn open_finder_result(&mut self, p: &FilePath, fresh: usize) -> (r: Option<(Option<usize>, Opened)>)
        requires
            old(self).wf(),
        ensures
            final(self).wf(),
            final(self).popups == (Popups {
                finder: Finder { open: false, ..old(self).popups.finder },
                ..old(self).popups
            }),
            ({
                let o = *old(self);
                let t = o.project.tree@;
                if o.popups.finder.dirs_mode {
                    &&& r is None
                    &&& final(self).project.tree@ == showing(
                        FileTreeView { expanded: t.expanded.insert(p@), ..t },
                        p@,
                    )
                    &&& final(self).project.tabs == o.project.tabs
                    &&& *final(self) == (Storm {
                        popups: final(self).popups,
                        left: LeftPanel { view: LeftView::Files, shown: true },
                        project: final(self).project,
                        ..o
                    })
                } else {
                    &&& r is Some
                    &&& (r->0).0 == leaving(o.project.tabs)
                    &&& final(self).project.tree@ == showing(t, p@)
                    &&& opened(o.project.tabs, final(self).project.tabs, p@, fresh, (r->0).1)
                    &&& *final(self) == (Storm {
                        popups: final(self).popups,
                        project: final(self).project,
                        ..o
                    })
                }
            }),
    {
        self.popups.finder.open = false;
        if self.popups.finder.dirs_mode {
            self.left.show(LeftView::Files);
            self.project.open_folder(p);
            None
        } else {
            Some(self.project.open_file(p, fresh))
        }
    }

    /// Opens the finder; gives the editor to save.
    pub fn act_open_finder(&mut self) -> (r: Option<usize>)
        requires
            old(self).wf(),
        ensures
            final(self).wf(),
            r == leaving(old(self).project.tabs),
            final(self).popups.finder@ == (FinderView {
                open: true,
                selected: 0,
                ..finder_listing(old(self).popups.finder@, old(self).project.tree@.root, ""@)
            }),
            final(self).popups == (Popups {
                finder: final(self).popups.finder,
                ..old(self).popups
            }),
            *final(self) == (Storm { popups: final(self).popups, ..*old(self) }),
    {
        let e = self.project.save_active();
        self.popups.finder.show(&self.project.tree.root);
        e
    }

    /// Opens the go-to-line box where a file is open; gives the editor to save.
    pub fn act_goto(&mut self) -> (r: Option<usize>)
        requires
            old(self).wf(),
        ensures
            final(self).wf(),
            r == leaving(old(self).project.tabs),
            final(self).popups == (Popups {
                goto_open: old(self).popups.goto_open || old(self).project.tabs.list.items@.len() > 0,
                ..old(self).popups
            }),
            *final(self) == (Storm { popups: final(self).popups, ..*old(self) }),
    {
        if self.project.tabs.list.items.len() == 0 {
            return None;
        }
        self.popups.goto_open = true;
        self.project.save_active()
    }

    /// Runs an action of the editor's context menu, which closes; to reveal a file, the tree is
    /// shown.
    pub fn editor_ctx_run(&mut self, a: EditorAction) -> (r: EditorRun)
        requires
            old(self).wf(),
        ensures
            final(self).wf(),
            ({
                let o = *old(self);
                let p = active_file(o.project.tabs);
                &&& editor_run(o.project, a, r)
                &&& final(self).project.tabs == o.project.tabs
                &&& final(self).project.tree@ == if a == EditorAction::Reveal && p is Some {
                    showing(o.project.tree@, p->0)
                } else {
                    o.project.tree@
                }
                &&& *final(self) == (Storm {
                    project: final(self).project,
                    popups: Popups { editor_ctx: false, ..o.popups },
                    left: if r is Revealed {
                        LeftPanel { view: LeftView::Files, shown: true }
                    } else {
                        o.left
                    },
                    ..o
                })
            }),
    {
        self.popups.editor_ctx = false;
        let r = self.project.editor_ctx_run(a);
        if let EditorRun::Revealed = r {
            self.left.show(LeftView::Files);
        }
        r
    }

    /// Runs an action of the tree's context menu on the path it was opened on, and closes it.
    pub fn tree_ctx_run(&mut self, a: TreeAction, is_dir: bool) -> (r: TreeRun)
        requires
            old(self).wf(),
        ensures
            final(self).wf(),
            ({
                let o = *old(self);
                let p = opt_path(o.popups.tree_ctx);
                &&& tree_run(o.project, a, p, is_dir, r)
                &&& final(self).project.tabs == o.project.tabs
                &&& final(self).project.tree@ == tree_after_run(o.project.tree@, a, p, is_dir)
                &&& opt_path(final(self).popups.new_file) == if r is AskName {
                    Some(r->AskName_0@)
                } else {
                    opt_path(o.popups.new_file)
                }
                &&& final(self).popups == (Popups {
                    tree_ctx: None,
                    new_file: final(self).popups.new_file,
                    ..o.popups
                })
                &&& *final(self) == (Storm {
                    project: final(self).project,
                    popups: final(self).popups,
                    ..o
                })
            }),
    {
        let r = self.project.tree_ctx_run(a, &self.popups.tree_ctx, is_dir);
        let new_file = match &r {
            TreeRun::AskName(d) => Some(d.copy()),
            _ => None,
        };
        self.popups.close_tree_menu(new_file);
        r
    }

    /// Which diff is shown: in the push dialog that of its selected file, in a review that of
    /// its selected file, else that of the working tree, on the file selected among the changes
    /// or the active one. `selected_is_file` says whether that selected path is a file.
    pub fn act_show_diff(&self, selected_is_file: bool, filter: &str) -> (r: ShowDiff)
        requires
            self.wf(),
        ensures
            if self.popups.push.open {
                match opt_path(self.popups.push.selected) {
                    Some(p) => r is Push && r->Push_0@ == p,
                    None => r is Nothing,
                }
            } else if self.left.view == LeftView::PullRequest {
                match opt_path(self.review.selected) {
                    Some(p) => r is Review && r->Review_0@ == p,
                    None => r is Nothing,
                }
            } else {
                let focus = if self.commit.selected is Some && selected_is_file {
                    opt_path(self.commit.selected)
                } else {
                    active_file(self.project.tabs)
                };
                let files = working_files(
                    change_paths(change_views(self.repo.status.items@)),
                    focus,
                );
                if files.len() == 0 {
                    r is Nothing
                } else {
                    let at = match focus {
                        Some(p) => first_place(files, p),
                        None => 0,
                    };
                    &&& r is Working
                    &&& r->Working_0@ == (DiffRequestView {
                        files,
                        idx: if at < files.len() {
                            at
                        } else {
                            0
                        },
                        old: None,
                        new_rev: None,
                        pr_mode: false,
                        filter_text: if self.left.view == LeftView::Changes {
                            filter@
                        } else {
                            ""@
                        },
                        view: MarkFilter::All,
                    })
                }
            },
    {
        if self.popups.push.open {
            return match &self.popups.push.selected {
                Some(p) => ShowDiff::Push(p.copy()),
                None => ShowDiff::Nothing,
            };
        }
        if self.left.view == LeftView::PullRequest {
            return match &self.review.selected {
                Some(p) => ShowDiff::Review(p.copy()),
                None => ShowDiff::Nothing,
            };
        }
        let focus = if self.commit.selected.is_some() && selected_is_file {
            copy_opt_path(&self.commit.selected)
        } else {
            self.project.tabs.active_path()
        };
        let text = if self.left.view == LeftView::Changes {
            filter
        } else {
            ""
        };
        match working_diff(&self.repo.status.items, &focus, text) {
            Some(d) => ShowDiff::Working(d),
            None => ShowDiff::Nothing,
        }
    }
}

/// Closing the popups leaves none open, keeps what is in them, and touches no context menu.
pub proof fn closing_keeps_the_contents(s: Popups)
    ensures
        !has_popup(popups_closed(s)),
        popups_closed(s).editor_ctx == s.editor_ctx && popups_closed(s).tree_ctx == s.tree_ctx,
        popups_closed(s).finder.results == s.finder.results && popups_closed(s).find.results == s.find.results,
        popups_closed(s).procs == s.procs && popups_closed(s).push == s.push,
        popups_closed(s).git_popup.branches == s.git_popup.branches && popups_closed(s).palette.results == s.palette.results,
        !has_popup(s) ==> root_key(s, "escape"@).1.finder == s.finder,
        s.palette.open || s.finder.open || s.goto_open || s.find.open || s.git_popup.open || s.conflicts.open || s.ws_open || s.pr_prompt.open
            || s.branch_prompt.open || s.run_prompt || s.new_project || s.new_file is Some <==> has_popup(s),
{
}

/// An input is on screen with every popup that has one, with the process list, and with the list of
/// changes.
pub proof fn inputs_are_on_screen(s: Popups, left: LeftPanel)
    ensures
        s.finder.open || s.goto_open || s.find.open || s.palette.open || s.git_popup.open || s.procs.open || s.pr_prompt.open || s.branch_prompt.open
            || s.run_prompt || s.new_project || s.new_file is Some ==> has_input(s, left),
        left.shown && left.view == LeftView::Changes ==> has_input(s, left),
        has_input(s, left) && !s.procs.open && !(left.shown && left.view == LeftView::Changes) ==> has_popup(s),
        caret_text(true) == "▏"@ && caret_text(false) == " "@,
{
}

/// At first nothing is open, nothing is typed into, and nothing is listed.
pub proof fn nothing_is_open_at_first(r: Popups, own: u32, left: LeftPanel)
    requires
        fresh_popups(r, own),
    ensures
        !has_popup(r),
        !r.procs.open && !r.push.open && !r.push.ahead && !r.editor_ctx && r.tree_ctx is None,
        has_input(r, left) ==> left.shown && left.view == LeftView::Changes,
        r.procs.own == own && r.procs.only_tide && r.procs.workspace_only,
        r.find.results@.len() == 0 && r.palette.results@.len() == 0 && r.procs.list@.len() == 0,
{
}

} // verus!
