//! What surrounds the editor: the top bar, the activity bars, the tabs, the rows of the tree, the
//! dashboard, and the frame of a window.
use vstd::prelude::*;
use crate::badge::{Icon, ext_badge, file_badge, git_color, state_color};
use crate::docks::{AGENT_PANEL, BROWSER_PANEL, Docks, LeftView};
use crate::filetree::{EntryView, FileTree, root_name, tree_selects};
use crate::finder::Finder;
use crate::git::{GitState, GitStatus};
use crate::palette::{GitPopup, Palette};
use crate::path::{FilePath, PathView, name_of, name_or_empty, rel_text};
use crate::pr::{check_words, status_color};
use crate::project::active_file;
use crate::prompts::{BranchPrompt, PrPrompt};
use crate::repo::{Repo, branch_name};
use crate::storm::{Flash, Siblings, Storm};
use crate::text::{cat, cat3, dec, decimal, opt_text};
use crate::theme::{ACCENT, BG, DIR, FOLDER_ICON, GIT_MODIFIED, MUTED, SEL_TEXT, TEXT};

verus! {

// ── the frame ───────────────────────────────────────────────────────────────

/// What is drawn above the panels.
#[derive(Clone, Copy, Debug, PartialEq, Eq, Structural)]
pub enum Overlay {
    Finder,
    Goto,
    NewFile,
    Conflicts,
    BranchPrompt,
    PrPrompt,
    RunPrompt,
    NewProject,
    Find,
    GitPopup,
    BranchActions,
    ConfirmDelete,
    EditorMenu,
    TreeMenu,
    Palette,
    Push,
    Processes,
    PushAhead,
    Projects,
    RunToast,
    Flash,
}

/// What a window draws: its title, its panels and docks, and the overlays from the lowest up.
#[derive(Debug)]
pub struct Frame {
    pub title: String,
    /// The root takes the keyboard, once.
    pub take_focus: bool,
    pub left: Option<LeftView>,
    /// The terminal that is shown.
    pub terminal: Option<usize>,
    pub browser: bool,
    pub agent: bool,
    pub run: bool,
    pub git: bool,
    pub overlays: Vec<Overlay>,
}

/// The overlays with one more on top, where it is to be drawn.
#[verifier::opaque]
pub open spec fn on_top(v: Seq<Overlay>, drawn: bool, o: Overlay) -> Seq<Overlay> {
    if drawn {
        v.push(o)
    } else {
        v
    }
}

/// The overlays with the finder and the prompts above them.
pub open spec fn prompts_of(s: Storm, v: Seq<Overlay>) -> Seq<Overlay> {
    let p = s.popups;
    let v = on_top(v, p.finder.open, Overlay::Finder);
    let v = on_top(v, p.goto_open, Overlay::Goto);
    let v = on_top(v, p.new_file is Some, Overlay::NewFile);
    let v = on_top(v, p.conflicts.open, Overlay::Conflicts);
    let v = on_top(v, p.branch_prompt.open, Overlay::BranchPrompt);
    let v = on_top(v, p.pr_prompt.open, Overlay::PrPrompt);
    let v = on_top(v, p.run_prompt, Overlay::RunPrompt);
    v
}

/// The overlays with the panels and menus above them.
pub open spec fn menus_of(s: Storm, v: Seq<Overlay>) -> Seq<Overlay> {
    let p = s.popups;
    let v = on_top(v, p.new_project, Overlay::NewProject);
    let v = on_top(v, p.find.open, Overlay::Find);
    let v = on_top(v, p.git_popup.open, Overlay::GitPopup);
    let v = on_top(v, p.git_popup.open && p.git_popup.action_branch is Some, Overlay::BranchActions);
    let v = on_top(v, s.project.tree.confirm_delete is Some, Overlay::ConfirmDelete);
    let v = on_top(v, p.editor_ctx, Overlay::EditorMenu);
    let v = on_top(v, p.tree_ctx is Some, Overlay::TreeMenu);
    v
}

/// The overlays with the dialogs and messages above them.
pub open spec fn dialogs_of(s: Storm, v: Seq<Overlay>) -> Seq<Overlay> {
    let p = s.popups;
    let v = on_top(v, p.palette.open, Overlay::Palette);
    let v = on_top(v, p.push.open, Overlay::Push);
    let v = on_top(v, p.procs.open, Overlay::Processes);
    let v = on_top(v, p.push.ahead, Overlay::PushAhead);
    let v = on_top(v, p.ws_open, Overlay::Projects);
    let v = on_top(v, s.docks.run.active && !s.docks.run.open, Overlay::RunToast);
    let v = on_top(v, s.flash.msg is Some, Overlay::Flash);
    v
}

/// The overlays of a window, from the lowest up.
pub open spec fn overlays_of(s: Storm) -> Seq<Overlay> {
    dialogs_of(s, menus_of(s, prompts_of(s, Seq::empty())))
}

fn push_when(v: &mut Vec<Overlay>, b: bool, o: Overlay)
    ensures
        final(v)@ == on_top(old(v)@, b, o),
{
    proof {
        reveal(on_top);
    }
    if b {
        v.push(o);
    }
}

fn push_prompts(s: &Storm, v: &mut Vec<Overlay>)
    ensures
        final(v)@ == prompts_of(*s, old(v)@),
{
    let p = &s.popups;
    push_when(v, p.finder.open, Overlay::Finder);
    push_when(v, p.goto_open, Overlay::Goto);
    push_when(v, p.new_file.is_some(), Overlay::NewFile);
    push_when(v, p.conflicts.open, Overlay::Conflicts);
    push_when(v, p.branch_prompt.open, Overlay::BranchPrompt);
    push_when(v, p.pr_prompt.open, Overlay::PrPrompt);
    push_when(v, p.run_prompt, Overlay::RunPrompt);
}

fn push_menus(s: &Storm, v: &mut Vec<Overlay>)
    ensures
        final(v)@ == menus_of(*s, old(v)@),
{
    let p = &s.popups;
    push_when(v, p.new_project, Overlay::NewProject);
    push_when(v, p.find.open, Overlay::Find);
    push_when(v, p.git_popup.open, Overlay::GitPopup);
    push_when(
        v,
        p.git_popup.open && p.git_popup.action_branch.is_some(),
        Overlay::BranchActions,
    );
    push_when(v, s.project.tree.confirm_delete.is_some(), Overlay::ConfirmDelete);
    push_when(v, p.editor_ctx, Overlay::EditorMenu);
    push_when(v, p.tree_ctx.is_some(), Overlay::TreeMenu);
}

fn push_dialogs(s: &Storm, v: &mut Vec<Overlay>)
    ensures
        final(v)@ == dialogs_of(*s, old(v)@),
{
    let p = &s.popups;
    push_when(v, p.palette.open, Overlay::Palette);
    push_when(v, p.push.open, Overlay::Push);
    push_when(v, p.procs.open, Overlay::Processes);
    push_when(v, p.push.ahead, Overlay::PushAhead);
    push_when(v, p.ws_open, Overlay::Projects);
    push_when(v, s.docks.run.active && !s.docks.run.open, Overlay::RunToast);
    push_when(v, s.flash.msg.is_some(), Overlay::Flash);
}

fn overlays(s: &Storm) -> (r: Vec<Overlay>)
    ensures
        r@ == overlays_of(*s),
{
    let mut v: Vec<Overlay> = Vec::new();
    push_prompts(s, &mut v);
    push_menus(s, &mut v);
    push_dialogs(s, &mut v);
    v
}

/// The title of a window: its project, and the name of the active file.
pub open spec fn window_title(root: PathView, active: Option<PathView>) -> Seq<char> {
    let name = root_name(root, "tide"@);
    match active {
        Some(p) => name + " - "@ + name_or_empty(p),
        None => name,
    }
}

impl Storm {
    /// What is drawn. The first time, the root takes the keyboard.
    pub fn frame(&mut self) -> (r: Frame)
        requires
            old(self).wf(),
        ensures
            *final(self) == (Storm { inited: true, ..*old(self) }),
            r.take_focus == !old(self).inited,
            r.title@ == window_title(
                old(self).project.tree@.root,
                active_file(old(self).project.tabs),
            ),
            r.left == if old(self).left.shown {
                Some(old(self).left.view)
            } else {
                None
            },
            r.terminal == if old(self).docks.show_terminal {
                old(self).docks.terminals.current()
            } else {
                None
            },
            r.browser == old(self).docks.browser_open,
            r.agent == old(self).docks.agent_open,
            r.run == old(self).docks.run.open,
            r.git == old(self).docks.git_open,
            r.overlays@ == overlays_of(*old(self)),
            !(r.run && r.git),
            !(r.terminal is Some && r.browser),
    {
        let overlays = overlays(self);
        let name = self.project.tree.project_name();
        let title = match self.project.tabs.active_path() {
            Some(p) => {
                let n = p.file_name_text();
                cat3(name.as_str(), " - ", n.as_str())
            },
            None => name,
        };
        let d = &self.docks;
        let terminal = if d.show_terminal && d.terminals.active < d.terminals.items.len() {
            Some(d.terminals.items[d.terminals.active])
        } else {
            None
        };
        let left = if self.left.shown {
            Some(self.left.view)
        } else {
            None
        };
        let r = Frame {
            title,
            take_focus: !self.inited,
            left,
            terminal,
            browser: d.browser_open,
            agent: d.agent_open,
            run: d.run.open,
            git: d.git_open,
            overlays,
        };
        self.inited = true;
        r
    }
}

// ── the top bar ─────────────────────────────────────────────────────────────

/// The top bar: the project, the branch and where it goes, the pull request, the mode and the
/// memory used.
#[derive(Debug)]
pub struct TopBar {
    pub project: String,
    /// The branch, and the branch it goes into.
    pub branch: Option<(String, Option<String>)>,
    /// The number of the pull request and the colour of its checks.
    pub pr: Option<(String, u32)>,
    pub no_pr: bool,
    /// What the button that asks for the pull request says.
    pub refresh_tip: Option<&'static str>,
    pub mode: &'static str,
    pub mode_bg: u32,
    pub mode_fg: u32,
    pub memory: String,
}

/// The branch that a branch goes into: the base of its pull request, which is sure, else the one
/// it was made from.
pub open spec fn target_branch(r: Repo) -> Option<Seq<char>> {
    if r.pr_link is Some && (r.pr_link->0).base@.len() > 0 {
        Some((r.pr_link->0).base@)
    } else {
        opt_text(r.parent)
    }
}

fn target_of(r: &Repo) -> (t: Option<String>)
    ensures
        opt_text(t) == target_branch(*r),
{
    if let Some(l) = &r.pr_link {
        if !l.base.as_str().is_empty() {
            return Some(l.base.clone());
        }
    }
    match &r.parent {
        Some(p) => Some(p.clone()),
        None => None,
    }
}

/// The top bar of a window.
pub fn topbar(s: &Storm) -> (r: TopBar)
    ensures
        r.project@ == root_name(s.project.tree@.root, "tide"@),
        ({
            let known = s.repo.branch@.len() > 0;
            &&& r.branch is Some == known
            &&& known ==> {
                &&& (r.branch->0).0@ == "⎇ "@ + branch_name(s.repo)
                &&& opt_text((r.branch->0).1) == match target_branch(s.repo) {
                    Some(t) => Some("→ "@ + t),
                    None => None,
                }
            }
            &&& match s.repo.pr_link {
                Some(l) => r.pr is Some && (r.pr->0).0@ == "#"@ + dec(l.number as nat) && (r.pr->0).1
                    == status_color(l.status),
                None => r.pr is None,
            }
            &&& r.no_pr == (known && s.repo.pr_link is None)
            &&& r.refresh_tip is Some == known
            &&& known ==> (r.refresh_tip->0)@ == if s.repo.pr_link is Some {
                "Refresh PR status"@
            } else {
                "Check for a PR"@
            }
        }),
        r.mode@ == if s.read_only {
            "🔒 READ-ONLY"@
        } else {
            "✎ EDIT"@
        },
        r.mode_bg == if s.read_only {
            ACCENT
        } else {
            GIT_MODIFIED
        },
        r.mode_fg == if s.read_only {
            SEL_TEXT
        } else {
            BG
        },
        r.memory@ == dec(s.repo.mem_mb as nat) + " MB"@,
{
    let known = !s.repo.branch.as_str().is_empty();
    let branch = if known {
        let b = s.repo.branch_label();
        let t = match target_of(&s.repo) {
            Some(t) => Some(cat("→ ", t.as_str())),
            None => None,
        };
        Some((cat("⎇ ", b.as_str()), t))
    } else {
        None
    };
    let pr = match &s.repo.pr_link {
        Some(l) => {
            let n = decimal(l.number);
            Some((cat("#", n.as_str()), l.status.color()))
        },
        None => None,
    };
    let no_pr = known && s.repo.pr_link.is_none();
    let refresh_tip = if !known {
        None
    } else if s.repo.pr_link.is_some() {
        Some("Refresh PR status")
    } else {
        Some("Check for a PR")
    };
    let mb = decimal(s.repo.mem_mb);
    TopBar {
        project: s.project.tree.project_name(),
        branch,
        pr,
        no_pr,
        refresh_tip,
        mode: if s.read_only {
            "🔒 READ-ONLY"
        } else {
            "✎ EDIT"
        },
        mode_bg: if s.read_only {
            ACCENT
        } else {
            GIT_MODIFIED
        },
        mode_fg: if s.read_only {
            SEL_TEXT
        } else {
            BG
        },
        memory: cat(mb.as_str(), " MB"),
    }
}

/// The text that the button by the branch copies, with what to say of it.
pub fn copy_branch(r: &Repo) -> (t: Option<(String, &'static str)>)
    ensures
        match t {
            Some(x) => r.branch@.len() > 0 && x.0@ == r.branch@ && x.1@ == "Branch name copied"@,
            None => r.branch@.len() == 0,
        },
{
    if r.branch.as_str().is_empty() {
        None
    } else {
        Some((r.branch.clone(), "Branch name copied"))
    }
}

// ── the project switcher ────────────────────────────────────────────────────

/// One project in the switcher.
#[derive(Debug)]
pub struct ProjectRow {
    pub name: String,
    pub branch: Option<String>,
    pub selected: bool,
    pub can_close: bool,
}

/// Whether a row shows a project: by its name and, where it is known, its branch. The last
/// project cannot be closed.
pub open spec fn shows_project(s: Siblings, i: int, r: ProjectRow) -> bool {
    &&& r.name@ == s.names@[i]@
    &&& opt_text(r.branch) == if i < s.branches@.len() && s.branches@[i]@.len() > 0 {
        Some("⎇ "@ + s.branches@[i]@)
    } else {
        None
    }
    &&& r.selected == (i == s.active)
    &&& r.can_close == (s.names@.len() > 1)
}

/// The projects in the switcher.
pub fn project_rows(s: &Siblings) -> (r: Vec<ProjectRow>)
    ensures
        r@.len() == s.names@.len(),
        forall|i: int| 0 <= i < r@.len() ==> shows_project(*s, i, #[trigger] r@[i]),
{
    let mut out: Vec<ProjectRow> = Vec::new();
    let mut i: usize = 0;
    while i < s.names.len()
        invariant
            i <= s.names.len(),
            out.len() == i,
            forall|j: int| 0 <= j < i ==> shows_project(*s, j, #[trigger] out@[j]),
        decreases s.names.len() - i,
    {
        let branch = if i < s.branches.len() && !s.branches[i].as_str().is_empty() {
            Some(cat("⎇ ", s.branches[i].as_str()))
        } else {
            None
        };
        let row = ProjectRow {
            name: s.names[i].clone(),
            branch,
            selected: i == s.active,
            can_close: s.names.len() > 1,
        };
        assert(shows_project(*s, i as int, row));
        out.push(row);
        i = i + 1;
    }
    out
}

// ── the activity bars ───────────────────────────────────────────────────────

/// An icon of an activity bar.
#[derive(Debug)]
pub struct ActivityIcon {
    pub icon: Icon,
    pub tip: &'static str,
    pub active: bool,
    pub badge: Option<String>,
}

/// What the badge of an icon says of a count.
pub open spec fn badge_label(n: nat) -> Option<Seq<char>> {
    if n == 0 {
        None
    } else if n > 99 {
        Some("99+"@)
    } else {
        Some(dec(n))
    }
}

/// The badge of an icon.
pub fn activity_badge(n: usize) -> (r: Option<String>)
    ensures
        opt_text(r) == badge_label(n as nat),
{
    if n == 0 {
        None
    } else if n > 99 {
        Some("99+".to_owned())
    } else {
        Some(decimal(n as u64))
    }
}

/// The icons of the left bar: the three panels on top, the run console and the git log below.
pub fn activity_left(s: &Storm) -> (r: Vec<ActivityIcon>)
    ensures
        r@.len() == 5,
        r@[0].icon == Icon::Files && r@[0].tip@ == "Files"@ && r@[0].badge is None,
        r@[0].active == (s.left.shown && s.left.view == LeftView::Files),
        r@[1].icon == Icon::Scm && r@[1].tip@ == "Commit"@,
        opt_text(r@[1].badge) == badge_label(s.repo.status.items@.len()),
        r@[1].active == (s.left.shown && s.left.view == LeftView::Changes),
        r@[2].icon == Icon::Pr && r@[2].tip@ == "Pull Request Review"@ && r@[2].badge is None,
        r@[2].active == (s.left.shown && s.left.view == LeftView::PullRequest),
        r@[3].icon == Icon::Run && r@[3].tip@ == "Run console"@ && r@[3].badge is None,
        r@[3].active == s.docks.run.open,
        r@[4].icon == Icon::Branch && r@[4].tip@ == "Git  (⌘9)"@ && r@[4].badge is None,
        r@[4].active == s.docks.git_open,
{
    let badge = activity_badge(s.repo.status.items.len());
    let mut v: Vec<ActivityIcon> = Vec::new();
    v.push(
        ActivityIcon {
            icon: Icon::Files,
            tip: "Files",
            active: s.left.shown && s.left.view == LeftView::Files,
            badge: None,
        },
    );
    v.push(
        ActivityIcon {
            icon: Icon::Scm,
            tip: "Commit",
            active: s.left.shown && s.left.view == LeftView::Changes,
            badge,
        },
    );
    v.push(
        ActivityIcon {
            icon: Icon::Pr,
            tip: "Pull Request Review",
            active: s.left.shown && s.left.view == LeftView::PullRequest,
            badge: None,
        },
    );
    v.push(
        ActivityIcon { icon: Icon::Run, tip: "Run console", active: s.docks.run.open, badge: None },
    );
    v.push(
        ActivityIcon { icon: Icon::Branch, tip: "Git  (⌘9)", active: s.docks.git_open, badge: None },
    );
    v
}

/// The icons of the right bar: the terminal, and what is not parked of the browser and the
/// agent.
pub fn activity_right(d: &Docks) -> (r: Vec<ActivityIcon>)
    ensures
        r@.len() == 1 + (if BROWSER_PANEL {
            1int
        } else {
            0
        }) + (if AGENT_PANEL {
            1int
        } else {
            0
        }),
        r@[0].icon == Icon::Terminal && r@[0].tip@ == "Terminal  (⌥F12)"@ && r@[0].active
            == d.show_terminal && r@[0].badge is None,
        BROWSER_PANEL ==> r@[1].icon == Icon::Browser && r@[1].tip@ == "Browser"@ && r@[1].active
            == d.browser_open && r@[1].badge is None,
        AGENT_PANEL ==> r@.last().icon == Icon::Tools && r@.last().tip@ == "Agent  (⌘⇧A)"@
            && r@.last().active == d.agent_open && r@.last().badge is None,
{
    let mut v: Vec<ActivityIcon> = Vec::new();
    v.push(
        ActivityIcon {
            icon: Icon::Terminal,
            tip: "Terminal  (⌥F12)",
            active: d.show_terminal,
            badge: None,
        },
    );
    if BROWSER_PANEL {
        v.push(
            ActivityIcon {
                icon: Icon::Browser,
                tip: "Browser",
                active: d.browser_open,
                badge: None,
            },
        );
    }
    if AGENT_PANEL {
        v.push(
            ActivityIcon {
                icon: Icon::Tools,
                tip: "Agent  (⌘⇧A)",
                active: d.agent_open,
                badge: None,
            },
        );
    }
    v
}

/// The label of terminal `ix` and its colour.
pub fn terminal_label(ix: usize, active: bool) -> (r: (String, u32))
    requires
        ix < usize::MAX,
    ensures
        r.0@ == "Terminal "@ + dec((ix + 1) as nat),
        r.1 == if active {
            TEXT
        } else {
            MUTED
        },
{
    let n = decimal((ix + 1) as u64);
    (
        cat("Terminal ", n.as_str()),
        if active {
            TEXT
        } else {
            MUTED
        },
    )
}

// ── tabs and the path above the editor ──────────────────────────────────────

/// The colour of a tab: that of the file's state, else by whether it is active.
pub open spec fn tab_color(git: Map<PathView, GitState>, p: PathView, active: bool) -> u32 {
    if git.dom().contains(p) {
        state_color(git[p])
    } else if active {
        TEXT
    } else {
        MUTED
    }
}

/// The label of a tab and its colour; unsaved changes are marked.
pub fn tab_label(git: &GitStatus, path: &FilePath, active: bool, dirty: bool) -> (r: (String, u32))
    requires
        git.wf(),
    ensures
        r.0@ == if dirty {
            "● "@ + name_or_empty(path@)
        } else {
            name_or_empty(path@)
        },
        r.1 == tab_color(git@, path@, active),
{
    let name = path.file_name_text();
    let color = match git.get(path) {
        Some(s) => git_color(s),
        None => if active {
            TEXT
        } else {
            MUTED
        },
    };
    (
        if dirty {
            cat("● ", name.as_str())
        } else {
            name
        },
        color,
    )
}

/// The path above the editor: below the root, or the name alone for a scratch buffer. Says
/// whether it can be copied.
pub fn crumb(root: &FilePath, path: &FilePath, scratch: bool) -> (r: (String, bool))
    ensures
        r.0@ == if scratch {
            name_or_empty(path@)
        } else {
            rel_text(root@, path@)
        },
        r.1 == !scratch,
{
    if scratch {
        (path.file_name_text(), false)
    } else {
        (root.rel(path), true)
    }
}

// ── references ──────────────────────────────────────────────────────────────

/// The reference to a line of a file.
pub fn line_reference(root: &FilePath, path: &FilePath, line: usize) -> (r: String)
    ensures
        r@ == rel_text(root@, path@) + ":"@ + dec(line as nat),
{
    let p = root.rel(path);
    let n = decimal(line as u64);
    cat3(p.as_str(), ":", n.as_str())
}

/// What is said when paths were copied.
pub fn copied_label(n: usize) -> (r: String)
    ensures
        r@ == "Copied "@ + dec(n as nat) + " paths"@,
{
    let d = decimal(n as u64);
    cat3("Copied ", d.as_str(), " paths")
}

/// The address of a branch on the web, or of a line of a file in it.
pub open spec fn web_address(base: Seq<char>, branch: Seq<char>, at: Option<(Seq<char>, nat)>) -> Seq<char> {
    let b = if branch.len() == 0 {
        "main"@
    } else {
        branch
    };
    match at {
        Some((rel, line)) => base + "/blob/"@ + b + ("/"@ + rel + "#L"@) + dec(line),
        None => base + "/tree/"@ + b,
    }
}

/// The address of the active file and line on the web, or of the branch where no file is open.
pub fn github_address(base: &str, branch: &str, root: &FilePath, at: &Option<(FilePath, usize)>) -> (r: String)
    ensures
        r@ == web_address(
            base@,
            branch@,
            match at {
                Some(x) => Some((rel_text(root@, x.0@), x.1 as nat)),
                None => None,
            },
        ),
{
    let b = if branch.is_empty() {
        "main"
    } else {
        branch
    };
    match at {
        Some(x) => {
            let head = cat3(base, "/blob/", b);
            let rel = root.rel(&x.0);
            let mid = cat3("/", rel.as_str(), "#L");
            let n = decimal(x.1 as u64);
            cat3(head.as_str(), mid.as_str(), n.as_str())
        },
        None => cat3(base, "/tree/", b),
    }
}

// ── the tree ────────────────────────────────────────────────────────────────

/// How a row of the tree is drawn.
#[derive(Debug)]
pub struct TreeLook {
    pub name: String,
    pub depth: usize,
    pub selected: bool,
    pub dimmed: bool,
    pub fg: u32,
    pub chevron: &'static str,
    pub chevron_color: u32,
    pub icon: String,
    pub icon_color: u32,
}

/// The colour of a row's name: a file goes by its state.
pub open spec fn entry_color(e: EntryView, selected: bool, git: Map<PathView, GitState>) -> u32 {
    if selected {
        SEL_TEXT
    } else if e.is_dir {
        DIR
    } else if git.dom().contains(e.path) {
        state_color(git[e.path])
    } else {
        TEXT
    }
}

/// How row `ix` of the tree is drawn.
pub fn tree_look(t: &FileTree, git: &GitStatus, ix: usize) -> (r: TreeLook)
    requires
        t.wf(),
        git.wf(),
        ix < t.entries@.len(),
    ensures
        ({
            let e = t.entries@[ix as int]@;
            let sel = tree_selects(t@, e.path);
            &&& r.name@ == e.name
            &&& r.depth == e.depth
            &&& r.selected == sel
            &&& r.dimmed == e.ignored
            &&& r.fg == entry_color(e, sel, git@)
            &&& r.chevron@ == if !e.is_dir {
                ""@
            } else if t@.expanded.contains(e.path) {
                "▾"@
            } else {
                "▸"@
            }
            &&& r.chevron_color == if sel {
                SEL_TEXT
            } else {
                DIR
            }
            &&& r.icon@ == if e.is_dir {
                seq![Icon::Folder.glyph_of()]
            } else {
                file_badge(e.path).0
            }
            &&& r.icon_color == if sel {
                SEL_TEXT
            } else if e.is_dir {
                FOLDER_ICON
            } else {
                file_badge(e.path).1
            }
        }),
{
    let e = &t.entries[ix];
    let selected = t.is_tree_selected(&e.path);
    let fg: u32 = if selected {
        SEL_TEXT
    } else if e.is_dir {
        DIR
    } else {
        match git.get(&e.path) {
            Some(s) => git_color(s),
            None => TEXT,
        }
    };
    let chevron = if !e.is_dir {
        ""
    } else if t.expanded.contains(&e.path) {
        "▾"
    } else {
        "▸"
    };
    let icon = if e.is_dir {
        (Icon::Folder.glyph_text(), FOLDER_ICON)
    } else {
        ext_badge(&e.path)
    };
    TreeLook {
        name: e.name.clone(),
        depth: e.depth,
        selected,
        dimmed: e.ignored,
        fg,
        chevron,
        chevron_color: if selected {
            SEL_TEXT
        } else {
            DIR
        },
        icon: icon.0,
        icon_color: if selected {
            SEL_TEXT
        } else {
            icon.1
        },
    }
}

/// What the dialog before a deletion asks and says.
pub fn confirm_delete_text(path: &FilePath, is_dir: bool) -> (r: (&'static str, String))
    ensures
        r.0@ == if is_dir {
            "Delete folder?"@
        } else {
            "Delete file?"@
        },
        r.1@ == "“"@ + name_or_empty(path@) + (if is_dir {
            "” and all its contents will be permanently deleted."@
        } else {
            "” will be permanently deleted."@
        }),
{
    let name = path.file_name_text();
    let (ask, rest) = if is_dir {
        ("Delete folder?", "” and all its contents will be permanently deleted.")
    } else {
        ("Delete file?", "” will be permanently deleted.")
    };
    (ask, cat3("“", name.as_str(), rest))
}

// ── the dashboard ───────────────────────────────────────────────────────────

/// What an empty editor shows of the work: the project, the branch, the pull request and how
/// many files have changed.
#[derive(Debug)]
pub struct StatusCard {
    pub project: String,
    pub branch: String,
    pub pr: StatusPr,
    pub changes: String,
    pub changes_icon: u32,
    pub changes_color: u32,
}

/// The pull request in the dashboard.
#[derive(Debug)]
pub enum StatusPr {
    /// Its number, its base, and what is said of its checks and in which colour.
    Link(String, String, &'static str, u32),
    /// There is none; the branch was made from this one.
    Missing(Option<String>),
}

/// What the dashboard says of the changed files.
pub open spec fn changes_text(n: nat) -> Seq<char> {
    if n == 0 {
        "Working tree clean"@
    } else if n == 1 {
        dec(n) + " uncommitted file"@
    } else {
        dec(n) + " uncommitted files"@
    }
}

/// The dashboard of a window.
pub fn status_card(s: &Storm) -> (r: StatusCard)
    ensures
        r.project@ == root_name(s.project.tree@.root, "tide"@),
        r.branch@ == branch_name(s.repo),
        match s.repo.pr_link {
            Some(l) => match r.pr {
                StatusPr::Link(num, base, word, color) => {
                    &&& num@ == "PR #"@ + dec(l.number as nat)
                    &&& base@ == l.base@
                    &&& word@ == check_words(l.status)
                    &&& color == status_color(l.status)
                },
                StatusPr::Missing(_) => false,
            },
            None => match r.pr {
                StatusPr::Link(..) => false,
                StatusPr::Missing(p) => opt_text(p) == opt_text(s.repo.parent),
            },
        },
        r.changes@ == changes_text(s.repo.status.items@.len()),
        r.changes_icon == if s.repo.status.items@.len() > 0 {
            GIT_MODIFIED
        } else {
            MUTED
        },
        r.changes_color == if s.repo.status.items@.len() > 0 {
            TEXT
        } else {
            MUTED
        },
{
    let n: usize = s.repo.status.items.len();
    let pr = match &s.repo.pr_link {
        Some(l) => {
            let d = decimal(l.number);
            let w = l.status.label();
            StatusPr::Link(cat("PR #", d.as_str()), l.base.clone(), w.0, w.1)
        },
        None => StatusPr::Missing(
            match &s.repo.parent {
                Some(p) => Some(p.clone()),
                None => None,
            },
        ),
    };
    let changes = if n == 0 {
        "Working tree clean".to_owned()
    } else {
        let d = decimal(n as u64);
        cat(
            d.as_str(),
            if n == 1 {
                " uncommitted file"
            } else {
                " uncommitted files"
            },
        )
    };
    StatusCard {
        project: s.project.tree.project_name(),
        branch: s.repo.branch_label(),
        pr,
        changes,
        changes_icon: if n > 0 {
            GIT_MODIFIED
        } else {
            MUTED
        },
        changes_color: if n > 0 {
            TEXT
        } else {
            MUTED
        },
    }
}

// ── what a window draws ─────────────────────────────────────────────────────

proof fn lemma_on_top(v: Seq<Overlay>, drawn: bool, o: Overlay, x: Overlay)
    ensures
        on_top(v, drawn, o).contains(x) <==> v.contains(x) || (drawn && x == o),
{
    reveal(on_top);
    let r = on_top(v, drawn, o);
    if drawn {
        assert(r[r.len() - 1] == o);
        if v.contains(x) {
            let k = choose|k: int| 0 <= k < v.len() && v[k] == x;
            assert(r[k] == x);
        }
        if r.contains(x) && x != o {
            let k = choose|k: int| 0 <= k < r.len() && r[k] == x;
            assert(v[k] == x);
        }
    }
}

proof fn lemma_prompts(s: Storm, v: Seq<Overlay>, x: Overlay)
    ensures
        prompts_of(s, v).contains(x) <==> v.contains(x) || match x {
            Overlay::Finder => s.popups.finder.open,
            Overlay::Goto => s.popups.goto_open,
            Overlay::NewFile => s.popups.new_file is Some,
            Overlay::Conflicts => s.popups.conflicts.open,
            Overlay::BranchPrompt => s.popups.branch_prompt.open,
            Overlay::PrPrompt => s.popups.pr_prompt.open,
            Overlay::RunPrompt => s.popups.run_prompt,
            _ => false,
        },
{
    let p = s.popups;
    let a = on_top(v, p.finder.open, Overlay::Finder);
    let b = on_top(a, p.goto_open, Overlay::Goto);
    let c = on_top(b, p.new_file is Some, Overlay::NewFile);
    let d = on_top(c, p.conflicts.open, Overlay::Conflicts);
    let e = on_top(d, p.branch_prompt.open, Overlay::BranchPrompt);
    let f = on_top(e, p.pr_prompt.open, Overlay::PrPrompt);
    lemma_on_top(v, p.finder.open, Overlay::Finder, x);
    lemma_on_top(a, p.goto_open, Overlay::Goto, x);
    lemma_on_top(b, p.new_file is Some, Overlay::NewFile, x);
    lemma_on_top(c, p.conflicts.open, Overlay::Conflicts, x);
    lemma_on_top(d, p.branch_prompt.open, Overlay::BranchPrompt, x);
    lemma_on_top(e, p.pr_prompt.open, Overlay::PrPrompt, x);
    lemma_on_top(f, p.run_prompt, Overlay::RunPrompt, x);
}

proof fn lemma_menus(s: Storm, v: Seq<Overlay>, x: Overlay)
    ensures
        menus_of(s, v).contains(x) <==> v.contains(x) || match x {
            Overlay::NewProject => s.popups.new_project,
            Overlay::Find => s.popups.find.open,
            Overlay::GitPopup => s.popups.git_popup.open,
            Overlay::BranchActions => s.popups.git_popup.open && s.popups.git_popup.action_branch is Some,
            Overlay::ConfirmDelete => s.project.tree.confirm_delete is Some,
            Overlay::EditorMenu => s.popups.editor_ctx,
            Overlay::TreeMenu => s.popups.tree_ctx is Some,
            _ => false,
        },
{
    let p = s.popups;
    let g = p.git_popup.open && p.git_popup.action_branch is Some;
    let a = on_top(v, p.new_project, Overlay::NewProject);
    let b = on_top(a, p.find.open, Overlay::Find);
    let c = on_top(b, p.git_popup.open, Overlay::GitPopup);
    let d = on_top(c, g, Overlay::BranchActions);
    let e = on_top(d, s.project.tree.confirm_delete is Some, Overlay::ConfirmDelete);
    let f = on_top(e, p.editor_ctx, Overlay::EditorMenu);
    lemma_on_top(v, p.new_project, Overlay::NewProject, x);
    lemma_on_top(a, p.find.open, Overlay::Find, x);
    lemma_on_top(b, p.git_popup.open, Overlay::GitPopup, x);
    lemma_on_top(c, g, Overlay::BranchActions, x);
    lemma_on_top(d, s.project.tree.confirm_delete is Some, Overlay::ConfirmDelete, x);
    lemma_on_top(e, p.editor_ctx, Overlay::EditorMenu, x);
    lemma_on_top(f, p.tree_ctx is Some, Overlay::TreeMenu, x);
}

proof fn lemma_dialogs(s: Storm, v: Seq<Overlay>, x: Overlay)
    ensures
        dialogs_of(s, v).contains(x) <==> v.contains(x) || match x {
            Overlay::Palette => s.popups.palette.open,
            Overlay::Push => s.popups.push.open,
            Overlay::Processes => s.popups.procs.open,
            Overlay::PushAhead => s.popups.push.ahead,
            Overlay::Projects => s.popups.ws_open,
            Overlay::RunToast => s.docks.run.active && !s.docks.run.open,
            Overlay::Flash => s.flash.msg is Some,
            _ => false,
        },
{
    let p = s.popups;
    let t = s.docks.run.active && !s.docks.run.open;
    let a = on_top(v, p.palette.open, Overlay::Palette);
    let b = on_top(a, p.push.open, Overlay::Push);
    let c = on_top(b, p.procs.open, Overlay::Processes);
    let d = on_top(c, p.push.ahead, Overlay::PushAhead);
    let e = on_top(d, p.ws_open, Overlay::Projects);
    let f = on_top(e, t, Overlay::RunToast);
    lemma_on_top(v, p.palette.open, Overlay::Palette, x);
    lemma_on_top(a, p.push.open, Overlay::Push, x);
    lemma_on_top(b, p.procs.open, Overlay::Processes, x);
    lemma_on_top(c, p.push.ahead, Overlay::PushAhead, x);
    lemma_on_top(d, p.ws_open, Overlay::Projects, x);
    lemma_on_top(e, t, Overlay::RunToast, x);
    lemma_on_top(f, s.flash.msg is Some, Overlay::Flash, x);
}

/// Whether what an overlay draws is open.
pub open spec fn overlay_open(s: Storm, x: Overlay) -> bool {
    match x {
        Overlay::Finder => s.popups.finder.open,
        Overlay::Goto => s.popups.goto_open,
        Overlay::NewFile => s.popups.new_file is Some,
        Overlay::Conflicts => s.popups.conflicts.open,
        Overlay::BranchPrompt => s.popups.branch_prompt.open,
        Overlay::PrPrompt => s.popups.pr_prompt.open,
        Overlay::RunPrompt => s.popups.run_prompt,
        Overlay::NewProject => s.popups.new_project,
        Overlay::Find => s.popups.find.open,
        Overlay::GitPopup => s.popups.git_popup.open,
        Overlay::BranchActions => s.popups.git_popup.open && s.popups.git_popup.action_branch is Some,
        Overlay::ConfirmDelete => s.project.tree.confirm_delete is Some,
        Overlay::EditorMenu => s.popups.editor_ctx,
        Overlay::TreeMenu => s.popups.tree_ctx is Some,
        Overlay::Palette => s.popups.palette.open,
        Overlay::Push => s.popups.push.open,
        Overlay::Processes => s.popups.procs.open,
        Overlay::PushAhead => s.popups.push.ahead,
        Overlay::Projects => s.popups.ws_open,
        Overlay::RunToast => s.docks.run.active && !s.docks.run.open,
        Overlay::Flash => s.flash.msg is Some,
    }
}

/// A popup, a menu, a dialog or a message is drawn exactly where it is open.
pub proof fn what_is_open_is_drawn(s: Storm, x: Overlay)
    ensures
        overlays_of(s).contains(x) <==> overlay_open(s, x),
{
    let e = Seq::<Overlay>::empty();
    let a = prompts_of(s, e);
    let b = menus_of(s, a);
    lemma_prompts(s, e, x);
    lemma_menus(s, a, x);
    lemma_dialogs(s, b, x);
}

/// A window goes by its project and, where a file is open, by the name of that file.
pub proof fn windows_are_titled(root: PathView, p: PathView, n: Seq<char>)
    ensures
        window_title(root, None) == root_name(root, "tide"@),
        name_of(root) is Some && name_of(p) is Some ==> window_title(root, Some(p)) == name_of(root)->0 + " - "@ + name_of(p)->0,
        name_of(root) is None ==> root_name(root, n) == n,
{
}

/// A branch goes into the base of its pull request where that is known, else into the branch it was
/// made from.
pub proof fn a_branch_goes_into_its_base(r: Repo)
    ensures
        r.pr_link is Some && (r.pr_link->0).base@.len() > 0 ==> target_branch(r) == Some((r.pr_link->0).base@),
        r.pr_link is None && r.parent is Some ==> target_branch(r) == Some(r.parent->0@),
        r.pr_link is None && r.parent is None ==> target_branch(r) is None,
{
}

/// A badge counts up to 99 and says of more that it is more; nothing is not counted.
pub proof fn badges_count_to_99(n: nat)
    ensures
        badge_label(0) is None,
        1 <= n <= 99 ==> badge_label(n) == Some(dec(n)),
        n >= 100 ==> badge_label(n) == Some("99+"@),
        changes_text(0) == "Working tree clean"@,
        changes_text(1) == dec(1) + " uncommitted file"@,
        n >= 2 ==> changes_text(n) == dec(n) + " uncommitted files"@,
{
}

/// The address on the web is that of the line in the file on the branch, or of the branch where no
/// file is open; without a branch it is that of main.
pub proof fn addresses_lead_to_the_line(base: Seq<char>, b: Seq<char>, rel: Seq<char>, line: nat)
    requires
        b.len() > 0,
    ensures
        web_address(base, b, Some((rel, line))) == base + "/blob/"@ + b + ("/"@ + rel + "#L"@) + dec(line),
        web_address(base, b, None) == base + "/tree/"@ + b,
        web_address(base, Seq::empty(), None) == web_address(base, "main"@, None),
        web_address(base, Seq::empty(), Some((rel, line))) == web_address(base, "main"@, Some((rel, line))),
{
    reveal_strlit("main");
}

/// A changed file has the colour of its state, in its tab and in the tree; one that is selected in the
/// tree is white, and an unchanged tab is bright where it is active.
pub proof fn names_have_the_colour_of_their_state(git: Map<PathView, GitState>, e: EntryView, p: PathView, active: bool)
    ensures
        git.dom().contains(p) ==> tab_color(git, p, active) == state_color(git[p]),
        !git.dom().contains(p) ==> tab_color(git, p, true) == 0xbcbec4 && tab_color(git, p, false) == 0x7a7e85,
        entry_color(e, true, git) == 0xffffff,
        !e.is_dir && git.dom().contains(e.path) ==> entry_color(e, false, git) == state_color(git[e.path]),
        !e.is_dir && !git.dom().contains(e.path) ==> entry_color(e, false, git) == 0xbcbec4,
        e.is_dir ==> entry_color(e, false, git) == 0xbcbec4,
{
}

/// A project is listed by its name and its branch, stands out where it is the active one, and can be
/// closed where it is not the last.
pub proof fn projects_are_listed(s: Siblings, i: int, r: ProjectRow)
    requires
        0 <= i < s.names@.len(),
        shows_project(s, i, r),
    ensures
        r.name@ == s.names@[i]@,
        i < s.branches@.len() && s.branches@[i]@.len() > 0 ==> r.branch is Some && (r.branch->0)@ == "⎇ "@ + s.branches@[i]@,
        i >= s.branches@.len() || s.branches@[i]@.len() == 0 ==> r.branch is None,
        r.selected <==> i == s.active,
        s.names@.len() == 1 ==> !r.can_close,
        s.names@.len() >= 2 ==> r.can_close,
{
}

} // verus!
