//! The command palette and the popup of branches and git actions.
use vstd::prelude::*;
use crate::badge::Icon;
use crate::commit::CommitPane;
use crate::diff::Run;
use crate::finder::{Scored, fuzzy_score, fuzzy_value, lemma_sorted_ids};
use crate::keys::{KeyView, Keystroke, list_step, step_down, step_up};
use crate::order::{has_text, sort, sorted, sorting_orders};
use crate::processes::ProcessManager;
use crate::prompts::BranchPrompt;
use crate::storm::ShowDiff;
use crate::text::{begins, cat, cat3, chars_of, lower, opt_text, same, texts};

verus! {

/// The commands of the palette.
#[derive(Clone, Copy, Debug, PartialEq, Eq, Structural)]
pub enum Cmd {
    WipCommit,
    WipPush,
    OpenPr,
    CreatePr,
    Build,
    GitAdd,
    Pull,
    Fetch,
    CheckoutNext,
    NewBranch,
    Commit,
    ToggleTerminal,
    FindInFiles,
    GoToFile,
    GoToLine,
    GitPopup,
    ShowDiff,
    MyPrs,
    ReleasePrs,
    CopyBranch,
    CopyRenameSession,
    ProcessManager,
    ToggleReadOnly,
    ResolveConflicts,
}

/// How many commands there are.
pub const PALETTE_LEN: usize = 24;

/// Command number `i` of the palette.
pub open spec fn palette_cmd(i: int) -> Cmd {
    if i == 0 {
        Cmd::WipCommit
    } else if i == 1 {
        Cmd::WipPush
    } else if i == 2 {
        Cmd::OpenPr
    } else if i == 3 {
        Cmd::CreatePr
    } else if i == 4 {
        Cmd::MyPrs
    } else if i == 5 {
        Cmd::ReleasePrs
    } else if i == 6 {
        Cmd::CheckoutNext
    } else if i == 7 {
        Cmd::Build
    } else if i == 8 {
        Cmd::GitAdd
    } else if i == 9 {
        Cmd::Pull
    } else if i == 10 {
        Cmd::Fetch
    } else if i == 11 {
        Cmd::NewBranch
    } else if i == 12 {
        Cmd::Commit
    } else if i == 13 {
        Cmd::GitPopup
    } else if i == 14 {
        Cmd::ShowDiff
    } else if i == 15 {
        Cmd::ToggleTerminal
    } else if i == 16 {
        Cmd::FindInFiles
    } else if i == 17 {
        Cmd::GoToFile
    } else if i == 18 {
        Cmd::GoToLine
    } else if i == 19 {
        Cmd::CopyBranch
    } else if i == 20 {
        Cmd::CopyRenameSession
    } else if i == 21 {
        Cmd::ProcessManager
    } else if i == 22 {
        Cmd::ToggleReadOnly
    } else {
        Cmd::ResolveConflicts
    }
}

/// The label, the icon and the shortcut of a command.
pub open spec fn cmd_look(c: Cmd) -> (Seq<char>, Icon, Seq<char>) {
    match c {
        Cmd::WipCommit => ("WIP Commit"@, Icon::Commit, ""@),
        Cmd::WipPush => ("WIP Commit & Push"@, Icon::Push, ""@),
        Cmd::OpenPr => ("Open Pull Request"@, Icon::Pr, ""@),
        Cmd::CreatePr => ("Create Pull Request"@, Icon::Pr, ""@),
        Cmd::MyPrs => ("My PRs"@, Icon::Pr, ""@),
        Cmd::ReleasePrs => ("Release PRs"@, Icon::Pr, ""@),
        Cmd::CheckoutNext => ("Checkout / Pull Next"@, Icon::Home, ""@),
        Cmd::Build => ("Build"@, Icon::Tools, ""@),
        Cmd::GitAdd => ("Git Add"@, Icon::Add, ""@),
        Cmd::Pull => ("Pull"@, Icon::Home, ""@),
        Cmd::Fetch => ("Fetch"@, Icon::Home, ""@),
        Cmd::NewBranch => ("New Branch"@, Icon::Branch, ""@),
        Cmd::Commit => ("Commit…"@, Icon::Commit, "⌘K"@),
        Cmd::GitPopup => ("Branches & Git Actions"@, Icon::Branch, "⌥B"@),
        Cmd::ShowDiff => ("Show Diff"@, Icon::Pr, "⌘D"@),
        Cmd::ToggleTerminal => ("Toggle Terminal"@, Icon::Terminal, "⌥F12"@),
        Cmd::FindInFiles => ("Find in Files"@, Icon::Search, "⌘⇧F"@),
        Cmd::GoToFile => ("Go to File"@, Icon::Files, "⌘⇧O"@),
        Cmd::GoToLine => ("Go to Line"@, Icon::Home, "⌘L"@),
        Cmd::CopyBranch => ("Copy Branch Name"@, Icon::Branch, ""@),
        Cmd::CopyRenameSession => ("Copy Agent /rename Command"@, Icon::Copy, ""@),
        Cmd::ProcessManager => ("Process Manager"@, Icon::Tools, ""@),
        Cmd::ToggleReadOnly => ("Toggle Read-Only / Edit Mode"@, Icon::Home, ""@),
        Cmd::ResolveConflicts => ("Resolve Merge Conflicts"@, Icon::Branch, ""@),
    }
}

fn nth_cmd(i: usize) -> (r: Cmd)
    ensures
        r == palette_cmd(i as int),
{
    match i {
        0 => Cmd::WipCommit,
        1 => Cmd::WipPush,
        2 => Cmd::OpenPr,
        3 => Cmd::CreatePr,
        4 => Cmd::MyPrs,
        5 => Cmd::ReleasePrs,
        6 => Cmd::CheckoutNext,
        7 => Cmd::Build,
        8 => Cmd::GitAdd,
        9 => Cmd::Pull,
        10 => Cmd::Fetch,
        11 => Cmd::NewBranch,
        12 => Cmd::Commit,
        13 => Cmd::GitPopup,
        14 => Cmd::ShowDiff,
        15 => Cmd::ToggleTerminal,
        16 => Cmd::FindInFiles,
        17 => Cmd::GoToFile,
        18 => Cmd::GoToLine,
        19 => Cmd::CopyBranch,
        20 => Cmd::CopyRenameSession,
        21 => Cmd::ProcessManager,
        22 => Cmd::ToggleReadOnly,
        _ => Cmd::ResolveConflicts,
    }
}

impl Cmd {
    /// The label, the icon and the shortcut of a command.
    pub fn entry(self) -> (r: (&'static str, Icon, &'static str))
        ensures
            (r.0@, r.1, r.2@) == cmd_look(self),
    {
        match self {
            Cmd::WipCommit => ("WIP Commit", Icon::Commit, ""),
            Cmd::WipPush => ("WIP Commit & Push", Icon::Push, ""),
            Cmd::OpenPr => ("Open Pull Request", Icon::Pr, ""),
            Cmd::CreatePr => ("Create Pull Request", Icon::Pr, ""),
            Cmd::MyPrs => ("My PRs", Icon::Pr, ""),
            Cmd::ReleasePrs => ("Release PRs", Icon::Pr, ""),
            Cmd::CheckoutNext => ("Checkout / Pull Next", Icon::Home, ""),
            Cmd::Build => ("Build", Icon::Tools, ""),
            Cmd::GitAdd => ("Git Add", Icon::Add, ""),
            Cmd::Pull => ("Pull", Icon::Home, ""),
            Cmd::Fetch => ("Fetch", Icon::Home, ""),
            Cmd::NewBranch => ("New Branch", Icon::Branch, ""),
            Cmd::Commit => ("Commit…", Icon::Commit, "⌘K"),
            Cmd::GitPopup => ("Branches & Git Actions", Icon::Branch, "⌥B"),
            Cmd::ShowDiff => ("Show Diff", Icon::Pr, "⌘D"),
            Cmd::ToggleTerminal => ("Toggle Terminal", Icon::Terminal, "⌥F12"),
            Cmd::FindInFiles => ("Find in Files", Icon::Search, "⌘⇧F"),
            Cmd::GoToFile => ("Go to File", Icon::Files, "⌘⇧O"),
            Cmd::GoToLine => ("Go to Line", Icon::Home, "⌘L"),
            Cmd::CopyBranch => ("Copy Branch Name", Icon::Branch, ""),
            Cmd::CopyRenameSession => ("Copy Agent /rename Command", Icon::Copy, ""),
            Cmd::ProcessManager => ("Process Manager", Icon::Tools, ""),
            Cmd::ToggleReadOnly => ("Toggle Read-Only / Edit Mode", Icon::Home, ""),
            Cmd::ResolveConflicts => ("Resolve Merge Conflicts", Icon::Branch, ""),
        }
    }
}

// ── ranking ─────────────────────────────────────────────────────────────────

/// The places, from 0 to `n`, that have a score, each with it.
pub open spec fn scored_places(f: spec_fn(int) -> Option<int>, n: int) -> Seq<Scored>
    decreases n,
{
    if n <= 0 {
        Seq::empty()
    } else {
        let s = scored_places(f, n - 1);
        match f(n - 1) {
            Some(v) => s.push(Scored { score: v as i128, len: 0, id: (n - 1) as usize }),
            None => s,
        }
    }
}

/// The commands that fit a query, the best first; those that fit equally well keep their
/// order.
pub open spec fn palette_ranked(query: Seq<char>) -> Seq<Cmd> {
    sorted(
        scored_places(
            |i: int| fuzzy_value(query, cmd_look(palette_cmd(i)).0),
            PALETTE_LEN as int,
        ),
    ).map_values(|s: Scored| palette_cmd(s.id as int))
}

/// The commands that fit a query.
pub fn palette_items(query: &str) -> (r: Vec<Cmd>)
    ensures
        r@ == palette_ranked(query@),
{
    let ghost f = |i: int| fuzzy_value(query@, cmd_look(palette_cmd(i)).0);
    let mut v: Vec<Scored> = Vec::new();
    let mut i: usize = 0;
    while i < PALETTE_LEN
        invariant
            i <= PALETTE_LEN,
            f == (|i: int| fuzzy_value(query@, cmd_look(palette_cmd(i)).0)),
            v@ == scored_places(f, i as int),
        decreases PALETTE_LEN - i,
    {
        let c = nth_cmd(i);
        let e = c.entry();
        match fuzzy_score(query, e.0) {
            Some(score) => {
                v.push(Scored { score, len: 0, id: i });
            },
            None => {},
        }
        i = i + 1;
    }
    let s = sort(v);
    let mut out: Vec<Cmd> = Vec::new();
    let mut k: usize = 0;
    while k < s.len()
        invariant
            k <= s.len(),
            out.len() == k,
            forall|j: int| 0 <= j < k ==> #[trigger] out@[j] == palette_cmd(s@[j].id as int),
        decreases s.len() - k,
    {
        out.push(nth_cmd(s[k].id));
        k = k + 1;
    }
    assert(out@ =~= s@.map_values(|s: Scored| palette_cmd(s.id as int)));
    out
}

// ── the palette ─────────────────────────────────────────────────────────────

/// The state of the command palette.
#[derive(Debug)]
pub struct Palette {
    pub open: bool,
    pub sel: usize,
    pub results: Vec<Cmd>,
    pub gen: usize,
}

/// What a key does in the palette.
#[derive(Clone, Copy, Debug, PartialEq, Eq, Structural)]
pub enum PaletteKey {
    Close,
    Run(Cmd),
    Moved,
    Edit,
    Nothing,
}

/// The digit, from 1 to 9, that a key is.
pub open spec fn key_digit(k: KeyView) -> Option<int> {
    if k.key.len() == 1 && '1' <= k.key[0] && k.key[0] <= '9' && !k.platform && !k.control && !k.alt {
        Some(k.key[0] as u32 - '0' as u32)
    } else {
        None
    }
}

/// Whether a key is a digit without a modifier.
pub open spec fn is_digit_key(k: KeyView) -> bool {
    k.key.len() == 1 && '0' <= k.key[0] && k.key[0] <= '9' && !k.platform && !k.control && !k.alt
}

impl Palette {
    /// A closed palette.
    pub fn new() -> (r: Palette)
        ensures
            !r.open,
            r.sel == 0,
            r.results@ == Seq::<Cmd>::empty(),
            r.gen == 0,
    {
        Palette { open: false, sel: 0, results: Vec::new(), gen: 0 }
    }

    /// Opens the palette with an empty query: all commands are listed.
    pub fn show(&mut self)
        ensures
            final(self).open,
            final(self).sel == 0,
            final(self).results@ == palette_ranked(Seq::empty()),
            final(self).gen == old(self).gen,
    {
        self.open = true;
        self.sel = 0;
        let e = String::new();
        assert(e@ =~= Seq::<char>::empty());
        self.results = palette_items(e.as_str());
    }

    /// The query changed; gives the number by which its filtering is known.
    pub fn schedule(&mut self) -> (r: usize)
        requires
            old(self).gen < usize::MAX,
        ensures
            r == old(self).gen + 1,
            *final(self) == (Palette { gen: r, ..*old(self) }),
    {
        self.gen = self.gen + 1;
        self.gen
    }

    /// Filters by a query, unless it changed again since.
    pub fn refilter(&mut self, gen: usize, query: &str)
        ensures
            if gen == old(self).gen {
                &&& final(self).results@ == palette_ranked(query@)
                &&& final(self).sel == 0
                &&& final(self).open == old(self).open
                &&& final(self).gen == old(self).gen
            } else {
                *final(self) == *old(self)
            },
    {
        if gen == self.gen {
            self.results = palette_items(query);
            self.sel = 0;
        }
    }

    /// A key in the palette: a digit runs the command in that place.
    pub fn palette_key(&mut self, k: &Keystroke) -> (r: PaletteKey)
        ensures
            ({
                let k = k@;
                let o = *old(self);
                let n = o.results@.len() as int;
                let at = |i: int|
                    if i < n {
                        PaletteKey::Run(o.results@[i])
                    } else {
                        PaletteKey::Nothing
                    };
                if k.key == "escape"@ {
                    r == PaletteKey::Close && *final(self) == (Palette { open: false, ..o })
                } else if k.key == "enter"@ {
                    &&& r == at(o.sel as int)
                    &&& *final(self) == (Palette { open: o.open && !(r is Run), ..o })
                } else if k.key == "down"@ || k.key == "up"@ {
                    &&& r == PaletteKey::Moved
                    &&& *final(self) == (Palette {
                        sel: list_step(k.key, o.sel as int, n) as usize,
                        ..o
                    })
                } else if is_digit_key(k) {
                    &&& r == match key_digit(k) {
                        Some(d) => at(d - 1),
                        None => PaletteKey::Nothing,
                    }
                    &&& *final(self) == (Palette { open: o.open && !(r is Run), ..o })
                } else {
                    r == PaletteKey::Edit && *final(self) == o
                }
            }),
    {
        proof {
            reveal_strlit("up");
            reveal_strlit("down");
        }
        if k.is("escape") {
            self.open = false;
            return PaletteKey::Close;
        }
        if k.is("enter") {
            if self.sel < self.results.len() {
                self.open = false;
                return PaletteKey::Run(self.results[self.sel]);
            }
            return PaletteKey::Nothing;
        }
        if k.is("down") {
            assert("down"@.len() != "up"@.len());
            self.sel = step_down(self.sel, self.results.len());
            return PaletteKey::Moved;
        }
        if k.is("up") {
            self.sel = step_up(self.sel);
            return PaletteKey::Moved;
        }
        let v = chars_of(k.key.as_str());
        if v.len() == 1 && '0' <= v[0] && v[0] <= '9' && !k.platform && !k.control && !k.alt {
            let d: usize = (v[0] as u32 - '0' as u32) as usize;
            if d >= 1 && d - 1 < self.results.len() {
                self.open = false;
                return PaletteKey::Run(self.results[d - 1]);
            }
            return PaletteKey::Nothing;
        }
        PaletteKey::Edit
    }
}

/// What running a command leads to.
#[derive(Debug)]
pub enum CmdAction {
    /// Run this in the background.
    Shell(&'static str),
    /// Open this address.
    Browse(&'static str),
    /// Copy the first text and show the second.
    CopyText(String, &'static str),
    CreatePrPrompt,
    BranchPrompt,
    GotoCommit,
    ToggleTerminal,
    FindInFiles,
    OpenFinder,
    GotoLine,
    GitPopup,
    ShowDiff,
    ProcessManager,
    ToggleReadOnly,
    Conflicts,
    Nothing,
}

/// The shell command of a palette command, where it has one.
pub open spec fn cmd_shell(c: Cmd) -> Option<Seq<char>> {
    match c {
        Cmd::WipCommit => Some("wip"@),
        Cmd::WipPush => Some("wipp"@),
        Cmd::OpenPr => Some("pro"@),
        Cmd::Build => Some("yyb"@),
        Cmd::GitAdd => Some("gaa"@),
        Cmd::Pull => Some("git pull --no-rebase"@),
        Cmd::Fetch => Some("git fetch --all --prune"@),
        Cmd::CheckoutNext => Some("next"@),
        _ => None,
    }
}

/// What running a command leads to, on a given branch.
pub fn palette_execute(c: Cmd, branch: &str) -> (r: CmdAction)
    ensures
        match c {
            Cmd::WipCommit | Cmd::WipPush | Cmd::OpenPr | Cmd::Build | Cmd::GitAdd | Cmd::Pull
            | Cmd::Fetch | Cmd::CheckoutNext => r is Shell && Some(r->Shell_0@) == cmd_shell(c),
            Cmd::CreatePr => r is CreatePrPrompt,
            Cmd::NewBranch => r is BranchPrompt,
            Cmd::Commit => r is GotoCommit,
            Cmd::ToggleTerminal => r is ToggleTerminal,
            Cmd::FindInFiles => r is FindInFiles,
            Cmd::GoToFile => r is OpenFinder,
            Cmd::GoToLine => r is GotoLine,
            Cmd::GitPopup => r is GitPopup,
            Cmd::ShowDiff => r is ShowDiff,
            Cmd::MyPrs => r is Browse && r->Browse_0@
                == "https://github.com/webiny/webiny-js/pulls?q=sort%3Aupdated-desc+is%3Apr+is%3Aopen+author%3Aadrians5j"@,
            Cmd::ReleasePrs => r is Browse && r->Browse_0@
                == "https://github.com/webiny/webiny-js/pulls?q=sort%3Aupdated-desc+is%3Apr+state%3Aopen+head%3Arelease"@,
            Cmd::CopyBranch => if branch@.len() == 0 {
                r is Nothing
            } else {
                r is CopyText && r->CopyText_0@ == branch@ && r->CopyText_1@ == "Branch name copied"@
            },
            Cmd::CopyRenameSession => {
                &&& r is CopyText
                &&& r->CopyText_0@ == "/rename ⭐ "@ + if branch@.len() == 0 {
                    "session"@
                } else {
                    branch@
                }
                &&& r->CopyText_1@ == "/rename command copied"@
            },
            Cmd::ProcessManager => r is ProcessManager,
            Cmd::ToggleReadOnly => r is ToggleReadOnly,
            Cmd::ResolveConflicts => r is Conflicts,
        },
{
    match c {
        Cmd::WipCommit => CmdAction::Shell("wip"),
        Cmd::WipPush => CmdAction::Shell("wipp"),
        Cmd::OpenPr => CmdAction::Shell("pro"),
        Cmd::CreatePr => CmdAction::CreatePrPrompt,
        Cmd::Build => CmdAction::Shell("yyb"),
        Cmd::GitAdd => CmdAction::Shell("gaa"),
        Cmd::Pull => CmdAction::Shell("git pull --no-rebase"),
        Cmd::Fetch => CmdAction::Shell("git fetch --all --prune"),
        Cmd::CheckoutNext => CmdAction::Shell("next"),
        Cmd::NewBranch => CmdAction::BranchPrompt,
        Cmd::Commit => CmdAction::GotoCommit,
        Cmd::ToggleTerminal => CmdAction::ToggleTerminal,
        Cmd::FindInFiles => CmdAction::FindInFiles,
        Cmd::GoToFile => CmdAction::OpenFinder,
        Cmd::GoToLine => CmdAction::GotoLine,
        Cmd::GitPopup => CmdAction::GitPopup,
        Cmd::ShowDiff => CmdAction::ShowDiff,
        Cmd::MyPrs => CmdAction::Browse(
            "https://github.com/webiny/webiny-js/pulls?q=sort%3Aupdated-desc+is%3Apr+is%3Aopen+author%3Aadrians5j",
        ),
        Cmd::ReleasePrs => CmdAction::Browse(
            "https://github.com/webiny/webiny-js/pulls?q=sort%3Aupdated-desc+is%3Apr+state%3Aopen+head%3Arelease",
        ),
        Cmd::CopyBranch => if branch.is_empty() {
            CmdAction::Nothing
        } else {
            CmdAction::CopyText(branch.to_owned(), "Branch name copied")
        },
        Cmd::CopyRenameSession => {
            let name = if branch.is_empty() {
                "session"
            } else {
                branch
            };
            CmdAction::CopyText(cat("/rename ⭐ ", name), "/rename command copied")
        },
        Cmd::ProcessManager => CmdAction::ProcessManager,
        Cmd::ToggleReadOnly => CmdAction::ToggleReadOnly,
        Cmd::ResolveConflicts => CmdAction::Conflicts,
    }
}

// ── the git popup ───────────────────────────────────────────────────────────

/// The actions of the git popup.
#[derive(Clone, Copy, Debug, PartialEq, Eq, Structural)]
pub enum GitAction {
    Update,
    Commit,
    Push,
    Pr,
    CreatePr,
    NewBranch,
}

/// What can be done with a branch.
#[derive(Clone, Copy, Debug, PartialEq, Eq, Structural)]
pub enum BranchAction {
    Checkout,
    Merge,
    Delete,
}

/// An entry of the git popup.
#[derive(Debug)]
pub enum GitItem {
    Action(GitAction),
    Branch(String),
}

/// What an entry is.
pub ghost enum GitItemView {
    Action(GitAction),
    Branch(Seq<char>),
}

impl View for GitItem {
    type V = GitItemView;

    open spec fn view(&self) -> GitItemView {
        match self {
            GitItem::Action(a) => GitItemView::Action(*a),
            GitItem::Branch(b) => GitItemView::Branch(b@),
        }
    }
}

/// What the entries are.
pub open spec fn git_item_views(v: Seq<GitItem>) -> Seq<GitItemView> {
    Seq::new(v.len(), |i: int| v[i]@)
}

/// Action number `i` of the popup.
pub open spec fn git_action(i: int) -> GitAction {
    if i == 0 {
        GitAction::Update
    } else if i == 1 {
        GitAction::Commit
    } else if i == 2 {
        GitAction::Push
    } else if i == 3 {
        GitAction::Pr
    } else if i == 4 {
        GitAction::CreatePr
    } else {
        GitAction::NewBranch
    }
}

/// The label and the icon of an action.
pub open spec fn git_action_look(a: GitAction) -> (Seq<char>, Icon) {
    match a {
        GitAction::Update => ("Update Project"@, Icon::Home),
        GitAction::Commit => ("Commit"@, Icon::Commit),
        GitAction::Push => ("Push"@, Icon::Push),
        GitAction::Pr => ("Open Pull Request"@, Icon::Pr),
        GitAction::CreatePr => ("Create Pull Request"@, Icon::Pr),
        GitAction::NewBranch => ("New Branch"@, Icon::Branch),
    }
}

impl GitAction {
    /// The label and the icon of an action.
    pub fn entry(self) -> (r: (&'static str, Icon))
        ensures
            (r.0@, r.1) == git_action_look(self),
    {
        match self {
            GitAction::Update => ("Update Project", Icon::Home),
            GitAction::Commit => ("Commit", Icon::Commit),
            GitAction::Push => ("Push", Icon::Push),
            GitAction::Pr => ("Open Pull Request", Icon::Pr),
            GitAction::CreatePr => ("Create Pull Request", Icon::Pr),
            GitAction::NewBranch => ("New Branch", Icon::Branch),
        }
    }
}

/// The first `n` actions that fit a query in lower case.
pub open spec fn fitting_actions(q: Seq<char>, n: int) -> Seq<GitItemView>
    decreases n,
{
    if n <= 0 {
        Seq::empty()
    } else {
        let s = fitting_actions(q, n - 1);
        let a = git_action(n - 1);
        if q.len() == 0 || fuzzy_value(q, lower(git_action_look(a).0)) is Some {
            s.push(GitItemView::Action(a))
        } else {
            s
        }
    }
}

/// The branches that fit a query in lower case, the best first; all of them, as they are,
/// where there is no query.
pub open spec fn fitting_branches(q: Seq<char>, branches: Seq<Seq<char>>) -> Seq<GitItemView> {
    if q.len() == 0 {
        branches.map_values(|b: Seq<char>| GitItemView::Branch(b))
    } else {
        sorted(
            scored_places(|i: int| fuzzy_value(q, lower(branches[i])), branches.len() as int),
        ).map_values(|s: Scored| GitItemView::Branch(branches[s.id as int]))
    }
}

/// The entries of the popup: the fitting actions, then the fitting branches.
pub open spec fn popup_items(query: Seq<char>, branches: Seq<Seq<char>>) -> Seq<GitItemView> {
    fitting_actions(lower(query), 6) + fitting_branches(lower(query), branches)
}

proof fn lemma_place_ids(f: spec_fn(int) -> Option<int>, n: int)
    requires
        n <= usize::MAX,
    ensures
        forall|i: int| 0 <= i < scored_places(f, n).len() ==> (#[trigger] scored_places(f, n)[i]).id < n,
    decreases n,
{
    if n > 0 {
        lemma_place_ids(f, n - 1);
        let s = scored_places(f, n - 1);
        let r = scored_places(f, n);
        assert forall|i: int| 0 <= i < r.len() implies (#[trigger] r[i]).id < n by {
            if i < s.len() {
                assert(r[i] == s[i]);
            }
        }
    }
}

fn nth_action(i: usize) -> (r: GitAction)
    ensures
        r == git_action(i as int),
{
    match i {
        0 => GitAction::Update,
        1 => GitAction::Commit,
        2 => GitAction::Push,
        3 => GitAction::Pr,
        4 => GitAction::CreatePr,
        _ => GitAction::NewBranch,
    }
}

/// The state of the git popup.
#[derive(Debug)]
pub struct GitPopup {
    pub open: bool,
    pub branches: Vec<String>,
    pub local: Vec<String>,
    pub sel: usize,
    pub action_branch: Option<String>,
    pub action_sel: usize,
}

/// What an entry of the popup, or a key in it, leads to.
#[derive(Debug)]
pub enum PopupAction {
    Close,
    Shell(String),
    CommitPane,
    CreatePrPrompt,
    BranchPrompt,
    Submenu,
    Moved,
    Edit,
    Nothing,
}

/// The entries of the submenu of a branch: deleting is offered for a local branch that is
/// not the current one.
pub open spec fn submenu(branch: Seq<char>, local: Seq<Seq<char>>, current: Seq<char>) -> Seq<BranchAction> {
    if local.contains(branch) && branch != current {
        seq![BranchAction::Checkout, BranchAction::Merge, BranchAction::Delete]
    } else {
        seq![BranchAction::Checkout, BranchAction::Merge]
    }
}

/// The shell command of an action on a branch. A remote branch is checked out under its
/// local name, so that git makes a tracking branch.
pub open spec fn branch_command(a: BranchAction, branch: Seq<char>) -> Seq<char> {
    match a {
        BranchAction::Checkout => "b='"@ + branch
            + "'; if git show-ref --verify --quiet \"refs/remotes/$b\"; then git checkout \"${b#*/}\"; else git checkout \"$b\"; fi"@,
        BranchAction::Merge => "git merge "@ + branch,
        BranchAction::Delete => "git branch -d "@ + branch,
    }
}

/// How an action on a branch is labelled.
pub open spec fn branch_action_label(a: BranchAction, branch: Seq<char>, current: Seq<char>) -> Seq<char> {
    match a {
        BranchAction::Checkout => "Checkout"@,
        BranchAction::Merge => "Merge '"@ + branch + "' into '"@ + (current + "'"@),
        BranchAction::Delete => "Delete '"@ + branch + "'"@,
    }
}

impl BranchAction {
    /// The icon of an action.
    pub fn icon(self) -> (r: Icon)
        ensures
            r == match self {
                BranchAction::Checkout => Icon::Home,
                BranchAction::Merge => Icon::Branch,
                BranchAction::Delete => Icon::Trash,
            },
    {
        match self {
            BranchAction::Checkout => Icon::Home,
            BranchAction::Merge => Icon::Branch,
            BranchAction::Delete => Icon::Trash,
        }
    }

    /// The label of an action on a branch.
    pub fn label(self, branch: &str, current: &str) -> (r: String)
        ensures
            r@ == branch_action_label(self, branch@, current@),
    {
        match self {
            BranchAction::Checkout => "Checkout".to_owned(),
            BranchAction::Merge => {
                let t = cat(current, "'");
                let s = cat3("Merge '", branch, "' into '");
                cat(s.as_str(), t.as_str())
            },
            BranchAction::Delete => cat3("Delete '", branch, "'"),
        }
    }

    /// The shell command of an action on a branch.
    pub fn command(self, branch: &str) -> (r: String)
        ensures
            r@ == branch_command(self, branch@),
    {
        match self {
            BranchAction::Checkout => cat3(
                "b='",
                branch,
                "'; if git show-ref --verify --quiet \"refs/remotes/$b\"; then git checkout \"${b#*/}\"; else git checkout \"$b\"; fi",
            ),
            BranchAction::Merge => cat("git merge ", branch),
            BranchAction::Delete => cat("git branch -d ", branch),
        }
    }
}

/// What choosing an action of the popup leads to.
pub open spec fn action_leads_to(a: GitAction, r: PopupAction) -> bool {
    match a {
        GitAction::Update => r is Shell && r->Shell_0@ == "git pull"@,
        GitAction::Commit => r is CommitPane,
        GitAction::Push => r is Shell && r->Shell_0@ == "git push -u origin HEAD"@,
        GitAction::Pr => r is Shell && r->Shell_0@ == "pro"@,
        GitAction::CreatePr => r is CreatePrPrompt,
        GitAction::NewBranch => r is BranchPrompt,
    }
}

/// The popup as plain values.
pub ghost struct GitPopupView {
    pub open: bool,
    pub branches: Seq<Seq<char>>,
    pub local: Seq<Seq<char>>,
    pub sel: usize,
    pub action_branch: Option<Seq<char>>,
    pub action_sel: usize,
}

impl View for GitPopup {
    type V = GitPopupView;

    open spec fn view(&self) -> GitPopupView {
        GitPopupView {
            open: self.open,
            branches: texts(self.branches@),
            local: texts(self.local@),
            sel: self.sel,
            action_branch: opt_text(self.action_branch),
            action_sel: self.action_sel,
        }
    }
}

/// The popup after an entry was chosen: a branch opens its submenu, an action closes the
/// popup.
pub open spec fn popup_chosen(p: GitPopupView, item: GitItemView) -> GitPopupView {
    match item {
        GitItemView::Branch(b) => GitPopupView { action_branch: Some(b), action_sel: 0, ..p },
        GitItemView::Action(_) => GitPopupView { open: false, ..p },
    }
}

/// Whether `r` is what choosing an entry leads to.
pub open spec fn item_leads_to(item: GitItemView, r: PopupAction) -> bool {
    match item {
        GitItemView::Branch(_) => r is Submenu,
        GitItemView::Action(a) => action_leads_to(a, r),
    }
}

impl GitPopup {
    /// A closed popup.
    pub fn new() -> (r: GitPopup)
        ensures
            r@ == (GitPopupView {
                open: false,
                branches: Seq::empty(),
                local: Seq::empty(),
                sel: 0,
                action_branch: None,
                action_sel: 0,
            }),
    {
        let r = GitPopup {
            open: false,
            branches: Vec::new(),
            local: Vec::new(),
            sel: 0,
            action_branch: None,
            action_sel: 0,
        };
        assert(texts(r.branches@) =~= Seq::<Seq<char>>::empty());
        assert(texts(r.local@) =~= Seq::<Seq<char>>::empty());
        r
    }

    /// Opens the popup on these branches.
    pub fn show(&mut self, branches: Vec<String>, local: Vec<String>)
        ensures
            final(self)@ == (GitPopupView {
                open: true,
                branches: texts(branches@),
                local: texts(local@),
                sel: 0,
                action_branch: None,
                action_sel: 0,
            }),
    {
        self.open = true;
        self.branches = branches;
        self.local = local;
        self.sel = 0;
        self.action_branch = None;
        self.action_sel = 0;
    }

    /// The entries that fit a query.
    pub fn items(&self, query: &str) -> (r: Vec<GitItem>)
        ensures
            git_item_views(r@) == popup_items(query@, self@.branches),
    {
        let q = query.to_lowercase();
        let mut out: Vec<GitItem> = Vec::new();
        let mut i: usize = 0;
        assert(git_item_views(out@) =~= fitting_actions(q@, 0));
        while i < 6
            invariant
                i <= 6,
                git_item_views(out@) == fitting_actions(q@, i as int),
            decreases 6 - i,
        {
            let a = nth_action(i);
            let e = a.entry();
            let low = e.0.to_lowercase();
            let fits = if q.as_str().is_empty() {
                true
            } else {
                fuzzy_score(q.as_str(), low.as_str()).is_some()
            };
            if fits {
                let x = GitItem::Action(a);
                assert(git_item_views(out@.push(x)) =~= git_item_views(out@).push(x@));
                out.push(x);
            }
            i = i + 1;
        }
        let ghost head = git_item_views(out@);
        let ghost b = self@.branches;
        let ghost tail = fitting_branches(q@, b);
        if q.as_str().is_empty() {
            let mut k: usize = 0;
            assert(git_item_views(out@) =~= head + tail.take(0));
            while k < self.branches.len()
                invariant
                    k <= self.branches.len(),
                    b == self@.branches,
                    q@.len() == 0,
                    tail == fitting_branches(q@, b),
                    git_item_views(out@) == head + tail.take(k as int),
                decreases self.branches.len() - k,
            {
                let x = GitItem::Branch(self.branches[k].clone());
                assert(git_item_views(out@.push(x)) =~= git_item_views(out@).push(x@));
                assert(tail[k as int] == x@);
                assert((head + tail.take(k as int)).push(x@) =~= head + tail.take(k + 1));
                out.push(x);
                k = k + 1;
            }
            assert(b.len() == self.branches.len());
            assert(tail.take(tail.len() as int) =~= tail);
        } else {
            let ghost f = |i: int| fuzzy_value(q@, lower(b[i]));
            let mut v: Vec<Scored> = Vec::new();
            let mut k: usize = 0;
            while k < self.branches.len()
                invariant
                    k <= self.branches.len(),
                    b == self@.branches,
                    f == (|i: int| fuzzy_value(q@, lower(b[i]))),
                    v@ == scored_places(f, k as int),
                decreases self.branches.len() - k,
            {
                let low = self.branches[k].as_str().to_lowercase();
                assert(b[k as int] == self.branches@[k as int]@);
                match fuzzy_score(q.as_str(), low.as_str()) {
                    Some(score) => {
                        v.push(Scored { score, len: 0, id: k });
                    },
                    None => {},
                }
                k = k + 1;
            }
            let ghost sc = v@;
            let s = sort(v);
            proof {
                assert(b.len() == self.branches.len());
                lemma_place_ids(f, b.len() as int);
                lemma_sorted_ids(sc, b.len());
            }
            let mut m: usize = 0;
            assert(git_item_views(out@) =~= head + tail.take(0));
            while m < s.len()
                invariant
                    m <= s.len(),
                    b == self@.branches,
                    b.len() == self.branches.len(),
                    q@.len() > 0,
                    f == (|i: int| fuzzy_value(q@, lower(b[i]))),
                    tail == fitting_branches(q@, b),
                    s@ == sorted(scored_places(f, b.len() as int)),
                    forall|i: int| 0 <= i < s@.len() ==> (#[trigger] s@[i]).id < b.len(),
                    git_item_views(out@) == head + tail.take(m as int),
                decreases s.len() - m,
            {
                let id: usize = s[m].id;
                assert(s@[m as int].id < b.len());
                let x = GitItem::Branch(self.branches[id].clone());
                assert(git_item_views(out@.push(x)) =~= git_item_views(out@).push(x@));
                assert(tail[m as int] == x@);
                assert((head + tail.take(m as int)).push(x@) =~= head + tail.take(m + 1));
                out.push(x);
                m = m + 1;
            }
            assert(tail.take(tail.len() as int) =~= tail);
        }
        out
    }

    /// The entries of the submenu of the branch that was chosen.
    pub fn branch_actions(&self, current: &str) -> (r: Vec<BranchAction>)
        ensures
            r@ == submenu(
                match self@.action_branch {
                    Some(b) => b,
                    None => Seq::empty(),
                },
                self@.local,
                current@,
            ),
    {
        let b = match &self.action_branch {
            Some(b) => b.clone(),
            None => {
                let e = String::new();
                assert(e@ =~= Seq::<char>::empty());
                e
            },
        };
        let v: Vec<BranchAction> = if has_text(&self.local, b.as_str()) && !same(b.as_str(), current) {
            vec![BranchAction::Checkout, BranchAction::Merge, BranchAction::Delete]
        } else {
            vec![BranchAction::Checkout, BranchAction::Merge]
        };
        assert(v@ =~= submenu(b@, self@.local, current@));
        v
    }

    /// An entry is chosen.
    pub fn choose_item(&mut self, item: &GitItem) -> (r: PopupAction)
        ensures
            item_leads_to(item@, r),
            final(self)@ == popup_chosen(old(self)@, item@),
    {
        match item {
            GitItem::Branch(b) => {
                self.action_branch = Some(b.clone());
                self.action_sel = 0;
                PopupAction::Submenu
            },
            GitItem::Action(a) => {
                self.open = false;
                match a {
                    GitAction::Update => PopupAction::Shell("git pull".to_owned()),
                    GitAction::Commit => PopupAction::CommitPane,
                    GitAction::Push => PopupAction::Shell("git push -u origin HEAD".to_owned()),
                    GitAction::Pr => PopupAction::Shell("pro".to_owned()),
                    GitAction::CreatePr => PopupAction::CreatePrPrompt,
                    GitAction::NewBranch => PopupAction::BranchPrompt,
                }
            },
        }
    }

    /// An action of the submenu is run: the popup closes, and so does the submenu.
    pub fn run_branch_action(&mut self, a: BranchAction) -> (r: PopupAction)
        ensures
            match old(self)@.action_branch {
                Some(b) => {
                    &&& r is Shell
                    &&& r->Shell_0@ == branch_command(a, b)
                    &&& final(self)@ == (GitPopupView {
                        open: false,
                        action_branch: None,
                        ..old(self)@
                    })
                },
                None => r is Nothing && final(self)@ == old(self)@,
            },
    {
        let cmd = match &self.action_branch {
            Some(b) => a.command(b.as_str()),
            None => {
                return PopupAction::Nothing;
            },
        };
        self.action_branch = None;
        self.open = false;
        PopupAction::Shell(cmd)
    }

    /// What is typed has changed: the first of the items that now fit is highlighted.
    pub fn retyped(&mut self)
        ensures
            final(self)@ == (GitPopupView { sel: 0, ..old(self)@ }),
    {
        self.sel = 0;
    }

    /// A key in the popup. The submenu has the keys while it is open.
    pub fn gitp_key(&mut self, k: &Keystroke, query: &str, current: &str) -> (r: PopupAction)
        ensures
            ({
                let key = k@.key;
                let o = old(self)@;
                let items = popup_items(query@, o.branches);
                if o.action_branch is Some {
                    let sub_items = submenu(o.action_branch->0, o.local, current@);
                    if key == "enter"@ && o.action_sel < sub_items.len() {
                        &&& r is Shell
                        &&& r->Shell_0@ == branch_command(
                            sub_items[o.action_sel as int],
                            o.action_branch->0,
                        )
                        &&& final(self)@ == (GitPopupView { open: false, action_branch: None, ..o })
                    } else if key == "enter"@ {
                        r is Nothing && final(self)@ == o
                    } else if key == "down"@ || key == "up"@ {
                        &&& r is Moved
                        &&& final(self)@ == (GitPopupView {
                            action_sel: list_step(key, o.action_sel as int, sub_items.len() as int) as usize,
                            ..o
                        })
                    } else {
                        r is Nothing && final(self)@ == o
                    }
                } else if key == "escape"@ {
                    r is Close && final(self)@ == (GitPopupView { open: false, ..o })
                } else if key == "enter"@ {
                    if o.sel < items.len() {
                        &&& item_leads_to(items[o.sel as int], r)
                        &&& final(self)@ == popup_chosen(o, items[o.sel as int])
                    } else {
                        r is Nothing && final(self)@ == o
                    }
                } else if key == "down"@ || key == "up"@ {
                    &&& r is Moved
                    &&& final(self)@ == (GitPopupView {
                        sel: list_step(key, o.sel as int, items.len() as int) as usize,
                        ..o
                    })
                } else {
                    r is Edit && final(self)@ == o
                }
            }),
    {
        proof {
            reveal_strlit("up");
            reveal_strlit("down");
            assert("down"@.len() != "up"@.len());
        }
        if self.action_branch.is_some() {
            if k.is("enter") {
                let acts = self.branch_actions(current);
                if self.action_sel < acts.len() {
                    let a = acts[self.action_sel];
                    return self.run_branch_action(a);
                }
                return PopupAction::Nothing;
            }
            if k.is("down") {
                let acts = self.branch_actions(current);
                self.action_sel = step_down(self.action_sel, acts.len());
                return PopupAction::Moved;
            }
            if k.is("up") {
                self.action_sel = step_up(self.action_sel);
                return PopupAction::Moved;
            }
            return PopupAction::Nothing;
        }
        if k.is("escape") {
            self.open = false;
            return PopupAction::Close;
        }
        if k.is("enter") {
            let items = self.items(query);
            assert(git_item_views(items@).len() == items.len());
            if self.sel < items.len() {
                assert(git_item_views(items@)[self.sel as int] == items@[self.sel as int]@);
                return self.choose_item(&items[self.sel]);
            }
            return PopupAction::Nothing;
        }
        if k.is("down") {
            let items = self.items(query);
            assert(git_item_views(items@).len() == items.len());
            self.sel = step_down(self.sel, items.len());
            return PopupAction::Moved;
        }
        if k.is("up") {
            self.sel = step_up(self.sel);
            return PopupAction::Moved;
        }
        PopupAction::Edit
    }
}

// ── what commands and actions do ────────────────────────────────────────────

/// The commands that run in a shell and what they run; no other command runs one.
pub proof fn commands_run_what_they_say(c: Cmd)
    ensures
        cmd_shell(Cmd::WipCommit) == Some("wip"@) && cmd_shell(Cmd::WipPush) == Some("wipp"@) && cmd_shell(Cmd::OpenPr) == Some("pro"@),
        cmd_shell(Cmd::Build) == Some("yyb"@) && cmd_shell(Cmd::GitAdd) == Some("gaa"@) && cmd_shell(Cmd::CheckoutNext) == Some("next"@),
        cmd_shell(Cmd::Pull) == Some("git pull --no-rebase"@) && cmd_shell(Cmd::Fetch) == Some("git fetch --all --prune"@),
        cmd_shell(c) is Some ==> c == Cmd::WipCommit || c == Cmd::WipPush || c == Cmd::OpenPr || c == Cmd::Build || c == Cmd::GitAdd || c == Cmd::Pull
            || c == Cmd::Fetch || c == Cmd::CheckoutNext,
{
}

/// Every command stands in the palette, and at one place only.
pub proof fn every_command_is_in_the_palette(c: Cmd, i: int, j: int)
    requires
        0 <= i < j < 24,
    ensures
        PALETTE_LEN == 24,
        exists|k: int| 0 <= k < 24 && #[trigger] palette_cmd(k) == c,
        palette_cmd(i) != palette_cmd(j),
{
    let k: int = match c {
        Cmd::WipCommit => 0,
        Cmd::WipPush => 1,
        Cmd::OpenPr => 2,
        Cmd::CreatePr => 3,
        Cmd::MyPrs => 4,
        Cmd::ReleasePrs => 5,
        Cmd::CheckoutNext => 6,
        Cmd::Build => 7,
        Cmd::GitAdd => 8,
        Cmd::Pull => 9,
        Cmd::Fetch => 10,
        Cmd::NewBranch => 11,
        Cmd::Commit => 12,
        Cmd::GitPopup => 13,
        Cmd::ShowDiff => 14,
        Cmd::ToggleTerminal => 15,
        Cmd::FindInFiles => 16,
        Cmd::GoToFile => 17,
        Cmd::GoToLine => 18,
        Cmd::CopyBranch => 19,
        Cmd::CopyRenameSession => 20,
        Cmd::ProcessManager => 21,
        Cmd::ToggleReadOnly => 22,
        Cmd::ResolveConflicts => 23,
    };
    assert(palette_cmd(k) == c);
}

/// A command is labelled with what it does.
pub proof fn commands_are_labelled()
    ensures
        cmd_look(Cmd::WipCommit).0 == "WIP Commit"@ && cmd_look(Cmd::WipPush).0 == "WIP Commit & Push"@ && cmd_look(Cmd::OpenPr).0 == "Open Pull Request"@,
        cmd_look(Cmd::CreatePr).0 == "Create Pull Request"@ && cmd_look(Cmd::MyPrs).0 == "My PRs"@ && cmd_look(Cmd::ReleasePrs).0 == "Release PRs"@,
        cmd_look(Cmd::CheckoutNext).0 == "Checkout / Pull Next"@ && cmd_look(Cmd::Build).0 == "Build"@ && cmd_look(Cmd::GitAdd).0 == "Git Add"@,
        cmd_look(Cmd::Pull).0 == "Pull"@ && cmd_look(Cmd::Fetch).0 == "Fetch"@ && cmd_look(Cmd::NewBranch).0 == "New Branch"@,
        cmd_look(Cmd::Commit).0 == "Commit…"@ && cmd_look(Cmd::GitPopup).0 == "Branches & Git Actions"@ && cmd_look(Cmd::ShowDiff).0 == "Show Diff"@,
        cmd_look(Cmd::ToggleTerminal).0 == "Toggle Terminal"@ && cmd_look(Cmd::FindInFiles).0 == "Find in Files"@ && cmd_look(Cmd::GoToFile).0 == "Go to File"@,
        cmd_look(Cmd::GoToLine).0 == "Go to Line"@ && cmd_look(Cmd::CopyBranch).0 == "Copy Branch Name"@ && cmd_look(Cmd::ProcessManager).0 == "Process Manager"@,
        cmd_look(Cmd::ToggleReadOnly).0 == "Toggle Read-Only / Edit Mode"@ && cmd_look(Cmd::ResolveConflicts).0 == "Resolve Merge Conflicts"@,
        cmd_look(Cmd::CopyRenameSession).0 == "Copy Agent /rename Command"@,
        cmd_look(Cmd::Commit).2 == "⌘K"@ && cmd_look(Cmd::FindInFiles).2 == "⌘⇧F"@ && cmd_look(Cmd::GoToFile).2 == "⌘⇧O"@ && cmd_look(Cmd::GoToLine).2 == "⌘L"@,
        cmd_look(Cmd::ShowDiff).2 == "⌘D"@ && cmd_look(Cmd::ToggleTerminal).2 == "⌥F12"@ && cmd_look(Cmd::GitPopup).2 == "⌥B"@,
{
}

/// A place is scored exactly where it has a score, and under its own number.
pub proof fn places_with_a_score_are_kept(f: spec_fn(int) -> Option<int>, n: int, i: int)
    requires
        0 <= i < n <= usize::MAX,
    ensures
        f(i) is Some <==> exists|k: int| 0 <= k < scored_places(f, n).len() && (#[trigger] scored_places(f, n)[k]).id == i,
        forall|k: int| 0 <= k < scored_places(f, n).len() ==> (#[trigger] scored_places(f, n)[k]).id < n,
    decreases n,
{
    let v = scored_places(f, n);
    let w = scored_places(f, n - 1);
    if n > 1 {
        places_with_a_score_are_kept(f, n - 1, if i < n - 1 { i } else { 0 });
    }
    assert forall|k: int| 0 <= k < v.len() implies (#[trigger] v[k]).id < n by {
        if k < w.len() {
            assert(v[k] == w[k]);
        }
    }
    if f(i) is Some {
        if i < n - 1 {
            let k = choose|k: int| 0 <= k < w.len() && (#[trigger] w[k]).id == i;
            assert(v[k] == w[k]);
        } else {
            assert(v[v.len() - 1].id == i);
        }
    }
    if exists|k: int| 0 <= k < v.len() && (#[trigger] v[k]).id == i {
        let k = choose|k: int| 0 <= k < v.len() && (#[trigger] v[k]).id == i;
        if k < w.len() {
            assert(v[k] == w[k]);
            assert(w[k].id == i);
        }
    }
}

/// The palette lists exactly the commands whose label fits the query.
pub proof fn the_palette_lists_what_fits(query: Seq<char>, i: int)
    requires
        0 <= i < 24,
    ensures
        palette_ranked(query).contains(palette_cmd(i)) <==> fuzzy_value(query, cmd_look(palette_cmd(i)).0) is Some,
        query.len() == 0 ==> palette_ranked(query).contains(palette_cmd(i)),
{
    let f = |i: int| fuzzy_value(query, cmd_look(palette_cmd(i)).0);
    let v = scored_places(f, PALETTE_LEN as int);
    let s = sorted(v);
    let g = |s: Scored| palette_cmd(s.id as int);
    let r = palette_ranked(query);
    assert(r == s.map_values(g));
    places_with_a_score_are_kept(f, 24, i);
    sorting_orders(v);
    v.to_multiset_ensures();
    s.to_multiset_ensures();
    if f(i) is Some {
        let k = choose|k: int| 0 <= k < v.len() && (#[trigger] v[k]).id == i;
        assert(v.contains(v[k]));
        assert(s.to_multiset().count(v[k]) > 0);
        assert(s.contains(v[k]));
        let m = choose|m: int| 0 <= m < s.len() && s[m] == v[k];
        assert(r[m] == palette_cmd(i));
    }
    if r.contains(palette_cmd(i)) {
        let m = choose|m: int| 0 <= m < r.len() && r[m] == palette_cmd(i);
        assert(s.contains(s[m]));
        assert(v.to_multiset().count(s[m]) > 0);
        assert(v.contains(s[m]));
        let k = choose|k: int| 0 <= k < v.len() && v[k] == s[m];
        assert(v[k].id < 24);
        if v[k].id != i {
            let a = v[k].id as int;
            if a < i {
                every_command_is_in_the_palette(palette_cmd(i), a, i);
            } else {
                every_command_is_in_the_palette(palette_cmd(i), i, a);
            }
        }
        assert(v[k].id == i);
    }
}

/// An action of the popup leads to what its label says; choosing a branch opens its submenu and
/// leaves the popup open.
pub proof fn actions_lead_where_they_say(p: GitPopupView, b: Seq<char>, a: GitAction, r: PopupAction)
    ensures
        action_leads_to(GitAction::Push, r) ==> r is Shell && r->Shell_0@ == "git push -u origin HEAD"@,
        action_leads_to(GitAction::Update, r) ==> r is Shell && r->Shell_0@ == "git pull"@,
        action_leads_to(GitAction::Pr, r) ==> r is Shell && r->Shell_0@ == "pro"@,
        action_leads_to(GitAction::Commit, r) ==> r is CommitPane,
        action_leads_to(GitAction::CreatePr, r) ==> r is CreatePrPrompt,
        action_leads_to(GitAction::NewBranch, r) ==> r is BranchPrompt,
        git_action_look(GitAction::Push).0 == "Push"@ && git_action_look(GitAction::Update).0 == "Update Project"@ && git_action_look(GitAction::Commit).0 == "Commit"@,
        git_action_look(GitAction::Pr).0 == "Open Pull Request"@ && git_action_look(GitAction::CreatePr).0 == "Create Pull Request"@ && git_action_look(
            GitAction::NewBranch,
        ).0 == "New Branch"@,
        exists|i: int| 0 <= i < 6 && #[trigger] git_action(i) == a,
        popup_chosen(p, GitItemView::Branch(b)).action_branch == Some(b) && popup_chosen(p, GitItemView::Branch(b)).open == p.open,
        popup_chosen(p, GitItemView::Branch(b)).action_sel == 0,
        !popup_chosen(p, GitItemView::Action(a)).open,
        item_leads_to(GitItemView::Branch(b), r) ==> r is Submenu,
        item_leads_to(GitItemView::Action(a), r) == action_leads_to(a, r),
{
    let k: int = match a {
        GitAction::Update => 0,
        GitAction::Commit => 1,
        GitAction::Push => 2,
        GitAction::Pr => 3,
        GitAction::CreatePr => 4,
        GitAction::NewBranch => 5,
    };
    assert(git_action(k) == a);
}

/// A branch can be checked out and merged; it can be deleted where it is local and not the current
/// one.
pub proof fn branches_offer_their_actions(b: Seq<char>, local: Seq<Seq<char>>, current: Seq<char>)
    ensures
        submenu(b, local, current)[0] == BranchAction::Checkout && submenu(b, local, current)[1] == BranchAction::Merge,
        submenu(b, local, current).contains(BranchAction::Delete) <==> local.contains(b) && b != current,
        submenu(b, local, current).len() <= 3,
        branch_command(BranchAction::Merge, b) == "git merge "@ + b,
        branch_command(BranchAction::Delete, b) == "git branch -d "@ + b,
        begins(branch_command(BranchAction::Checkout, b), "b='"@ + b + "'; if git show-ref --verify --quiet \"refs/remotes/$b\"; then git checkout \"${b#*/}\"; else git checkout \"$b\"; fi"@),
        branch_action_label(BranchAction::Merge, b, current) == "Merge '"@ + b + "' into '"@ + (current + "'"@),
        branch_action_label(BranchAction::Delete, b, current) == "Delete '"@ + b + "'"@,
        branch_action_label(BranchAction::Checkout, b, current) == "Checkout"@,
{
    let s = submenu(b, local, current);
    if s.len() == 3 {
        assert(s[2] == BranchAction::Delete);
    } else {
        assert(s[0] != BranchAction::Delete && s[1] != BranchAction::Delete);
    }
    let c = branch_command(BranchAction::Checkout, b);
    assert(c.take(c.len() as int) =~= c);
}

/// The popup lists the actions that fit the query and then the branches that do; without a query it
/// lists all of both, the branches in their order.
pub proof fn the_popup_lists_what_fits(branches: Seq<Seq<char>>, q: Seq<char>, i: int, n: int)
    requires
        0 <= i < n <= 6,
    ensures
        fitting_branches(Seq::empty(), branches).len() == branches.len(),
        fitting_actions(q, n).contains(GitItemView::Action(git_action(i))) <==> q.len() == 0 || fuzzy_value(q, lower(git_action_look(git_action(i)).0)) is Some,
        popup_items(q, branches) == fitting_actions(lower(q), 6) + fitting_branches(lower(q), branches),
    decreases n,
{
    let v = fitting_actions(q, n);
    let w = fitting_actions(q, n - 1);
    let x = GitItemView::Action(git_action(i));
    if i < n - 1 {
        the_popup_lists_what_fits(branches, q, i, n - 1);
        if w.contains(x) {
            let k = choose|k: int| 0 <= k < w.len() && w[k] == x;
            assert(v[k] == x);
        }
        if v.contains(x) {
            let k = choose|k: int| 0 <= k < v.len() && v[k] == x;
            if k == w.len() {
                assert(git_action(i) != git_action(n - 1));
            }
            assert(w[k] == x);
        }
    } else {
        lemma_no_later_action(q, n - 1, n - 1);
        if q.len() == 0 || fuzzy_value(q, lower(git_action_look(git_action(i)).0)) is Some {
            assert(v[v.len() - 1] == x);
        }
    }
}

proof fn lemma_no_later_action(q: Seq<char>, n: int, i: int)
    requires
        0 <= n <= i < 6,
    ensures
        !fitting_actions(q, n).contains(GitItemView::Action(git_action(i))),
    decreases n,
{
    if n > 0 {
        lemma_no_later_action(q, n - 1, i);
        let v = fitting_actions(q, n);
        let w = fitting_actions(q, n - 1);
        let x = GitItemView::Action(git_action(i));
        if v.contains(x) {
            let k = choose|k: int| 0 <= k < v.len() && v[k] == x;
            if k < w.len() {
                assert(w[k] == x);
            } else {
                assert(git_action(i) != git_action(n - 1));
            }
        }
    }
}

/// A digit key names an entry by its number, without modifiers only.
pub proof fn digit_keys_name_entries(k: KeyView)
    ensures
        k.key == seq!['1'] && !k.platform && !k.control && !k.alt ==> key_digit(k) == Some(1int),
        k.key == seq!['9'] && !k.platform && !k.control && !k.alt ==> key_digit(k) == Some(9int),
        k.key == seq!['5'] && !k.platform && !k.control && !k.alt ==> key_digit(k) == Some(5int),
        k.key == seq!['0'] ==> key_digit(k) is None,
        k.platform || k.control || k.alt ==> key_digit(k) is None,
{
}

} // verus!
