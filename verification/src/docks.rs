//! The docks round the editor: the terminals, the browser, the agent, the run console and the
//! git log.
use vstd::prelude::*;
use crate::console::{RunConsole, RunEnd, RunView, run_end, run_ended};
use crate::gitlog::GitLog;
use crate::prompts::{full_url, normalize_url};
use crate::tabs::{ActiveList, active_after_close};
use crate::term::Terminal;

verus! {

/// The browser dock is parked.
pub const BROWSER_PANEL: bool = false;

/// The agent dock is parked.
pub const AGENT_PANEL: bool = false;

/// What the keyboard goes to.
#[derive(Clone, Copy, Debug, PartialEq, Eq, Structural)]
pub enum Focus {
    /// The active editor, or the root of the window where no file is open.
    Active,
    /// The terminal with this number.
    Terminal(usize),
    Tree,
    CommitMessage,
    GitLog,
    Agent,
    Browser,
    ConfirmDelete,
    NewFile,
    /// It stays where it is.
    Same,
}

/// The docks: which are open, and what is in those that share a place.
#[derive(Debug)]
pub struct Docks {
    pub terminals: ActiveList<usize>,
    pub show_terminal: bool,
    pub run: RunConsole,
    pub git_open: bool,
    pub agent_open: bool,
    pub browser_open: bool,
    pub browser_url: String,
}

impl Docks {
    /// The list of terminals is in order; the run console and the git log, which share the
    /// bottom of the window, are not both open, nor are the terminal and the browser, which
    /// share its right side.
    pub open spec fn wf(&self) -> bool {
        &&& self.terminals.wf()
        &&& !(self.run.open && self.git_open)
        &&& !(self.show_terminal && self.browser_open)
    }

    /// The docks of a new window: one terminal is shown.
    pub fn new(terminal: usize) -> (r: Docks)
        ensures
            r.wf(),
            r.terminals.items@ == seq![terminal],
            r.terminals.active == 0,
            r.show_terminal,
            r.run@ == (RunView {
                open: false,
                cmd: Seq::empty(),
                lines: Seq::empty(),
                running: false,
                active: false,
                failed: false,
                spin: 0,
                gen: 0,
            }),
            !r.git_open && !r.agent_open && !r.browser_open,
            r.browser_url@ == "http://localhost:3000"@,
    {
        let mut terminals: ActiveList<usize> = ActiveList::new();
        terminals.open(terminal);
        assert(terminals.items@ =~= seq![terminal]);
        Docks {
            terminals,
            show_terminal: true,
            run: RunConsole::new(),
            git_open: false,
            agent_open: false,
            browser_open: false,
            browser_url: "http://localhost:3000".to_owned(),
        }
    }

    /// Shows the terminal, or hides it. A terminal is made where there is none, with the number
    /// `fresh`; the browser makes room.
    pub fn toggle_terminal(&mut self, fresh: usize) -> (r: Focus)
        requires
            old(self).wf(),
        ensures
            final(self).wf(),
            if old(self).show_terminal {
                &&& *final(self) == (Docks { show_terminal: false, ..*old(self) })
                &&& r == Focus::Active
            } else {
                &&& *final(self) == (Docks {
                    show_terminal: true,
                    browser_open: false,
                    terminals: final(self).terminals,
                    ..*old(self)
                })
                &&& if old(self).terminals.items@.len() == 0 {
                    &&& final(self).terminals.items@ == seq![fresh]
                    &&& final(self).terminals.active == 0
                    &&& r == Focus::Terminal(fresh)
                } else {
                    &&& final(self).terminals == old(self).terminals
                    &&& r == Focus::Terminal(
                        old(self).terminals.items@[old(self).terminals.active as int],
                    )
                }
            },
    {
        self.show_terminal = !self.show_terminal;
        if self.show_terminal {
            self.browser_open = false;
            if self.terminals.items.len() == 0 {
                self.terminals.open(fresh);
                assert(self.terminals.items@ =~= seq![fresh]);
            }
            Focus::Terminal(self.terminals.items[self.terminals.active])
        } else {
            Focus::Active
        }
    }

    /// Opens one more terminal.
    pub fn new_terminal(&mut self, fresh: usize) -> (r: Focus)
        requires
            old(self).wf(),
        ensures
            final(self).wf(),
            r == Focus::Terminal(fresh),
            final(self).terminals.items@ == old(self).terminals.items@.push(fresh),
            final(self).terminals.active == old(self).terminals.items@.len(),
            *final(self) == (Docks {
                terminals: final(self).terminals,
                show_terminal: true,
                browser_open: false,
                ..*old(self)
            }),
    {
        self.terminals.open(fresh);
        self.show_terminal = true;
        self.browser_open = false;
        Focus::Terminal(fresh)
    }

    /// Goes to terminal `ix`.
    pub fn switch_terminal(&mut self, ix: usize) -> (r: Focus)
        requires
            old(self).wf(),
        ensures
            final(self).wf(),
            if ix < old(self).terminals.items@.len() {
                &&& r == Focus::Terminal(old(self).terminals.items@[ix as int])
                &&& *final(self) == (Docks {
                    terminals: ActiveList { active: ix, ..old(self).terminals },
                    ..*old(self)
                })
            } else {
                r == Focus::Same && *final(self) == *old(self)
            },
    {
        if self.terminals.switch(ix) {
            Focus::Terminal(self.terminals.items[ix])
        } else {
            Focus::Same
        }
    }

    /// Closes terminal `ix`; the dock closes with the last one. Gives the terminal to kill, and
    /// where the keyboard goes.
    pub fn close_terminal(&mut self, ix: usize) -> (r: (Option<usize>, Focus))
        requires
            old(self).wf(),
        ensures
            final(self).wf(),
            ({
                let o = *old(self);
                let n = o.terminals.items@.len() as int;
                if ix >= n {
                    r == (None::<usize>, Focus::Same) && *final(self) == o
                } else {
                    &&& r.0 == Some(o.terminals.items@[ix as int])
                    &&& final(self).terminals.items@ == o.terminals.items@.remove(ix as int)
                    &&& final(self).terminals.active == active_after_close(
                        o.terminals.active as int,
                        ix as int,
                        n,
                    )
                    &&& *final(self) == (Docks {
                        terminals: final(self).terminals,
                        show_terminal: o.show_terminal && n > 1,
                        ..o
                    })
                    &&& r.1 == if n == 1 {
                        Focus::Active
                    } else {
                        Focus::Terminal(
                            final(self).terminals.items@[final(self).terminals.active as int],
                        )
                    }
                }
            }),
    {
        match self.terminals.close(ix) {
            None => (None, Focus::Same),
            Some(t) => {
                if self.terminals.items.len() == 0 {
                    self.show_terminal = false;
                    (Some(t), Focus::Active)
                } else {
                    (Some(t), Focus::Terminal(self.terminals.items[self.terminals.active]))
                }
            },
        }
    }

    /// Closes all terminals but the active one. Gives those to kill, and where the keyboard
    /// goes.
    pub fn close_other_terminals(&mut self) -> (r: (Vec<usize>, Focus))
        requires
            old(self).wf(),
        ensures
            final(self).wf(),
            ({
                let o = *old(self);
                if o.terminals.items@.len() == 0 {
                    r.0@.len() == 0 && r.1 == Focus::Same && *final(self) == o
                } else {
                    let keep = o.terminals.items@[o.terminals.active as int];
                    &&& r.0@ == o.terminals.items@.remove(o.terminals.active as int)
                    &&& r.1 == Focus::Terminal(keep)
                    &&& final(self).terminals.items@ == seq![keep]
                    &&& final(self).terminals.active == 0
                    &&& *final(self) == (Docks { terminals: final(self).terminals, ..o })
                }
            }),
    {
        if self.terminals.items.len() == 0 {
            return (Vec::new(), Focus::Same);
        }
        let others = self.terminals.close_others();
        (others, Focus::Terminal(self.terminals.items[0]))
    }

    /// Opens the browser dock, or closes it; the terminal makes room.
    pub fn toggle_browser(&mut self) -> (r: Focus)
        requires
            old(self).wf(),
        ensures
            final(self).wf(),
            if !BROWSER_PANEL {
                r == Focus::Same && *final(self) == *old(self)
            } else if old(self).browser_open {
                r == Focus::Same && *final(self) == (Docks { browser_open: false, ..*old(self) })
            } else {
                r == Focus::Browser && *final(self) == (Docks {
                    browser_open: true,
                    show_terminal: false,
                    ..*old(self)
                })
            },
    {
        if !BROWSER_PANEL {
            return Focus::Same;
        }
        self.browser_open = !self.browser_open;
        if self.browser_open {
            self.show_terminal = false;
            Focus::Browser
        } else {
            Focus::Same
        }
    }

    /// Goes to what stands in the address bar; gives the address.
    pub fn browser_navigate(&mut self, typed: &str) -> (r: String)
        requires
            old(self).wf(),
        ensures
            final(self).wf(),
            r@ == full_url(typed@),
            final(self).browser_url@ == r@,
            *final(self) == (Docks { browser_url: final(self).browser_url, ..*old(self) }),
    {
        let u = normalize_url(typed);
        self.browser_url = u.clone();
        u
    }

    /// Opens the agent dock, or closes it.
    pub fn toggle_agent(&mut self) -> (r: Focus)
        requires
            old(self).wf(),
        ensures
            final(self).wf(),
            if !AGENT_PANEL {
                r == Focus::Same && *final(self) == *old(self)
            } else {
                &&& *final(self) == (Docks { agent_open: !old(self).agent_open, ..*old(self) })
                &&& r == if old(self).agent_open {
                    Focus::Active
                } else {
                    Focus::Agent
                }
            },
    {
        if !AGENT_PANEL {
            return Focus::Same;
        }
        self.agent_open = !self.agent_open;
        if self.agent_open {
            Focus::Agent
        } else {
            Focus::Active
        }
    }

    /// Opens the git log, or closes it; the run console makes room.
    pub fn toggle_git_log(&mut self) -> (r: Focus)
        requires
            old(self).wf(),
        ensures
            final(self).wf(),
            if old(self).git_open {
                r == Focus::Active && *final(self) == (Docks {
                    git_open: false,
                    ..*old(self)
                })
            } else {
                r == Focus::GitLog && *final(self) == (Docks {
                    git_open: true,
                    run: RunConsole { open: false, ..old(self).run },
                    ..*old(self)
                })
            },
    {
        self.git_open = !self.git_open;
        if self.git_open {
            self.run.open = false;
            Focus::GitLog
        } else {
            Focus::Active
        }
    }

    /// Opens the run console, or closes it; the git log makes room.
    pub fn toggle_run(&mut self)
        requires
            old(self).wf(),
        ensures
            final(self).wf(),
            *final(self) == (Docks {
                run: RunConsole { open: !old(self).run.open, ..old(self).run },
                git_open: old(self).git_open && old(self).run.open,
                ..*old(self)
            }),
    {
        self.run.open = !self.run.open;
        if self.run.open {
            self.git_open = false;
        }
    }

    /// Opens the run console from its toast.
    pub fn open_run(&mut self)
        requires
            old(self).wf(),
        ensures
            final(self).wf(),
            final(self).run@ == (RunView { open: true, active: false, ..old(self).run@ }),
            *final(self) == (Docks { run: final(self).run, git_open: false, ..*old(self) }),
    {
        self.run.open_from_toast();
        self.git_open = false;
    }
    /// A command has ended; where that shows the run console, the git log makes room.
    pub fn run_finished(&mut self, success: bool, conflicts: bool) -> (r: RunEnd)
        requires
            old(self).wf(),
        ensures
            final(self).wf(),
            r == run_end(old(self).run@, success, conflicts),
            final(self).run@ == run_ended(old(self).run@, success, conflicts),
            *final(self) == (Docks {
                run: final(self).run,
                git_open: old(self).git_open && !final(self).run.open,
                ..*old(self)
            }),
    {
        let e = self.run.finish(success, conflicts);
        if self.run.open {
            self.git_open = false;
        }
        e
    }
}

/// What the left panel shows.
#[derive(Clone, Copy, Debug, PartialEq, Eq, Structural)]
pub enum LeftView {
    Files,
    Changes,
    PullRequest,
}

/// The left panel: what it shows, and whether it is shown.
#[derive(Clone, Copy, Debug, PartialEq, Eq, Structural)]
pub struct LeftPanel {
    pub view: LeftView,
    pub shown: bool,
}

/// The left panel after a click on the icon of `v`: it is shown, or hidden where it was shown.
pub open spec fn left_after(p: LeftPanel, v: LeftView) -> LeftPanel {
    LeftPanel { view: v, shown: !(p.shown && p.view == v) }
}

/// A second click on the icon of a panel takes the first one back, where that panel was the
/// last one shown.
pub proof fn clicking_a_panel_twice_restores(p: LeftPanel)
    ensures
        left_after(left_after(p, p.view), p.view) == p,
{
}

impl LeftPanel {
    /// A click on an icon of the left bar: shows that panel, or hides it where it is shown.
    /// Says whether the review has to be loaded.
    pub fn choose_view(&mut self, v: LeftView) -> (r: bool)
        ensures
            *final(self) == left_after(*old(self), v),
            r == (final(self).shown && v == LeftView::PullRequest),
    {
        if self.shown && self.view == v {
            self.shown = false;
            return false;
        }
        self.view = v;
        self.shown = true;
        v == LeftView::PullRequest
    }

    /// Shows a panel.
    pub fn show(&mut self, v: LeftView)
        ensures
            *final(self) == (LeftPanel { view: v, shown: true }),
    {
        self.view = v;
        self.shown = true;
    }
}

/// The edges of the find panel that a drag moves.
#[derive(Clone, Copy, Debug, PartialEq, Eq, Structural)]
pub struct ResizeEdges {
    pub l: bool,
    pub r: bool,
    pub t: bool,
    pub b: bool,
}

/// What the mouse is dragging.
#[derive(Clone, Copy, Debug, PartialEq, Eq, Structural)]
pub struct Drags {
    pub tree: bool,
    pub term: bool,
    pub agent: bool,
    pub git: bool,
    pub find_edge: Option<ResizeEdges>,
    pub find_moving: bool,
    pub find_split: bool,
}

/// Nothing is dragged.
pub open spec fn no_drags() -> Drags {
    Drags {
        tree: false,
        term: false,
        agent: false,
        git: false,
        find_edge: None,
        find_moving: false,
        find_split: false,
    }
}

/// Which of the drags a mouse move follows: the first of those under way.
#[derive(Clone, Copy, Debug, PartialEq, Eq, Structural)]
pub enum DragTarget {
    Tree,
    Term,
    Agent,
    Git,
    FindEdge(ResizeEdges),
    FindMove,
    FindSplit,
    Idle,
}

/// The first of the drags under way.
pub open spec fn drag_target(d: Drags) -> DragTarget {
    if d.tree {
        DragTarget::Tree
    } else if d.term {
        DragTarget::Term
    } else if d.agent {
        DragTarget::Agent
    } else if d.git {
        DragTarget::Git
    } else {
        match d.find_edge {
            Some(e) => DragTarget::FindEdge(e),
            None => if d.find_moving {
                DragTarget::FindMove
            } else if d.find_split {
                DragTarget::FindSplit
            } else {
                DragTarget::Idle
            },
        }
    }
}

/// Nothing is dragged exactly where a mouse move follows nothing.
pub proof fn idle_mouse_drags_nothing(d: Drags)
    ensures
        drag_target(d) == DragTarget::Idle <==> d == no_drags(),
{
}

impl Drags {
    /// The drag that a mouse move follows.
    pub fn dragging(&self) -> (r: DragTarget)
        ensures
            r == drag_target(*self),
    {
        let d = *self;
        if d.tree {
            DragTarget::Tree
        } else if d.term {
            DragTarget::Term
        } else if d.agent {
            DragTarget::Agent
        } else if d.git {
            DragTarget::Git
        } else {
            match d.find_edge {
                Some(e) => DragTarget::FindEdge(e),
                None => if d.find_moving {
                    DragTarget::FindMove
                } else if d.find_split {
                    DragTarget::FindSplit
                } else {
                    DragTarget::Idle
                },
            }
        }
    }

    /// The mouse goes up: every drag ends. Says whether there was one.
    pub fn on_mouse_up(&mut self) -> (r: bool)
        ensures
            r == (*old(self) != no_drags()),
            *final(self) == no_drags(),
    {
        let was = match self.dragging() {
            DragTarget::Idle => false,
            _ => true,
        };
        proof {
            idle_mouse_drags_nothing(*self);
        }
        *self = Drags {
            tree: false,
            term: false,
            agent: false,
            git: false,
            find_edge: None,
            find_moving: false,
            find_split: false,
        };
        was
    }
}

/// A click on the icon of a panel shows that panel, and hides it where it was shown.
pub proof fn a_click_shows_its_panel(p: LeftPanel, v: LeftView)
    ensures
        left_after(p, v).view == v,
        p.view != v ==> left_after(p, v).shown,
        !p.shown ==> left_after(p, v).shown,
        p.shown && p.view == v ==> !left_after(p, v).shown,
{
}

/// Each drag moves what it is about.
pub proof fn a_drag_moves_its_own(e: ResizeEdges)
    ensures
        drag_target(Drags { tree: true, ..no_drags() }) == DragTarget::Tree,
        drag_target(Drags { term: true, ..no_drags() }) == DragTarget::Term,
        drag_target(Drags { agent: true, ..no_drags() }) == DragTarget::Agent,
        drag_target(Drags { git: true, ..no_drags() }) == DragTarget::Git,
        drag_target(Drags { find_edge: Some(e), ..no_drags() }) == DragTarget::FindEdge(e),
        drag_target(Drags { find_moving: true, ..no_drags() }) == DragTarget::FindMove,
        drag_target(Drags { find_split: true, ..no_drags() }) == DragTarget::FindSplit,
        drag_target(no_drags()) == DragTarget::Idle,
{
}

} // verus!
