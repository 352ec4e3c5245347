//! The open projects, which of them is active, and the dialog that switches between them.
use vstd::prelude::*;
use crate::diff::{least, lesser};
use crate::keys::{Keystroke, down_step, step_down, step_up};
use crate::path::FilePath;
use crate::text::{dec, number_to, parse_usize, reading_undoes_writing};

verus! {

/// The open projects, each known by a number of its own.
#[derive(Debug)]
pub struct Workspace {
    pub projects: Vec<usize>,
    pub active: usize,
    pub focus_pending: bool,
    pub switcher_open: bool,
    pub switcher_sel: usize,
}

/// What a project view asks of the workspace.
#[derive(Debug)]
pub enum ProjectNav {
    Switch(usize),
    Open,
    OpenPath(FilePath),
    Remove(usize),
}

/// What follows from a request: a folder is to be picked, a path is to be opened, or nothing
/// more.
#[derive(Debug)]
pub enum NavAction {
    PickFolder,
    OpenPath(FilePath),
    Done,
}

/// The projects as they stand once project `from` was put before project `to`.
pub open spec fn reordered(v: Seq<usize>, from: int, to: int) -> Seq<usize> {
    v.remove(from).insert(moved_to(from, to), v[from])
}

/// The place of the moved project.
pub open spec fn moved_to(from: int, to: int) -> int {
    if from < to {
        to - 1
    } else {
        to
    }
}

/// The place of `x` in a list.
pub open spec fn place_of(v: Seq<usize>, x: usize) -> int
    decreases v.len(),
{
    if v.len() == 0 || v[0] == x {
        0
    } else {
        1 + place_of(v.drop_first(), x)
    }
}

proof fn lemma_place_of(v: Seq<usize>, x: usize, i: int)
    requires
        0 <= i < v.len(),
        v[i] == x,
        forall|j: int| 0 <= j < i ==> v[j] != x,
    ensures
        place_of(v, x) == i,
    decreases v.len(),
{
    if i > 0 {
        let t = v.drop_first();
        assert forall|j: int| 0 <= j < i - 1 implies t[j] != x by {
            assert(t[j] == v[j + 1]);
        }
        assert(t[i - 1] == v[i]);
        lemma_place_of(t, x, i - 1);
    }
}

/// The active place once project `idx` of `n` was closed.
pub open spec fn active_after_remove(active: int, idx: int, n: int) -> int {
    if active > idx || active >= n - 1 {
        if active > 0 {
            active - 1
        } else {
            0
        }
    } else {
        active
    }
}

/// What a digit key names, where it is a project.
pub open spec fn digit_project(key: Seq<char>, n: int) -> Option<int> {
    match number_to(key, usize::MAX as nat) {
        Some(d) if 1 <= d <= n => Some(d - 1),
        _ => None,
    }
}

impl Workspace {
    /// A project is listed once, the active place is in the list, and so is the selected one.
    pub open spec fn wf(&self) -> bool {
        &&& self.projects@.no_duplicates()
        &&& self.projects@.len() > 0 ==> self.active < self.projects@.len()
        &&& self.projects@.len() > 0 ==> self.switcher_sel < self.projects@.len()
        &&& self.projects@.len() == 0 ==> self.active == 0 && self.switcher_sel == 0
    }

    /// No project yet.
    pub fn new() -> (r: Workspace)
        ensures
            r.wf(),
            r.projects@ == Seq::<usize>::empty(),
            r.active == 0,
            r.focus_pending,
            !r.switcher_open,
            r.switcher_sel == 0,
    {
        Workspace {
            projects: Vec::new(),
            active: 0,
            focus_pending: true,
            switcher_open: false,
            switcher_sel: 0,
        }
    }

    /// Adds a project and makes it active.
    pub fn add_project(&mut self, id: usize)
        requires
            old(self).wf(),
            !old(self).projects@.contains(id),
        ensures
            final(self).wf(),
            final(self).projects@ == old(self).projects@.push(id),
            final(self).active == old(self).projects@.len(),
            final(self).focus_pending,
            final(self).switcher_open == old(self).switcher_open,
            final(self).switcher_sel == old(self).switcher_sel,
    {
        let ghost was = self.projects@;
        self.projects.push(id);
        self.active = self.projects.len() - 1;
        self.focus_pending = true;
        proof {
            let now = self.projects@;
            assert forall|i: int, j: int| 0 <= i < j < now.len() implies now[i] != now[j] by {
                if j == was.len() {
                    assert(was.contains(was[i]));
                }
            }
        }
    }

    /// The projects are all there: the first one is active.
    pub fn start(&mut self)
        requires
            old(self).wf(),
        ensures
            final(self).wf(),
            *final(self) == (Workspace { active: 0, ..*old(self) }),
    {
        self.active = 0;
    }

    /// Closes project `idx`, but never the last one. The active place follows its project.
    pub fn remove_project(&mut self, idx: usize)
        requires
            old(self).wf(),
        ensures
            final(self).wf(),
            if idx >= old(self).projects@.len() || old(self).projects@.len() <= 1 {
                *final(self) == *old(self)
            } else {
                &&& final(self).projects@ == old(self).projects@.remove(idx as int)
                &&& final(self).active == active_after_remove(
                    old(self).active as int,
                    idx as int,
                    old(self).projects@.len() as int,
                )
                &&& final(self).switcher_sel == least(
                    old(self).switcher_sel as int,
                    old(self).projects@.len() - 2,
                )
                &&& final(self).focus_pending
                &&& final(self).switcher_open == old(self).switcher_open
            },
    {
        if idx >= self.projects.len() || self.projects.len() <= 1 {
            return;
        }
        let ghost was = self.projects@;
        let _ = self.projects.remove(idx);
        proof {
            let now = self.projects@;
            assert forall|i: int, j: int| 0 <= i < j < now.len() implies now[i] != now[j] by {
                let a = if i < idx {
                    i
                } else {
                    i + 1
                };
                let b = if j < idx {
                    j
                } else {
                    j + 1
                };
                assert(now[i] == was[a] && now[j] == was[b]);
            }
        }
        if self.active > idx || self.active >= self.projects.len() {
            self.active = if self.active > 0 {
                self.active - 1
            } else {
                0
            };
        }
        self.switcher_sel = lesser(self.switcher_sel, self.projects.len() - 1);
        self.focus_pending = true;
    }

    /// Puts project `from` before project `to`. The active project stays the same, and the
    /// selection follows the project that moved.
    pub fn reorder_projects(&mut self, from: usize, to: usize)
        requires
            old(self).wf(),
        ensures
            final(self).wf(),
            ({
                let n = old(self).projects@.len();
                if from >= n || to >= n || from == to {
                    *final(self) == *old(self)
                } else {
                    let v = reordered(old(self).projects@, from as int, to as int);
                    &&& final(self).projects@ == v
                    &&& final(self).active == place_of(
                        v,
                        old(self).projects@[old(self).active as int],
                    )
                    &&& final(self).switcher_sel == moved_to(from as int, to as int)
                    &&& final(self).focus_pending == old(self).focus_pending
                    &&& final(self).switcher_open == old(self).switcher_open
                }
            }),
    {
        let n: usize = self.projects.len();
        if from >= n || to >= n || from == to {
            return;
        }
        let ghost was = self.projects@;
        let id: usize = self.projects[self.active];
        let item = self.projects.remove(from);
        let dst: usize = if from < to {
            to - 1
        } else {
            to
        };
        self.projects.insert(dst, item);
        proof {
            reordering_keeps_the_projects(was, from as int, to as int);
            reordering_keeps_projects_distinct(was, from as int, to as int);
            assert(was.contains(id));
        }
        let mut i: usize = 0;
        while i < self.projects.len() && self.projects[i] != id
            invariant
                i <= self.projects.len(),
                self.projects@ == reordered(was, from as int, to as int),
                self.switcher_sel == old(self).switcher_sel,
                self.focus_pending == old(self).focus_pending,
                self.switcher_open == old(self).switcher_open,
                forall|j: int| 0 <= j < i ==> self.projects@[j] != id,
            decreases self.projects.len() - i,
        {
            i = i + 1;
        }
        proof {
            assert(self.projects@.contains(id));
            lemma_place_of(self.projects@, id, i as int);
        }
        self.active = i;
        self.switcher_sel = dst;
    }

    /// The next project, round the end.
    pub fn next_project(&mut self)
        requires
            old(self).wf(),
        ensures
            final(self).wf(),
            *final(self) == if old(self).projects@.len() > 1 {
                Workspace {
                    active: ((old(self).active + 1) % old(self).projects@.len() as int) as usize,
                    focus_pending: true,
                    ..*old(self)
                }
            } else {
                *old(self)
            },
    {
        let n: usize = self.projects.len();
        if n > 1 {
            self.active = if self.active + 1 < n {
                self.active + 1
            } else {
                0
            };
            proof {
                let a = old(self).active as int;
                let m = n as int;
                if a + 1 < m {
                    vstd::arithmetic::div_mod::lemma_small_mod((a + 1) as nat, m as nat);
                } else {
                    assert(a + 1 == m);
                    vstd::arithmetic::div_mod::lemma_mod_self_0(m);
                }
            }
            self.focus_pending = true;
        }
    }

    /// The previous project, round the beginning.
    pub fn prev_project(&mut self)
        requires
            old(self).wf(),
        ensures
            final(self).wf(),
            *final(self) == if old(self).projects@.len() > 1 {
                Workspace {
                    active: ((old(self).active + old(self).projects@.len() - 1) % old(
                        self,
                    ).projects@.len() as int) as usize,
                    focus_pending: true,
                    ..*old(self)
                }
            } else {
                *old(self)
            },
    {
        let n: usize = self.projects.len();
        if n > 1 {
            self.active = if self.active > 0 {
                self.active - 1
            } else {
                n - 1
            };
            proof {
                let a = old(self).active as int;
                let m = n as int;
                if a > 0 {
                    vstd::arithmetic::div_mod::lemma_mod_add_multiples_vanish(a - 1, m);
                    vstd::arithmetic::div_mod::lemma_small_mod((a - 1) as nat, m as nat);
                } else {
                    vstd::arithmetic::div_mod::lemma_small_mod((m - 1) as nat, m as nat);
                }
            }
            self.focus_pending = true;
        }
    }

    /// Switches to project `i`, where there is one.
    pub fn switch_to(&mut self, i: usize)
        requires
            old(self).wf(),
        ensures
            final(self).wf(),
            *final(self) == if i < old(self).projects@.len() {
                Workspace { active: i, focus_pending: true, ..*old(self) }
            } else {
                *old(self)
            },
    {
        if i < self.projects.len() {
            self.active = i;
            self.focus_pending = true;
        }
    }

    /// Opens the switcher on the active project.
    pub fn show_projects(&mut self)
        requires
            old(self).wf(),
        ensures
            final(self).wf(),
            *final(self) == (Workspace {
                switcher_open: true,
                switcher_sel: old(self).active,
                ..*old(self)
            }),
    {
        self.switcher_open = true;
        self.switcher_sel = self.active;
    }

    /// Closes project `idx` from within the switcher, which stays open while there is a choice.
    pub fn close_in_switcher(&mut self, idx: usize)
        requires
            old(self).wf(),
        ensures
            final(self).wf(),
            ({
                let n = old(self).projects@.len();
                let closed = idx < n && n > 1;
                let left = if closed {
                    n - 1
                } else {
                    n as int
                };
                &&& final(self).projects@ == if closed {
                    old(self).projects@.remove(idx as int)
                } else {
                    old(self).projects@
                }
                &&& final(self).active == if closed {
                    active_after_remove(old(self).active as int, idx as int, n as int)
                } else {
                    old(self).active as int
                }
                &&& final(self).switcher_sel == if closed {
                    least(old(self).switcher_sel as int, n - 2)
                } else {
                    old(self).switcher_sel as int
                }
                &&& final(self).switcher_open == (old(self).switcher_open && left > 1)
                &&& final(self).focus_pending == (left <= 1)
            }),
    {
        self.remove_project(idx);
        if self.projects.len() <= 1 {
            self.switcher_open = false;
            self.focus_pending = true;
        } else {
            self.focus_pending = false;
        }
    }

    /// A key in the switcher: a digit goes to that project, the arrows choose, enter goes to
    /// the chosen one, x closes it, escape leaves.
    pub fn switcher_key(&mut self, k: &Keystroke)
        requires
            old(self).wf(),
        ensures
            final(self).wf(),
            ({
                let key = k@.key;
                let o = *old(self);
                let n = o.projects@.len() as int;
                match digit_project(key, n) {
                    Some(d) => *final(self) == (Workspace {
                        switcher_open: false,
                        active: d as usize,
                        focus_pending: true,
                        ..o
                    }),
                    None => if key == "x"@ || key == "delete"@ || key == "backspace"@ {
                        let closed = n > 1;
                        &&& final(self).projects@ == if closed {
                            o.projects@.remove(o.switcher_sel as int)
                        } else {
                            o.projects@
                        }
                        &&& final(self).active == if closed {
                            active_after_remove(o.active as int, o.switcher_sel as int, n)
                        } else {
                            o.active as int
                        }
                        &&& final(self).switcher_sel == if closed {
                            least(o.switcher_sel as int, n - 2)
                        } else {
                            o.switcher_sel as int
                        }
                        &&& final(self).switcher_open == (o.switcher_open && n > 2)
                        &&& final(self).focus_pending == (n <= 2)
                    } else if key == "escape"@ {
                        *final(self) == (Workspace { switcher_open: false, focus_pending: true, ..o })
                    } else if key == "down"@ || key == "right"@ {
                        *final(self) == (Workspace {
                            switcher_sel: down_step(o.switcher_sel as int, n) as usize,
                            ..o
                        })
                    } else if key == "up"@ || key == "left"@ {
                        *final(self) == (Workspace {
                            switcher_sel: if o.switcher_sel > 0 {
                                (o.switcher_sel - 1) as usize
                            } else {
                                0
                            },
                            ..o
                        })
                    } else if key == "enter"@ {
                        *final(self) == if o.switcher_sel < n {
                            Workspace {
                                switcher_open: false,
                                active: o.switcher_sel,
                                focus_pending: true,
                                ..o
                            }
                        } else {
                            Workspace { switcher_open: false, ..o }
                        }
                    } else {
                        *final(self) == o
                    },
                }
            }),
    {
        let n: usize = self.projects.len();
        if let Some(d) = parse_usize(k.key.as_str()) {
            if d >= 1 && d <= n {
                self.switcher_open = false;
                self.switch_to(d - 1);
                return;
            }
        }
        if k.is("x") || k.is("delete") || k.is("backspace") {
            self.close_in_switcher(self.switcher_sel);
            return;
        }
        if k.is("escape") {
            self.switcher_open = false;
            self.focus_pending = true;
            return;
        }
        if k.is("down") || k.is("right") {
            self.switcher_sel = step_down(self.switcher_sel, n);
            return;
        }
        if k.is("up") || k.is("left") {
            self.switcher_sel = step_up(self.switcher_sel);
            return;
        }
        if k.is("enter") {
            self.switcher_open = false;
            self.switch_to(self.switcher_sel);
        }
    }

    /// A request of a project view.
    pub fn navigate(&mut self, nav: ProjectNav) -> (r: NavAction)
        requires
            old(self).wf(),
        ensures
            final(self).wf(),
            match nav {
                ProjectNav::Switch(i) => {
                    &&& r is Done
                    &&& *final(self) == if i < old(self).projects@.len() {
                        Workspace { active: i, focus_pending: true, ..*old(self) }
                    } else {
                        *old(self)
                    }
                },
                ProjectNav::Open => r is PickFolder && *final(self) == *old(self),
                ProjectNav::OpenPath(p) => {
                    r is OpenPath && r->OpenPath_0@ == p@ && *final(self) == *old(self)
                },
                ProjectNav::Remove(i) => {
                    &&& r is Done
                    &&& if i >= old(self).projects@.len() || old(self).projects@.len() <= 1 {
                        *final(self) == *old(self)
                    } else {
                        &&& final(self).projects@ == old(self).projects@.remove(i as int)
                        &&& final(self).active == active_after_remove(
                            old(self).active as int,
                            i as int,
                            old(self).projects@.len() as int,
                        )
                        &&& final(self).switcher_sel == least(
                            old(self).switcher_sel as int,
                            old(self).projects@.len() - 2,
                        )
                        &&& final(self).focus_pending
                        &&& final(self).switcher_open == old(self).switcher_open
                    }
                },
            },
    {
        match nav {
            ProjectNav::Switch(i) => {
                self.switch_to(i);
                NavAction::Done
            },
            ProjectNav::Open => NavAction::PickFolder,
            ProjectNav::OpenPath(p) => NavAction::OpenPath(p),
            ProjectNav::Remove(i) => {
                self.remove_project(i);
                NavAction::Done
            },
        }
    }

    /// Whether the active project is to be given the focus when the workspace is drawn: after a
    /// switch, or where nothing, or the bare workspace, has it.
    pub fn take_focus(&mut self, nothing_focused: bool, root_focused: bool) -> (r: bool)
        ensures
            r == (old(self).focus_pending || nothing_focused || root_focused),
            *final(self) == (Workspace { focus_pending: false, ..*old(self) }),
    {
        if self.focus_pending {
            self.focus_pending = false;
            true
        } else {
            nothing_focused || root_focused
        }
    }
}

/// Putting a project elsewhere neither loses nor adds one.
pub proof fn reordering_keeps_the_projects(v: Seq<usize>, from: int, to: int)
    requires
        0 <= from < v.len(),
        0 <= to < v.len(),
        from != to,
    ensures
        reordered(v, from, to).len() == v.len(),
        forall|x: usize| #[trigger] reordered(v, from, to).contains(x) <==> v.contains(x),
{
    let d = moved_to(from, to);
    let w = v.remove(from);
    let r = reordered(v, from, to);
    assert forall|x: usize| #[trigger] r.contains(x) <==> v.contains(x) by {
        if r.contains(x) {
            let i = choose|i: int| 0 <= i < r.len() && r[i] == x;
            if i < d {
                assert(w[i] == x);
                assert(v[if i < from { i } else { i + 1 }] == x);
            } else if i > d {
                assert(w[i - 1] == x);
                assert(v[if i - 1 < from { i - 1 } else { i }] == x);
            } else {
                assert(v[from] == x);
            }
        }
        if v.contains(x) {
            let i = choose|i: int| 0 <= i < v.len() && v[i] == x;
            if i == from {
                assert(r[d] == x);
            } else {
                let k = if i < from {
                    i
                } else {
                    i - 1
                };
                assert(w[k] == x);
                assert(r[if k < d { k } else { k + 1 }] == x);
            }
        }
    }
}

/// Putting a project elsewhere leaves each one listed once.
pub proof fn reordering_keeps_projects_distinct(v: Seq<usize>, from: int, to: int)
    requires
        v.no_duplicates(),
        0 <= from < v.len(),
        0 <= to < v.len(),
        from != to,
    ensures
        reordered(v, from, to).no_duplicates(),
{
    let d = moved_to(from, to);
    let w = v.remove(from);
    let r = reordered(v, from, to);
    assert forall|i: int, j: int| 0 <= i < j < r.len() implies r[i] != r[j] by {
        let a = if i < d {
            i
        } else {
            i - 1
        };
        let b = if j < d {
            j
        } else {
            j - 1
        };
        if i != d && j != d {
            assert(r[i] == w[a] && r[j] == w[b]);
            assert(w[a] == v[if a < from { a } else { a + 1 }]);
            assert(w[b] == v[if b < from { b } else { b + 1 }]);
        } else if i == d {
            assert(r[j] == w[b]);
            assert(w[b] == v[if b < from { b } else { b + 1 }]);
        } else {
            assert(r[i] == w[a]);
            assert(w[a] == v[if a < from { a } else { a + 1 }]);
        }
    }
}

/// The project that was moved stands right before the one it was dropped on.
pub proof fn moved_project_stands_before_its_target(v: Seq<usize>, from: int, to: int)
    requires
        0 <= from < v.len(),
        0 <= to < v.len(),
        from != to,
    ensures
        reordered(v, from, to)[moved_to(from, to)] == v[from],
        reordered(v, from, to)[moved_to(from, to) + 1] == v[to],
{
}

/// Closing a project leaves another active project active.
pub proof fn closing_another_project_keeps_the_active_one(v: Seq<usize>, active: int, idx: int)
    requires
        v.len() > 1,
        0 <= active < v.len(),
        0 <= idx < v.len(),
        idx != active,
    ensures
        v.remove(idx)[active_after_remove(active, idx, v.len() as int)] == v[active],
{
}

/// Going on and back again ends where it began.
pub proof fn next_and_previous_cancel(active: int, n: int)
    requires
        0 <= active < n,
        n > 1,
    ensures
        ((active + 1) % n + n - 1) % n == active,
        ((active + n - 1) % n + 1) % n == active,
{
    if active + 1 < n {
        vstd::arithmetic::div_mod::lemma_small_mod((active + 1) as nat, n as nat);
        vstd::arithmetic::div_mod::lemma_mod_add_multiples_vanish(active, n);
        vstd::arithmetic::div_mod::lemma_small_mod(active as nat, n as nat);
    } else {
        vstd::arithmetic::div_mod::lemma_mod_self_0(n);
        vstd::arithmetic::div_mod::lemma_small_mod((n - 1) as nat, n as nat);
    }
    if active > 0 {
        vstd::arithmetic::div_mod::lemma_mod_add_multiples_vanish(active - 1, n);
        vstd::arithmetic::div_mod::lemma_small_mod((active - 1) as nat, n as nat);
        vstd::arithmetic::div_mod::lemma_small_mod(active as nat, n as nat);
    } else {
        vstd::arithmetic::div_mod::lemma_small_mod((n - 1) as nat, n as nat);
        vstd::arithmetic::div_mod::lemma_mod_self_0(n);
    }
}

/// The digit that is pressed names the project at that place, counted from 1; a number beyond the
/// projects names none.
pub proof fn digits_name_projects(d: nat, n: int)
    requires
        n <= usize::MAX,
    ensures
        1 <= d <= n ==> digit_project(dec(d), n) == Some(d - 1),
        d == 0 || d > n ==> digit_project(dec(d), n) is None,
{
    reading_undoes_writing(d);
}

/// A project is found at its place.
pub proof fn a_project_has_its_place(v: Seq<usize>, i: int)
    requires
        v.no_duplicates(),
        0 <= i < v.len(),
    ensures
        place_of(v, v[i]) == i,
    decreases i,
{
    if i > 0 {
        let w = v.drop_first();
        assert(v[0] != v[i]);
        assert(w[i - 1] == v[i]);
        assert(w.no_duplicates()) by {
            assert forall|a: int, b: int| 0 <= a < w.len() && 0 <= b < w.len() && a != b implies w[a] != w[b] by {
                assert(w[a] == v[a + 1] && w[b] == v[b + 1]);
            }
        }
        a_project_has_its_place(w, i - 1);
    }
}

} // verus!
