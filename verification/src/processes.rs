//! The process manager: the list of running processes, its scope and its selection.
use vstd::prelude::*;
use crate::diff::{least, lesser};
use crate::finder::last_piece;
use crate::keys::{KeyView, Keystroke};
use crate::order::{Ranked, can_sort, lemma_sorted_map, sort, sorted, sorted_by, sorting_by_keeps_members, sorting_by_orders};
use crate::path::sub_strings;
use crate::text::{cat, cat3, contains, dec, decimal, digit_char, digits_count_in_tens, filter_map, is_space, join, joined, lemma_filter_map_ends, lemma_filter_map_step, lemma_pieces_nonempty, line_seq, lines, lower, number_to, occurs, parse_number, reading_undoes_writing, split, texts, words, words_of, words_undo_joining};
use crate::theme::{MUTED, SEL_TEXT, TEXT};

verus! {

/// A running process.
#[derive(Debug)]
pub struct Proc {
    pub pid: u32,
    pub ppid: u32,
    pub name: String,
    pub comm: String,
    pub rss_kb: u64,
    pub user: String,
}

/// What is known of a process.
pub ghost struct ProcView {
    pub pid: u32,
    pub ppid: u32,
    pub name: Seq<char>,
    pub comm: Seq<char>,
    pub rss_kb: u64,
    pub user: Seq<char>,
}

impl View for Proc {
    type V = ProcView;

    open spec fn view(&self) -> ProcView {
        ProcView {
            pid: self.pid,
            ppid: self.ppid,
            name: self.name@,
            comm: self.comm@,
            rss_kb: self.rss_kb,
            user: self.user@,
        }
    }
}

/// What is known of a list of processes.
pub open spec fn proc_views(v: Seq<Proc>) -> Seq<ProcView> {
    Seq::new(v.len(), |i: int| v[i]@)
}

proof fn lemma_proc_views_push(v: Seq<Proc>, p: Proc)
    ensures
        proc_views(v.push(p)) == proc_views(v).push(p@),
{
    assert(proc_views(v.push(p)) =~= proc_views(v).push(p@));
}

impl Proc {
    /// A copy of the entry.
    pub fn copy(&self) -> (r: Proc)
        ensures
            r@ == self@,
    {
        Proc {
            pid: self.pid,
            ppid: self.ppid,
            name: self.name.clone(),
            comm: self.comm.clone(),
            rss_kb: self.rss_kb,
            user: self.user.clone(),
        }
    }
}

impl Ranked for Proc {
    open spec fn before(&self, other: &Self) -> bool {
        self.rss_kb > other.rss_kb
    }

    fn comes_before(&self, other: &Self) -> (r: bool) {
        self.rss_kb > other.rss_kb
    }

    proof fn order_is_strict(a: &Self, b: &Self) {
    }

    proof fn order_is_weak(a: &Self, b: &Self, c: &Self) {
    }
}

/// One line of `ps`: process, parent, memory, user and command. A line without a command,
/// or whose numbers cannot be read, is none.
pub open spec fn ps_line(l: Seq<char>) -> Option<ProcView> {
    let w = words_of(l);
    if w.len() < 5 {
        None
    } else {
        let comm = joined(w.skip(4), seq![' ']);
        match (number_to(w[0], u32::MAX as nat), number_to(w[1], u32::MAX as nat), number_to(
            w[2],
            u64::MAX as nat,
        )) {
            (Some(pid), Some(ppid), Some(rss)) => Some(
                ProcView {
                    pid: pid as u32,
                    ppid: ppid as u32,
                    name: last_piece(comm),
                    comm,
                    rss_kb: rss as u64,
                    user: w[3],
                },
            ),
            _ => None,
        }
    }
}

/// The processes of the output of `ps`, the largest first.
pub open spec fn ps_list(s: Seq<char>) -> Seq<ProcView> {
    sorted_by(
        filter_map(line_seq(s), |l: Seq<char>| ps_line(l)),
        |a: ProcView, b: ProcView| a.rss_kb > b.rss_kb,
    )
}

fn parse_ps_line(l: &str) -> (r: Option<Proc>)
    ensures
        match r {
            Some(p) => ps_line(l@) == Some(p@),
            None => ps_line(l@) is None,
        },
{
    let w = words(l);
    assert(texts(w@).len() == w.len());
    if w.len() < 5 {
        return None;
    }
    let tail = sub_strings(&w, 4, w.len());
    proof {
        assert(texts(tail@) =~= words_of(l@).skip(4));
        reveal_strlit(" ");
        assert(" "@ =~= seq![' ']);
        assert(texts(w@)[0] == w@[0]@);
        assert(texts(w@)[1] == w@[1]@);
        assert(texts(w@)[2] == w@[2]@);
        assert(texts(w@)[3] == w@[3]@);
    }
    let comm = join(&tail, " ");
    let pid = match parse_number(w[0].as_str(), u32::MAX as u64) {
        Some(n) => n as u32,
        None => {
            return None;
        },
    };
    let ppid = match parse_number(w[1].as_str(), u32::MAX as u64) {
        Some(n) => n as u32,
        None => {
            return None;
        },
    };
    let rss_kb = match parse_number(w[2].as_str(), u64::MAX) {
        Some(n) => n,
        None => {
            return None;
        },
    };
    let p = split(comm.as_str(), '/');
    proof {
        lemma_pieces_nonempty(comm@, '/');
        assert(texts(p@).last() == p@[p@.len() - 1]@);
    }
    let name = p[p.len() - 1].clone();
    Some(Proc { pid, ppid, name, comm, rss_kb, user: w[3].clone() })
}

/// Reads the output of `ps`, the process with the most memory first.
pub fn parse_ps(s: &str) -> (r: Vec<Proc>)
    ensures
        proc_views(r@) == ps_list(s@),
{
    let ls = lines(s);
    let ghost all = texts(ls@);
    let ghost f = |l: Seq<char>| ps_line(l);
    let mut out: Vec<Proc> = Vec::new();
    let mut i: usize = 0;
    proof {
        lemma_filter_map_ends(all, f);
        assert(proc_views(out@) =~= Seq::<ProcView>::empty());
    }
    while i < ls.len()
        invariant
            i <= ls.len(),
            all == texts(ls@),
            f == (|l: Seq<char>| ps_line(l)),
            proc_views(out@) == filter_map(all.take(i as int), f),
        decreases ls.len() - i,
    {
        proof {
            lemma_filter_map_step(all, f, i as int);
        }
        match parse_ps_line(ls[i].as_str()) {
            Some(p) => {
                proof {
                    lemma_proc_views_push(out@, p);
                }
                out.push(p);
            },
            None => {},
        }
        i = i + 1;
    }
    proof {
        let g = |p: Proc| p@;
        let less = |a: ProcView, b: ProcView| a.rss_kb > b.rss_kb;
        assert forall|a: Proc, b: Proc| #[trigger] a.before(&b) == less(g(a), g(b)) by {
        }
        lemma_sorted_map(out@, g, less);
        assert(proc_views(out@) =~= out@.map_values(g));
        assert(proc_views(sorted(out@)) =~= sorted(out@).map_values(g));
    }
    sort(out)
}

// ── descendants ─────────────────────────────────────────────────────────────

/// Whether `child` is a process whose parent is `parent`.
pub open spec fn is_child(v: Seq<ProcView>, parent: u32, child: u32) -> bool {
    exists|k: int| 0 <= k < v.len() && (#[trigger] v[k]).pid == child && v[k].ppid == parent
}

/// Whether each process of the line of descent is a child of the one before it.
pub open spec fn is_descent(v: Seq<ProcView>, path: Seq<u32>) -> bool {
    forall|i: int| 0 <= i < path.len() - 1 ==> is_child(v, #[trigger] path[i], path[i + 1])
}

/// Whether `pid` is one of `roots` or descends from one.
pub open spec fn descends(v: Seq<ProcView>, roots: Seq<u32>, pid: u32) -> bool {
    exists|path: Seq<u32>|
        path.len() > 0 && roots.contains(path[0]) && path.last() == pid && #[trigger] is_descent(v, path)
}

/// How many of the first `n` processes are not in `set`.
spec fn missing(v: Seq<ProcView>, set: Seq<u32>, n: int) -> nat
    decreases n,
{
    if n <= 0 {
        0
    } else {
        missing(v, set, n - 1) + if set.contains(v[n - 1].pid) {
            0nat
        } else {
            1
        }
    }
}

proof fn lemma_missing_grow(v: Seq<ProcView>, set: Seq<u32>, x: u32, n: int)
    requires
        0 <= n <= v.len(),
    ensures
        missing(v, set.push(x), n) <= missing(v, set, n),
        (exists|k: int| 0 <= k < n && (#[trigger] v[k]).pid == x) && !set.contains(x) ==> missing(
            v,
            set.push(x),
            n,
        ) < missing(v, set, n),
    decreases n,
{
    if n > 0 {
        lemma_missing_grow(v, set, x, n - 1);
        let t = set.push(x);
        assert forall|y: u32| t.contains(y) <==> set.contains(y) || y == x by {
            if set.contains(y) {
                let k = choose|k: int| 0 <= k < set.len() && set[k] == y;
                assert(t[k] == y);
            }
            assert(t[set.len() as int] == x);
        }
        if exists|k: int| 0 <= k < n && (#[trigger] v[k]).pid == x {
            let k = choose|k: int| 0 <= k < n && (#[trigger] v[k]).pid == x;
            if k < n - 1 {
                assert(0 <= k < n - 1 && v[k].pid == x);
            }
        }
    }
}

fn has_pid(v: &Vec<u32>, x: u32) -> (r: bool)
    ensures
        r == v@.contains(x),
{
    let mut i: usize = 0;
    while i < v.len()
        invariant
            i <= v.len(),
            forall|j: int| 0 <= j < i ==> v@[j] != x,
        decreases v.len() - i,
    {
        if v[i] == x {
            return true;
        }
        i = i + 1;
    }
    false
}

proof fn lemma_descends_step(v: Seq<ProcView>, roots: Seq<u32>, a: u32, b: u32)
    requires
        descends(v, roots, a),
        is_child(v, a, b),
    ensures
        descends(v, roots, b),
{
    let p = choose|path: Seq<u32>|
        path.len() > 0 && roots.contains(path[0]) && path.last() == a && #[trigger] is_descent(v, path);
    let q = p.push(b);
    assert forall|i: int| 0 <= i < q.len() - 1 implies is_child(v, #[trigger] q[i], q[i + 1]) by {
        if i < p.len() - 1 {
            assert(q[i] == p[i] && q[i + 1] == p[i + 1]);
        }
    }
    assert(q[0] == p[0]);
    assert(is_descent(v, q));
}

proof fn lemma_descends_root(v: Seq<ProcView>, roots: Seq<u32>, x: u32)
    requires
        roots.contains(x),
    ensures
        descends(v, roots, x),
{
    let p = seq![x];
    assert(is_descent(v, p));
    assert(p.last() == x);
}

/// `set` holds the roots and, with each process, its children.
spec fn closed_under(v: Seq<ProcView>, roots: Seq<u32>, set: Seq<u32>) -> bool {
    &&& forall|x: u32| roots.contains(x) ==> set.contains(x)
    &&& forall|k: int| 0 <= k < v.len() && set.contains((#[trigger] v[k]).ppid) ==> set.contains(v[k].pid)
}

proof fn lemma_closed_holds_all(v: Seq<ProcView>, roots: Seq<u32>, set: Seq<u32>, path: Seq<u32>)
    requires
        closed_under(v, roots, set),
        path.len() > 0,
        roots.contains(path[0]),
        is_descent(v, path),
    ensures
        set.contains(path.last()),
    decreases path.len(),
{
    if path.len() > 1 {
        let p = path.drop_last();
        assert forall|i: int| 0 <= i < p.len() - 1 implies is_child(v, #[trigger] p[i], p[i + 1]) by {
            assert(path[i] == p[i] && path[i + 1] == p[i + 1]);
            assert(is_child(v, path[i], path[i + 1]));
        }
        lemma_closed_holds_all(v, roots, set, p);
        let n = path.len() - 2;
        assert(is_child(v, path[n], path[n + 1]));
        assert(p.last() == path[n]);
    }
}

/// The processes `roots` and all that descend from them, each once.
pub fn descendants_of(list: &Vec<Proc>, roots: &Vec<u32>) -> (r: Vec<u32>)
    ensures
        forall|x: u32| #[trigger] r@.contains(x) <==> descends(proc_views(list@), roots@, x),
        r@.no_duplicates(),
{
    let ghost v = proc_views(list@);
    let mut out: Vec<u32> = Vec::new();
    let mut i: usize = 0;
    while i < roots.len()
        invariant
            i <= roots.len(),
            v == proc_views(list@),
            out@.no_duplicates(),
            forall|x: u32| out@.contains(x) ==> roots@.contains(x),
            forall|j: int| 0 <= j < i ==> out@.contains(roots@[j]),
        decreases roots.len() - i,
    {
        let x = roots[i];
        if !has_pid(&out, x) {
            let ghost was = out@;
            out.push(x);
            proof {
                assert(out@[was.len() as int] == x);
                assert(roots@.contains(x));
                assert forall|y: u32| out@.contains(y) implies roots@.contains(y) by {
                    let k = choose|k: int| 0 <= k < out@.len() && out@[k] == y;
                    if k < was.len() {
                        assert(was[k] == y);
                        assert(was.contains(y));
                    }
                }
                assert forall|j: int| 0 <= j < i + 1 implies out@.contains(roots@[j]) by {
                    if j < i {
                        assert(was.contains(roots@[j]));
                        let k = choose|k: int| 0 <= k < was.len() && was[k] == roots@[j];
                        assert(out@[k] == roots@[j]);
                    }
                }
                assert forall|a: int, b: int| 0 <= a < b < out@.len() implies out@[a] != out@[b] by {
                    if b == was.len() {
                        assert(was[a] == out@[a]);
                        assert(was.contains(was[a]));
                    }
                }
            }
        }
        i = i + 1;
    }
    proof {
        assert forall|x: u32| roots@.contains(x) implies out@.contains(x) by {
            let k = choose|k: int| 0 <= k < roots@.len() && roots@[k] == x;
        }
        assert forall|x: u32| #[trigger] out@.contains(x) implies descends(v, roots@, x) by {
            lemma_descends_root(v, roots@, x);
        }
    }
    let mut at: usize = 0;
    while at < out.len()
        invariant
            at <= out.len(),
            v == proc_views(list@),
            out@.no_duplicates(),
            forall|x: u32| roots@.contains(x) ==> out@.contains(x),
            forall|x: u32| #[trigger] out@.contains(x) ==> descends(v, roots@, x),
            forall|j: int, k: int|
                0 <= j < at && 0 <= k < v.len() && (#[trigger] v[k]).ppid == (#[trigger] out@[j])
                    ==> out@.contains(v[k].pid),
        decreases missing(v, out@, v.len() as int), out.len() - at,
    {
        let pid = out[at];
        let mut k: usize = 0;
        let ghost before = out@;
        while k < list.len()
            invariant
                at < out.len(),
                k <= list.len(),
                v == proc_views(list@),
                pid == out@[at as int],
                before.len() <= out@.len(),
                before == out@.take(before.len() as int),
                out@.no_duplicates(),
                forall|x: u32| roots@.contains(x) ==> out@.contains(x),
                forall|x: u32| #[trigger] out@.contains(x) ==> descends(v, roots@, x),
                forall|j: int, m: int|
                    0 <= j < at && 0 <= m < v.len() && (#[trigger] v[m]).ppid == (#[trigger] out@[j])
                        ==> out@.contains(v[m].pid),
                forall|m: int| 0 <= m < k && (#[trigger] v[m]).ppid == pid ==> out@.contains(v[m].pid),
                missing(v, out@, v.len() as int) <= missing(v, before, v.len() as int),
                out@.len() > before.len() ==> missing(v, out@, v.len() as int) < missing(
                    v,
                    before,
                    v.len() as int,
                ),
            decreases list.len() - k,
        {
            let p = &list[k];
            assert(v[k as int] == p@);
            if p.ppid == pid {
                let c = p.pid;
                if !has_pid(&out, c) {
                    let ghost was = out@;
                    proof {
                        assert(was.contains(pid)) by {
                            assert(was[at as int] == pid);
                        }
                        assert(is_child(v, pid, c));
                        lemma_descends_step(v, roots@, pid, c);
                        lemma_missing_grow(v, was, c, v.len() as int);
                    }
                    out.push(c);
                    proof {
                        assert forall|y: u32| #[trigger] out@.contains(y) <==> was.contains(y) || y == c by {
                            if was.contains(y) {
                                let m = choose|m: int| 0 <= m < was.len() && was[m] == y;
                                assert(out@[m] == y);
                            }
                            assert(out@[was.len() as int] == c);
                        }
                        assert(out@.take(before.len() as int) =~= was.take(before.len() as int));
                        assert forall|a: int, b: int| 0 <= a < b < out@.len() implies out@[a] != out@[b] by {
                            if b == was.len() {
                                assert(was[a] == out@[a]);
                                assert(was.contains(was[a]));
                            }
                        }
                        assert forall|j: int, m: int|
                            0 <= j < at && 0 <= m < v.len() && (#[trigger] v[m]).ppid == (
                            #[trigger] out@[j]) implies out@.contains(v[m].pid) by {
                            assert(was[j] == out@[j]);
                            assert(was.contains(v[m].pid));
                        }
                    }
                }
            }
            k = k + 1;
        }
        at = at + 1;
    }
    proof {
        assert(closed_under(v, roots@, out@)) by {
            assert forall|k: int| 0 <= k < v.len() && out@.contains((#[trigger] v[k]).ppid) implies out@.contains(
                v[k].pid,
            ) by {
                let j = choose|j: int| 0 <= j < out@.len() && out@[j] == v[k].ppid;
                assert(v[k].ppid == out@[j]);
            }
        }
        assert forall|x: u32| descends(v, roots@, x) implies out@.contains(x) by {
            let path = choose|path: Seq<u32>|
                path.len() > 0 && roots@.contains(path[0]) && path.last() == x && #[trigger] is_descent(
                    v,
                    path,
                );
            lemma_closed_holds_all(v, roots@, out@, path);
        }
    }
    out
}

/// A child of a process in the tree is in the tree.
pub proof fn children_descend_too(v: Seq<ProcView>, roots: Seq<u32>, a: u32, b: u32)
    requires
        descends(v, roots, a),
        is_child(v, a, b),
    ensures
        descends(v, roots, b),
{
    lemma_descends_step(v, roots, a, b);
}

// ── the dialog ──────────────────────────────────────────────────────────────

/// The state of the process manager.
#[derive(Debug)]
pub struct ProcessManager {
    pub open: bool,
    pub list: Vec<Proc>,
    pub own: u32,
    pub workspace_pids: Vec<u32>,
    pub workspace_only: bool,
    pub only_tide: bool,
    pub selected: Vec<u32>,
    pub anchor: Option<usize>,
}

/// Whether a process is in scope: the descendants of this workspace's terminals, else
/// those of the editor, else all.
pub open spec fn in_scope(m: ProcessManager, pid: u32) -> bool {
    if m.workspace_only {
        descends(proc_views(m.list@), m.workspace_pids@, pid)
    } else if m.only_tide {
        descends(proc_views(m.list@), seq![m.own], pid)
    } else {
        true
    }
}

/// Whether a process is listed: not the editor itself, in scope, and holding the filter in
/// its command or its user.
pub open spec fn proc_listed(m: ProcessManager, filter: Seq<char>, p: ProcView) -> bool {
    let q = lower(filter);
    p.pid != m.own && in_scope(m, p.pid) && (q.len() == 0 || occurs(lower(p.comm), q) || occurs(
        lower(p.user),
        q,
    ))
}

/// The rows of the process manager.
pub open spec fn proc_list_rows(m: ProcessManager, filter: Seq<char>) -> Seq<ProcView> {
    filter_map(
        proc_views(m.list@),
        |p: ProcView|
            if proc_listed(m, filter, p) {
                Some(p)
            } else {
                None
            },
    )
}

/// Whether the numbers in `v` are the processes of the rows `a` to `b`.
pub open spec fn holds_rows(v: Seq<u32>, rows: Seq<ProcView>, a: int, b: int) -> bool {
    forall|x: u32| #[trigger] v.contains(x) <==> exists|k: int| a <= k <= b && (#[trigger] rows[k]).pid == x
}

/// What a key does in the process manager.
#[derive(Clone, Copy, Debug, PartialEq, Eq, Structural)]
pub enum ProcKey {
    Close,
    KillSelected,
    Reload,
    Edit,
}

/// Escape closes, a command backspace kills, a command r reloads, and the rest is typed.
pub open spec fn proc_key_of(k: KeyView) -> ProcKey {
    if k.key == "escape"@ {
        ProcKey::Close
    } else if k.key == "backspace"@ && k.platform {
        ProcKey::KillSelected
    } else if k.key == "r"@ && k.platform {
        ProcKey::Reload
    } else {
        ProcKey::Edit
    }
}

/// What a key does.
pub fn proc_key(k: &Keystroke) -> (r: ProcKey)
    ensures
        r == proc_key_of(k@),
{
    if k.is("escape") {
        ProcKey::Close
    } else if k.is("backspace") && k.platform {
        ProcKey::KillSelected
    } else if k.is("r") && k.platform {
        ProcKey::Reload
    } else {
        ProcKey::Edit
    }
}

impl ProcessManager {
    /// No process is selected twice.
    pub open spec fn wf(&self) -> bool {
        self.selected@.no_duplicates()
    }

    /// A closed manager with nothing in it.
    pub fn new(own: u32) -> (r: ProcessManager)
        ensures
            r.wf(),
            !r.open,
            r.list@.len() == 0,
            r.own == own,
            r.workspace_pids@.len() == 0,
            r.workspace_only,
            r.only_tide,
            r.selected@.len() == 0,
            r.anchor is None,
    {
        ProcessManager {
            open: false,
            list: Vec::new(),
            own,
            workspace_pids: Vec::new(),
            workspace_only: true,
            only_tide: true,
            selected: Vec::new(),
            anchor: None,
        }
    }

    /// Opens the dialog on a fresh list, with nothing selected.
    pub fn show(&mut self, list: Vec<Proc>, workspace_pids: Vec<u32>)
        ensures
            *final(self) == (ProcessManager {
                open: true,
                list,
                workspace_pids,
                selected: final(self).selected,
                anchor: None,
                ..*old(self)
            }),
            final(self).selected@.len() == 0,
    {
        self.open = true;
        self.list = list;
        self.workspace_pids = workspace_pids;
        self.selected = Vec::new();
        self.anchor = None;
    }

    /// Takes a fresh list after processes were killed; nothing stays selected.
    pub fn killed(&mut self, list: Vec<Proc>, workspace_pids: Vec<u32>)
        ensures
            *final(self) == (ProcessManager {
                list,
                workspace_pids,
                selected: final(self).selected,
                anchor: None,
                ..*old(self)
            }),
            final(self).selected@.len() == 0,
    {
        self.list = list;
        self.workspace_pids = workspace_pids;
        self.selected = Vec::new();
        self.anchor = None;
    }

    /// Takes a fresh list; what is selected stays so.
    pub fn reloaded(&mut self, list: Vec<Proc>, workspace_pids: Vec<u32>)
        ensures
            *final(self) == (ProcessManager { list, workspace_pids, ..*old(self) }),
    {
        self.list = list;
        self.workspace_pids = workspace_pids;
    }

    /// The filter has changed: a range begins anew, for the rows have moved.
    pub fn filter_changed(&mut self)
        ensures
            *final(self) == (ProcessManager { anchor: None, ..*old(self) }),
    {
        self.anchor = None;
    }

    /// Closes the dialog.
    pub fn close(&mut self)
        ensures
            *final(self) == (ProcessManager { open: false, ..*old(self) }),
    {
        self.open = false;
    }

    /// Turns "this workspace" on or off.
    pub fn toggle_workspace_only(&mut self)
        ensures
            *final(self) == (ProcessManager {
                workspace_only: !old(self).workspace_only,
                anchor: None,
                ..*old(self)
            }),
    {
        self.workspace_only = !self.workspace_only;
        self.anchor = None;
    }

    /// Turns "only the editor's" on or off.
    pub fn toggle_only_tide(&mut self)
        ensures
            *final(self) == (ProcessManager {
                only_tide: !old(self).only_tide,
                anchor: None,
                ..*old(self)
            }),
    {
        self.only_tide = !self.only_tide;
        self.anchor = None;
    }

    /// The rows that are shown, in the order of the list.
    pub fn rows(&self, filter: &str) -> (r: Vec<Proc>)
        ensures
            proc_views(r@) == proc_list_rows(*self, filter@),
    {
        let q = filter.to_lowercase();
        let mut own_only: Vec<u32> = Vec::new();
        own_only.push(self.own);
        assert(own_only@ =~= seq![self.own]);
        let scoped = self.workspace_only || self.only_tide;
        let scope = if self.workspace_only {
            descendants_of(&self.list, &self.workspace_pids)
        } else if self.only_tide {
            descendants_of(&self.list, &own_only)
        } else {
            Vec::new()
        };
        let ghost all = proc_views(self.list@);
        let ghost f = |p: ProcView|
            if proc_listed(*self, filter@, p) {
                Some(p)
            } else {
                None
            };
        let mut out: Vec<Proc> = Vec::new();
        let mut i: usize = 0;
        proof {
            lemma_filter_map_ends(all, f);
            assert(proc_views(out@) =~= Seq::<ProcView>::empty());
        }
        while i < self.list.len()
            invariant
                i <= self.list.len(),
                all == proc_views(self.list@),
                q@ == lower(filter@),
                scoped == (self.workspace_only || self.only_tide),
                scoped ==> forall|x: u32| #[trigger] scope@.contains(x) <==> in_scope(*self, x),
                f == (|p: ProcView|
                    if proc_listed(*self, filter@, p) {
                        Some(p)
                    } else {
                        None
                    }),
                proc_views(out@) == filter_map(all.take(i as int), f),
            decreases self.list.len() - i,
        {
            let p = &self.list[i];
            proof {
                lemma_filter_map_step(all, f, i as int);
                assert(all[i as int] == p@);
            }
            if p.pid != self.own && (!scoped || has_pid(&scope, p.pid)) {
                let hit = q.as_str().is_empty() || contains(
                    p.comm.as_str().to_lowercase().as_str(),
                    q.as_str(),
                ) || contains(p.user.as_str().to_lowercase().as_str(), q.as_str());
                if hit {
                    let c = p.copy();
                    proof {
                        lemma_proc_views_push(out@, c);
                    }
                    out.push(c);
                }
            }
            i = i + 1;
        }
        out
    }

    /// A click on row `ix`: alone it selects that row only, with the command key it turns
    /// that row's selection round, with shift it selects from the anchor to that row.
    pub fn select(&mut self, filter: &str, ix: usize, shift: bool, cmd: bool)
        requires
            old(self).wf(),
        ensures
            final(self).wf(),
            ({
                let rows = proc_list_rows(*old(self), filter@);
                let n = rows.len() as int;
                let s0 = old(self).selected@;
                let s1 = final(self).selected@;
                let from = match old(self).anchor {
                    Some(a) => a as int,
                    None => ix as int,
                };
                &&& *final(self) == (ProcessManager {
                    selected: final(self).selected,
                    anchor: if ix < n && !shift {
                        Some(ix)
                    } else {
                        old(self).anchor
                    },
                    ..*old(self)
                })
                &&& ix >= n ==> s1 == s0
                &&& ix < n && shift ==> holds_rows(
                    s1,
                    rows,
                    least(from, ix as int),
                    least(if from > ix { from } else { ix as int }, n - 1),
                )
                &&& ix < n && !shift && cmd ==> forall|x: u32| #[trigger] s1.contains(x) <==> (if x == rows[ix as int].pid {
                    !s0.contains(x)
                } else {
                    s0.contains(x)
                })
                &&& ix < n && !shift && !cmd ==> s1 == seq![rows[ix as int].pid]
            }),
    {
        let rows = self.rows(filter);
        let ghost rv = proc_views(rows@);
        assert(rv.len() == rows.len());
        if ix >= rows.len() {
            return;
        }
        let pid = rows[ix].pid;
        assert(rv[ix as int].pid == pid);
        if shift {
            let from: usize = match self.anchor {
                Some(a) => a,
                None => ix,
            };
            let lo: usize = lesser(from, ix);
            let hi: usize = lesser(
                if from > ix {
                    from
                } else {
                    ix
                },
                rows.len() - 1,
            );
            let mut out: Vec<u32> = Vec::new();
            let mut k: usize = lo;
            while k <= hi
                invariant
                    lo <= k <= hi + 1,
                    hi < rows.len(),
                    rv == proc_views(rows@),
                    out@.no_duplicates(),
                    holds_rows(out@, rv, lo as int, k - 1),
                decreases hi + 1 - k,
            {
                let x = rows[k].pid;
                assert(rv[k as int].pid == x);
                let ghost was = out@;
                if !has_pid(&out, x) {
                    out.push(x);
                    assert(out@[was.len() as int] == x);
                }
                proof {
                    assert(out@.contains(x));
                    assert forall|y: u32| #[trigger] out@.contains(y) <==> exists|j: int|
                        lo <= j <= k && (#[trigger] rv[j]).pid == y by {
                        if was.contains(y) {
                            let m = choose|m: int| 0 <= m < was.len() && was[m] == y;
                            assert(out@[m] == y);
                            let j = choose|j: int| lo <= j <= k - 1 && (#[trigger] rv[j]).pid == y;
                            assert(lo <= j <= k && rv[j].pid == y);
                        }
                        if y == x {
                            assert(lo <= k <= k && rv[k as int].pid == y);
                        }
                        if exists|j: int| lo <= j <= k && (#[trigger] rv[j]).pid == y {
                            let j = choose|j: int| lo <= j <= k && (#[trigger] rv[j]).pid == y;
                            if j < k {
                                assert(lo <= j <= k - 1 && rv[j].pid == y);
                                assert(was.contains(y));
                            }
                        }
                        if out@.contains(y) && y != x {
                            let m = choose|m: int| 0 <= m < out@.len() && out@[m] == y;
                            assert(m < was.len());
                            assert(was[m] == y);
                            assert(was.contains(y));
                        }
                    }
                }
                k = k + 1;
            }
            self.selected = out;
        } else if cmd {
            let ghost s0 = self.selected@;
            if has_pid(&self.selected, pid) {
                let mut out: Vec<u32> = Vec::new();
                let mut k: usize = 0;
                while k < self.selected.len()
                    invariant
                        k <= self.selected.len(),
                        self.selected@ == s0,
                        s0.no_duplicates(),
                        out@.no_duplicates(),
                        forall|y: u32| #[trigger] out@.contains(y) <==> (y != pid && s0.take(
                            k as int,
                        ).contains(y)),
                        *self == *old(self),
                    decreases self.selected.len() - k,
                {
                    let x = self.selected[k];
                    let ghost was = out@;
                    let ghost a = s0.take(k as int);
                    let ghost b = s0.take(k + 1);
                    if x != pid {
                        assert(!was.contains(x)) by {
                            if a.contains(x) {
                                let m = choose|m: int| 0 <= m < a.len() && a[m] == x;
                                assert(s0[m] == s0[k as int]);
                            }
                        }
                        out.push(x);
                    }
                    proof {
                        assert(b =~= a.push(x));
                        assert forall|y: u32| b.contains(y) <==> a.contains(y) || y == x by {
                            if a.contains(y) {
                                let m = choose|m: int| 0 <= m < a.len() && a[m] == y;
                                assert(b[m] == y);
                            }
                            assert(b[k as int] == x);
                        }
                        assert forall|y: u32| #[trigger] out@.contains(y) <==> (y != pid && b.contains(
                            y,
                        )) by {
                            if x != pid {
                                if was.contains(y) {
                                    let m = choose|m: int| 0 <= m < was.len() && was[m] == y;
                                    assert(out@[m] == y);
                                }
                                assert(out@[was.len() as int] == x);
                                if out@.contains(y) && y != x {
                                    let m = choose|m: int| 0 <= m < out@.len() && out@[m] == y;
                                    assert(was[m] == y);
                                    assert(was.contains(y));
                                }
                            }
                        }
                    }
                    k = k + 1;
                }
                assert(s0.take(s0.len() as int) =~= s0);
                self.selected = out;
            } else {
                self.selected.push(pid);
                proof {
                    let s1 = self.selected@;
                    assert forall|y: u32| #[trigger] s1.contains(y) <==> s0.contains(y) || y == pid by {
                        if s0.contains(y) {
                            let m = choose|m: int| 0 <= m < s0.len() && s0[m] == y;
                            assert(s1[m] == y);
                        }
                        assert(s1[s0.len() as int] == pid);
                    }
                }
            }
            self.anchor = Some(ix);
        } else {
            let mut out: Vec<u32> = Vec::new();
            out.push(pid);
            assert(out@ =~= seq![pid]);
            self.selected = out;
            self.anchor = Some(ix);
        }
    }
}

/// What the header says: how many are selected, if any, and how many are shown.
pub open spec fn count_text(selected: nat, total: nat) -> Seq<char> {
    if selected > 0 {
        dec(selected) + " selected · "@ + (dec(total) + " processes"@)
    } else {
        dec(total) + " processes"@
    }
}

/// What the header says.
pub fn process_count_label(selected: usize, total: usize) -> (r: String)
    ensures
        r@ == count_text(selected as nat, total as nat),
{
    let t = decimal(total as u64);
    let p = cat(t.as_str(), " processes");
    if selected > 0 {
        let s = decimal(selected as u64);
        cat3(s.as_str(), " selected · ", p.as_str())
    } else {
        p
    }
}

/// What the button that kills the selected processes says.
pub open spec fn kill_text(selected: nat) -> Seq<char> {
    if selected > 0 {
        "Kill ("@ + dec(selected) + ")"@
    } else {
        "Kill"@
    }
}

/// What the button that kills the selected processes says.
pub fn kill_label(selected: usize) -> (r: String)
    ensures
        r@ == kill_text(selected as nat),
{
    if selected > 0 {
        let s = decimal(selected as u64);
        cat3("Kill (", s.as_str(), ")")
    } else {
        "Kill".to_owned()
    }
}

/// What the button that kills all shown processes says.
pub fn kill_all_label(total: usize) -> (r: String)
    ensures
        r@ == "Kill All ("@ + dec(total as nat) + ")"@,
{
    let s = decimal(total as u64);
    cat3("Kill All (", s.as_str(), ")")
}

// ── sizes ───────────────────────────────────────────────────────────────────

/// `n / d` rounded to the nearest whole number, a half to the even one.
pub open spec fn rounded(n: int, d: int) -> int {
    let q = n / d;
    let r = n % d;
    if 2 * r > d || (2 * r == d && q % 2 == 1) {
        q + 1
    } else {
        q
    }
}

/// The smallest power of two, from `unit` up, of which 53 binary digits of `n` count whole
/// multiples.
pub open spec fn float_unit(n: int, unit: int) -> int
    decreases n - unit,
    when unit > 0
{
    if n < 2 * unit || n / unit < 0x20_0000_0000_0000 {
        unit
    } else {
        float_unit(n, 2 * unit)
    }
}

/// A whole number as a 64-bit float holds it.
pub open spec fn as_float(n: int) -> int {
    let u = float_unit(n, 1);
    rounded(n, u) * u
}

/// `n` hundredths as a decimal number.
pub open spec fn hundredths(n: nat) -> Seq<char> {
    dec(n / 100) + "."@ + seq![digit_char(n / 10 % 10), digit_char(n % 10)]
}

/// `n` tenths as a decimal number.
pub open spec fn tenths(n: nat) -> Seq<char> {
    dec(n / 10) + "."@ + dec(n % 10)
}

/// A size in kilobytes for reading: in megabytes with one decimal, from one gigabyte on in
/// gigabytes with two.
pub open spec fn size_text(kb: int) -> Seq<char> {
    let v = as_float(kb);
    if v >= 0x10_0000 {
        hundredths(rounded(v * 100, 0x10_0000) as nat) + " GB"@
    } else {
        tenths(rounded(v * 10, 1024) as nat) + " MB"@
    }
}

fn round_div(n: u128, d: u128) -> (r: u128)
    requires
        0 < d <= 0x1_0000_0000,
        n < 0x1000_0000_0000_0000_0000_0000,
    ensures
        r == rounded(n as int, d as int),
{
    let q: u128 = n / d;
    let m: u128 = n % d;
    if 2 * m > d || (2 * m == d && q % 2 == 1) {
        q + 1
    } else {
        q
    }
}

fn round_to_float(n: u64) -> (r: u128)
    ensures
        r == as_float(n as int),
        r <= 0x1_0000_0000_0000_0800,
{
    let mut u: u128 = 1;
    while n as u128 / u >= 0x20_0000_0000_0000
        invariant
            u == 1 || u == 2 || u == 4 || u == 8 || u == 16 || u == 32 || u == 64 || u == 128 || u
                == 256 || u == 512 || u == 1024 || u == 2048,
            float_unit(n as int, 1) == float_unit(n as int, u as int),
        decreases 2048 - u,
    {
        assert(u != 2048) by {
            assert(n as int / 2048 < 0x20_0000_0000_0000);
        }
        u = 2 * u;
    }
    let q: u128 = round_div(n as u128, u);
    proof {
        assert(float_unit(n as int, u as int) == u);
        let a = n as int;
        let d = u as int;
        assert(q <= a / d + 1);
        assert(q * d <= a + d && 0 <= q * d) by (nonlinear_arith)
            requires
                0 <= q <= a / d + 1,
                d > 0,
                a >= 0,
        ;
    }
    q * u
}

/// A size in kilobytes for reading.
pub fn fmt_mem(kb: u64) -> (r: String)
    ensures
        r@ == size_text(kb as int),
{
    let v: u128 = round_to_float(kb);
    if v >= 0x10_0000 {
        let h: u128 = round_div(v * 100, 0x10_0000);
        let whole = decimal((h / 100) as u64);
        let a = decimal((h / 10 % 10) as u64);
        let b = decimal((h % 10) as u64);
        let t = cat(a.as_str(), b.as_str());
        let n = cat3(whole.as_str(), ".", t.as_str());
        proof {
            lemma_one_digit((h / 10 % 10) as nat);
            lemma_one_digit((h % 10) as nat);
            assert(t@ =~= seq![digit_char((h / 10 % 10) as nat), digit_char((h % 10) as nat)]);
        }
        cat(n.as_str(), " GB")
    } else {
        let h: u128 = round_div(v * 10, 1024);
        let whole = decimal((h / 10) as u64);
        let a = decimal((h % 10) as u64);
        let n = cat3(whole.as_str(), ".", a.as_str());
        cat(n.as_str(), " MB")
    }
}

proof fn lemma_one_digit(d: nat)
    requires
        d < 10,
    ensures
        dec(d) == seq![digit_char(d)],
{
    assert(dec(d) =~= seq![digit_char(d)]);
}

// ── the dialog as it is drawn ───────────────────────────────────────────────

/// At most so many processes are drawn.
pub const PROC_ROWS: usize = 800;

/// One process as it is drawn.
#[derive(Debug)]
pub struct ProcRow {
    pub name: String,
    pub memory: String,
    pub pid: String,
    pub user: String,
    pub selected: bool,
    pub name_color: u32,
    pub other_color: u32,
}

/// The dialog as it is drawn.
#[derive(Debug)]
pub struct ProcDialog {
    pub rows: Vec<ProcRow>,
    pub count: String,
    /// The switch to this workspace is on.
    pub workspace_on: bool,
    /// The switch to the editor's own processes is on, and not overruled.
    pub tide_on: bool,
    pub kill: String,
    pub can_kill: bool,
    pub kill_all: String,
    pub can_kill_all: bool,
}

/// Whether a row shows a process.
pub open spec fn shows_proc(p: ProcView, selected: bool, r: ProcRow) -> bool {
    &&& r.name@ == p.name
    &&& r.memory@ == size_text(p.rss_kb as int)
    &&& r.pid@ == dec(p.pid as nat)
    &&& r.user@ == p.user
    &&& r.selected == selected
    &&& r.name_color == if selected {
        SEL_TEXT
    } else {
        TEXT
    }
    &&& r.other_color == if selected {
        SEL_TEXT
    } else {
        MUTED
    }
}

fn proc_row(p: &Proc, selected: bool) -> (r: ProcRow)
    ensures
        shows_proc(p@, selected, r),
{
    ProcRow {
        name: p.name.clone(),
        memory: fmt_mem(p.rss_kb),
        pid: decimal(p.pid as u64),
        user: p.user.clone(),
        selected,
        name_color: if selected {
            SEL_TEXT
        } else {
            TEXT
        },
        other_color: if selected {
            SEL_TEXT
        } else {
            MUTED
        },
    }
}

impl ProcessManager {
    /// The dialog as it is drawn: the first of the listed processes, how many there are, and what
    /// can be killed.
    pub fn dialog(&self, filter: &str) -> (r: ProcDialog)
        requires
            self.wf(),
        ensures
            ({
                let v = proc_list_rows(*self, filter@);
                let n = self.selected@.to_set().len();
                &&& r.rows@.len() == if v.len() < PROC_ROWS {
                    v.len()
                } else {
                    PROC_ROWS as nat
                }
                &&& forall|i: int|
                    0 <= i < r.rows@.len() ==> shows_proc(
                        v[i],
                        self.selected@.contains(v[i].pid),
                        #[trigger] r.rows@[i],
                    )
                &&& r.count@ == count_text(n, v.len())
                &&& r.workspace_on == self.workspace_only
                &&& r.tide_on == (self.only_tide && !self.workspace_only)
                &&& r.kill@ == kill_text(n)
                &&& r.can_kill == (n > 0)
                &&& r.kill_all@ == "Kill All ("@ + dec(v.len()) + ")"@
                &&& r.can_kill_all == (v.len() > 0)
            }),
    {
        let v = self.rows(filter);
        let ghost pv = proc_list_rows(*self, filter@);
        let mut rows: Vec<ProcRow> = Vec::new();
        let mut i: usize = 0;
        assert(proc_views(v@).len() == v.len());
        while i < v.len() && i < PROC_ROWS
            invariant
                i <= v.len(),
                i <= PROC_ROWS,
                proc_views(v@) == pv,
                rows.len() == i,
                forall|j: int|
                    0 <= j < i ==> shows_proc(
                        pv[j],
                        self.selected@.contains(pv[j].pid),
                        #[trigger] rows@[j],
                    ),
            decreases v.len() - i,
        {
            assert(pv[i as int] == v@[i as int]@);
            rows.push(proc_row(&v[i], has_pid(&self.selected, v[i].pid)));
            i = i + 1;
        }
        let n: usize = self.selected.len();
        proof {
            self.selected@.unique_seq_to_set();
        }
        ProcDialog {
            rows,
            count: process_count_label(n, v.len()),
            workspace_on: self.workspace_only,
            tide_on: self.only_tide && !self.workspace_only,
            kill: kill_label(n),
            can_kill: n > 0,
            kill_all: kill_all_label(v.len()),
            can_kill_all: v.len() > 0,
        }
    }
}

// ── what the process list shows ─────────────────────────────────────────────

/// A line of `ps` is read by its columns: process, parent, memory, user, and the command, which may
/// have blanks; the name is what stands behind the last slash of the command.
pub proof fn process_lines_are_read(pid: u32, ppid: u32, rss: u64, user: Seq<char>, cmd: Seq<Seq<char>>)
    requires
        user.len() > 0 && forall|k: int| 0 <= k < user.len() ==> !is_space(#[trigger] user[k]),
        cmd.len() > 0,
        forall|i: int|
            0 <= i < cmd.len() ==> (#[trigger] cmd[i]).len() > 0 && forall|k: int| 0 <= k < cmd[i].len() ==> !is_space(#[trigger] cmd[i][k]),
    ensures
        ps_line(joined(seq![dec(pid as nat), dec(ppid as nat), dec(rss as nat), user] + cmd, seq![' '])) == Some(
            ProcView {
                pid,
                ppid,
                name: last_piece(joined(cmd, seq![' '])),
                comm: joined(cmd, seq![' ']),
                rss_kb: rss,
                user,
            },
        ),
{
    let h = seq![dec(pid as nat), dec(ppid as nat), dec(rss as nat), user];
    let v = h + cmd;
    reading_undoes_writing(pid as nat);
    reading_undoes_writing(ppid as nat);
    reading_undoes_writing(rss as nat);
    lemma_dec_word(pid as nat);
    lemma_dec_word(ppid as nat);
    lemma_dec_word(rss as nat);
    assert forall|i: int| 0 <= i < v.len() implies (#[trigger] v[i]).len() > 0 && forall|k: int| 0 <= k < v[i].len() ==> !is_space(#[trigger] v[i][k]) by {
        if i < 4 {
            assert(v[i] == h[i]);
        } else {
            assert(v[i] == cmd[i - 4]);
        }
    }
    words_undo_joining(v);
    assert(v.skip(4) =~= cmd);
    assert(v[0] == h[0] && v[1] == h[1] && v[2] == h[2] && v[3] == h[3]);
}

proof fn lemma_dec_word(n: nat)
    ensures
        dec(n).len() > 0,
        forall|k: int| 0 <= k < dec(n).len() ==> !is_space(#[trigger] dec(n)[k]),
    decreases n,
{
    digits_count_in_tens(n / 10, n % 10);
    if n >= 10 {
        lemma_dec_word(n / 10);
        assert forall|k: int| 0 <= k < dec(n).len() implies !is_space(#[trigger] dec(n)[k]) by {
            if k < dec(n).len() - 1 {
                assert(dec(n)[k] == dec(n / 10)[k]);
            }
        }
    }
}

/// The list holds every process that a line names, and no other, the largest first.
pub proof fn processes_stand_by_their_memory(s: Seq<char>, p: ProcView)
    ensures
        ps_list(s).contains(p) <==> exists|n: int| 0 <= n < line_seq(s).len() && ps_line(#[trigger] line_seq(s)[n]) == Some(p),
        forall|i: int, j: int| #![trigger ps_list(s)[i], ps_list(s)[j]] 0 <= i < j < ps_list(s).len() ==> ps_list(s)[i].rss_kb >= ps_list(s)[j].rss_kb,
{
    let f = |l: Seq<char>| ps_line(l);
    let less = |a: ProcView, b: ProcView| a.rss_kb > b.rss_kb;
    let v = filter_map(line_seq(s), f);
    lemma_read_lines(line_seq(s), p);
    assert(can_sort(less));
    sorting_by_orders(v, less);
    sorting_by_keeps_members(v, less, p);
    assert forall|i: int, j: int| #![trigger ps_list(s)[i], ps_list(s)[j]] 0 <= i < j < ps_list(s).len() implies ps_list(s)[i].rss_kb >= ps_list(s)[j].rss_kb by {
        assert(!less(sorted_by(v, less)[j], sorted_by(v, less)[i]));
    }
}

proof fn lemma_read_lines(ls: Seq<Seq<char>>, p: ProcView)
    ensures
        filter_map(ls, |l: Seq<char>| ps_line(l)).contains(p) <==> exists|n: int| 0 <= n < ls.len() && ps_line(#[trigger] ls[n]) == Some(p),
    decreases ls.len(),
{
    let f = |l: Seq<char>| ps_line(l);
    let v = filter_map(ls, f);
    if ls.len() > 0 {
        let t = ls.drop_last();
        let w = filter_map(t, f);
        lemma_read_lines(t, p);
        assert(ls[ls.len() - 1] == ls.last());
        if v.contains(p) {
            let k = choose|k: int| 0 <= k < v.len() && v[k] == p;
            if k < w.len() {
                assert(w[k] == p);
                assert(w.contains(p));
                let n = choose|n: int| 0 <= n < t.len() && ps_line(#[trigger] t[n]) == Some(p);
                assert(ls[n] == t[n]);
            }
        }
        if exists|n: int| 0 <= n < ls.len() && ps_line(#[trigger] ls[n]) == Some(p) {
            let n = choose|n: int| 0 <= n < ls.len() && ps_line(#[trigger] ls[n]) == Some(p);
            if n < t.len() {
                assert(t[n] == ls[n]);
                let k = choose|k: int| 0 <= k < w.len() && w[k] == p;
                assert(v[k] == p);
            } else {
                assert(v[v.len() - 1] == p);
            }
        }
    }
}

/// A process descends from the roots exactly where it is one of them or its parent descends from
/// them.
pub proof fn descent_goes_by_parents(v: Seq<ProcView>, roots: Seq<u32>, pid: u32)
    ensures
        roots.contains(pid) ==> descends(v, roots, pid),
        descends(v, roots, pid) && !roots.contains(pid) ==> exists|parent: u32| #[trigger] is_child(v, parent, pid) && descends(v, roots, parent),
{
    if roots.contains(pid) {
        let path = seq![pid];
        assert(is_descent(v, path));
        assert(path[0] == pid && path.last() == pid);
    }
    if descends(v, roots, pid) && !roots.contains(pid) {
        let path = choose|path: Seq<u32>| path.len() > 0 && roots.contains(path[0]) && path.last() == pid && #[trigger] is_descent(v, path);
        let n = path.len() - 1;
        assert(n > 0);
        let q = path.drop_last();
        assert(is_descent(v, q)) by {
            assert forall|i: int| 0 <= i < q.len() - 1 implies is_child(v, #[trigger] q[i], q[i + 1]) by {
                assert(is_child(v, path[i], path[i + 1]));
            }
        }
        assert(q[0] == path[0]);
        assert(is_child(v, path[n - 1], path[n]));
        assert(q.last() == path[n - 1]);
        assert(descends(v, roots, path[n - 1]));
    }
}

/// The list shows a process exactly where it is not the editor itself, descends from what the
/// switches name, and holds the filter in its command or its user.
pub proof fn the_list_shows_what_is_asked_for(m: ProcessManager, filter: Seq<char>, p: ProcView)
    ensures
        proc_list_rows(m, filter).contains(p) <==> proc_views(m.list@).contains(p) && p.pid != m.own && (lower(filter).len() == 0 || occurs(
            lower(p.comm),
            lower(filter),
        ) || occurs(lower(p.user), lower(filter))) && (m.workspace_only ==> descends(proc_views(m.list@), m.workspace_pids@, p.pid)) && (
        !m.workspace_only && m.only_tide ==> descends(proc_views(m.list@), seq![m.own], p.pid)),
{
    lemma_listed(proc_views(m.list@), m, filter, p);
}

proof fn lemma_listed(v: Seq<ProcView>, m: ProcessManager, filter: Seq<char>, p: ProcView)
    ensures
        filter_map(
            v,
            |p: ProcView|
                if proc_listed(m, filter, p) {
                    Some(p)
                } else {
                    None
                },
        ).contains(p) <==> v.contains(p) && proc_listed(m, filter, p),
    decreases v.len(),
{
    let f = |p: ProcView|
        if proc_listed(m, filter, p) {
            Some(p)
        } else {
            None
        };
    let r = filter_map(v, f);
    if v.len() > 0 {
        let t = v.drop_last();
        let w = filter_map(t, f);
        let x = v.last();
        lemma_listed(t, m, filter, p);
        assert(v[v.len() - 1] == x);
        assert(v.contains(p) <==> t.contains(p) || p == x) by {
            if t.contains(p) {
                let k = choose|k: int| 0 <= k < t.len() && t[k] == p;
                assert(v[k] == p);
            }
            if v.contains(p) && p != x {
                let k = choose|k: int| 0 <= k < v.len() && v[k] == p;
                assert(t[k] == p);
            }
        }
        if proc_listed(m, filter, x) {
            assert(r == w.push(x));
            assert(r.contains(p) <==> w.contains(p) || p == x) by {
                if w.contains(p) {
                    let k = choose|k: int| 0 <= k < w.len() && w[k] == p;
                    assert(r[k] == p);
                }
                assert(r[r.len() - 1] == x);
                if r.contains(p) && p != x {
                    let k = choose|k: int| 0 <= k < r.len() && r[k] == p;
                    assert(w[k] == p);
                }
            }
        } else {
            assert(r == w);
        }
    }
}

/// Whole megabytes are written as such, and from one gigabyte on whole gigabytes.
pub proof fn whole_sizes_are_written_as_such(n: nat)
    ensures
        n < 1024 ==> size_text(1024 * n as int) == dec(n) + "."@ + dec(0) + " MB"@,
        0 < n < 1024 ==> size_text(1048576 * n as int) == dec(n) + "."@ + seq!['0', '0'] + " GB"@,
{
    if n < 1024 {
        let v = 1024 * n as int;
        assert(float_unit(v, 1) == 1);
        assert(rounded(v, 1) == v);
        assert(v * 10 == (10 * n) * 1024);
        assert(rounded(v * 10, 1024) == 10 * n);
        assert((10 * n) / 10 == n && (10 * n) % 10 == 0);
    }
    if 0 < n < 1024 {
        let v = 1048576 * n as int;
        assert(v < 0x20_0000_0000_0000);
        assert(float_unit(v, 1) == 1);
        assert(rounded(v, 1) == v);
        assert(v * 100 == (100 * n) * 0x10_0000);
        assert(rounded(v * 100, 0x10_0000) == 100 * n);
        assert((100 * n) / 100 == n && (100 * n) / 10 % 10 == 0 && (100 * n) % 10 == 0);
        digits_count_in_tens(0, 0);
    }
}

/// Escape closes the list, and with the command key backspace kills and r reloads; anything else is
/// typed into the filter.
pub proof fn keys_of_the_process_list(k: KeyView)
    ensures
        k.key == "escape"@ ==> proc_key_of(k) == ProcKey::Close,
        k.key == "backspace"@ && !k.platform ==> proc_key_of(k) == ProcKey::Edit,
        k.key == "backspace"@ && k.platform ==> proc_key_of(k) == ProcKey::KillSelected,
        k.key == "r"@ && k.platform ==> proc_key_of(k) == ProcKey::Reload,
        k.key == "r"@ && !k.platform ==> proc_key_of(k) == ProcKey::Edit,
        proc_key_of(k) == ProcKey::KillSelected ==> k.platform && k.key == "backspace"@,
{
    reveal_strlit("escape");
    reveal_strlit("backspace");
    reveal_strlit("r");
    assert("escape"@.len() == 6 && "backspace"@.len() == 9 && "r"@.len() == 1);
}

/// A row shows the process by its name, its memory, its number and its user, and stands out where it
/// is selected; the header and the button count what is selected.
pub proof fn rows_show_their_process(p: ProcView, selected: bool, r: ProcRow, n: nat, total: nat)
    requires
        shows_proc(p, selected, r),
    ensures
        r.name@ == p.name && r.user@ == p.user && r.pid@ == dec(p.pid as nat) && r.memory@ == size_text(p.rss_kb as int),
        r.selected <==> selected,
        selected ==> r.name_color == SEL_TEXT && r.other_color == SEL_TEXT,
        !selected ==> r.name_color == TEXT && r.other_color == MUTED,
        count_text(0, total) == dec(total) + " processes"@,
        n > 0 ==> count_text(n, total) == dec(n) + " selected · "@ + (dec(total) + " processes"@),
        kill_text(0) == "Kill"@,
        n > 0 ==> kill_text(n) == "Kill ("@ + dec(n) + ")"@,
{
}

/// A quotient is rounded to the nearest whole number, and to the even one of two that are as near.
pub proof fn quotients_are_rounded_to_the_nearest(n: int, d: int)
    requires
        0 <= n,
        0 < d,
    ensures
        2 * (rounded(n, d) * d - n) <= d,
        2 * (n - rounded(n, d) * d) <= d,
        2 * (rounded(n, d) * d - n) == d || 2 * (n - rounded(n, d) * d) == d ==> rounded(n, d) % 2 == 0,
{
    let q = n / d;
    let r = n % d;
    vstd::arithmetic::div_mod::lemma_fundamental_div_mod(n, d);
    assert(n == q * d + r) by (nonlinear_arith)
        requires
            n == d * q + r,
    ;
    assert(0 <= r < d) by (nonlinear_arith)
        requires
            0 < d,
            r == n % d,
    ;
    assert((q + 1) * d == q * d + d) by (nonlinear_arith);
}

/// A number that a float can hold in full is in units of one.
pub proof fn small_numbers_are_exact(n: int)
    requires
        0 <= n < 0x20_0000_0000_0000,
    ensures
        float_unit(n, 1) == 1,
{
}

} // verus!
