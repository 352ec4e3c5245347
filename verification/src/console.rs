//! The run console: commands run in the background, their output, and what follows when
//! they end.
use vstd::prelude::*;
use crate::path::{FilePath, PathView, lemma_path_views_push, lemma_pieces_joined, path_of, path_ok, path_text, path_views, reading_a_path_undoes_writing};
use crate::text::{cat, chars_of, contains, filter_map, join, joined, lemma_filter_map_ends, lemma_filter_map_step, lemma_trimmed_end, lemma_trimmed_start, line_seq, lines, lower, occurs, opt_text, pieces, texts, trim, trimmed, trimmed_start, without_cr};
use crate::theme::{ACCENT, BORDER, GIT_DELETED, GIT_NEW, MUTED};

verus! {

/// At most so many lines of output are kept.
pub const RUN_LINES: usize = 5000;

// ── escape sequences ────────────────────────────────────────────────────────

/// Whether `c` is an ASCII letter.
pub open spec fn is_letter(c: char) -> bool {
    ('a' <= c && c <= 'z') || ('A' <= c && c <= 'Z')
}

/// What stands behind the first ASCII letter of `s`.
pub open spec fn after_letter(s: Seq<char>) -> Seq<char>
    decreases s.len(),
{
    if s.len() == 0 {
        s
    } else if is_letter(s[0]) {
        s.drop_first()
    } else {
        after_letter(s.drop_first())
    }
}

proof fn lemma_after_letter(s: Seq<char>)
    ensures
        after_letter(s).len() <= s.len(),
    decreases s.len(),
{
    if s.len() > 0 && !is_letter(s[0]) {
        lemma_after_letter(s.drop_first());
    }
}

/// A text without escape sequences and carriage returns. An escape with a bracket reaches
/// up to the next letter; any other takes one character with it.
pub open spec fn plain(s: Seq<char>) -> Seq<char>
    decreases s.len() via plain_ends
{
    if s.len() == 0 {
        s
    } else if s[0] == '\x1b' {
        if s.len() > 1 && s[1] == '[' {
            plain(after_letter(s.skip(2)))
        } else if s.len() > 1 {
            plain(s.skip(2))
        } else {
            Seq::empty()
        }
    } else if s[0] == '\r' {
        plain(s.drop_first())
    } else {
        seq![s[0]] + plain(s.drop_first())
    }
}

#[via_fn]
proof fn plain_ends(s: Seq<char>) {
    if s.len() > 1 {
        lemma_after_letter(s.skip(2));
    }
}

/// Takes escape sequences out of a line of output.
pub fn strip_ansi(s: &str) -> (r: String)
    ensures
        r@ == plain(s@),
{
    let v = chars_of(s);
    let mut out = String::new();
    let mut i: usize = 0;
    assert(s@.skip(0) =~= s@);
    assert(out@ + plain(s@) =~= plain(s@));
    while i < v.len()
        invariant
            i <= v.len(),
            v@ == s@,
            out@ + plain(s@.skip(i as int)) == plain(s@),
        decreases v.len() - i,
    {
        let ghost t = s@.skip(i as int);
        let ghost at = i;
        assert(t[0] == s@[i as int]);
        assert(t.drop_first() =~= s@.skip(i + 1));
        let c = v[i];
        if c == '\x1b' {
            if i + 1 < v.len() && v[i + 1] == '[' {
                assert(t[1] == s@[i + 1]);
                i = i + 2;
                assert(t.skip(2) =~= s@.skip(i as int));
                let ghost from = s@.skip(i as int);
                let mut done = false;
                while i < v.len() && !done
                    invariant
                        at < i <= v.len(),
                        v@ == s@,
                        after_letter(from) == if done {
                            s@.skip(i as int)
                        } else {
                            after_letter(s@.skip(i as int))
                        },
                    decreases v.len() - i,
                {
                    let n = v[i];
                    proof {
                        assert(s@.skip(i as int)[0] == n);
                        assert(s@.skip(i as int).drop_first() =~= s@.skip(i + 1));
                    }
                    i = i + 1;
                    if ('a' <= n && n <= 'z') || ('A' <= n && n <= 'Z') {
                        done = true;
                    }
                }
                assert(after_letter(from) =~= s@.skip(i as int));
            } else if i + 1 < v.len() {
                assert(t[1] == s@[i + 1]);
                i = i + 2;
                assert(t.skip(2) =~= s@.skip(i as int));
            } else {
                i = i + 1;
                assert(plain(t) == Seq::<char>::empty());
                assert(s@.skip(i as int).len() == 0);
                assert(plain(s@.skip(i as int)) =~= Seq::<char>::empty());
            }
        } else {
            let ghost was = out@;
            if c != '\r' {
                out.push(c);
                assert(was.push(c) + plain(t.drop_first()) =~= was + (seq![c] + plain(
                    t.drop_first(),
                )));
            }
            i = i + 1;
        }
    }
    assert(s@.skip(s@.len() as int).len() == 0);
    assert(out@ + plain(s@.skip(s@.len() as int)) =~= out@);
    out
}

/// A line without escapes and carriage returns stays as it is.
pub proof fn stripping_keeps_plain_text(s: Seq<char>)
    requires
        !s.contains('\x1b'),
        !s.contains('\r'),
    ensures
        plain(s) == s,
    decreases s.len(),
{
    if s.len() > 0 {
        let t = s.drop_first();
        assert(s.contains(s[0]));
        assert forall|i: int| 0 <= i < t.len() implies t[i] != '\x1b' && t[i] != '\r' by {
            assert(s.contains(s[i + 1]));
        }
        stripping_keeps_plain_text(t);
        assert(seq![s[0]] + t =~= s);
    }
}

/// Nothing of an escape sequence is left.
pub proof fn stripping_leaves_no_escape(s: Seq<char>)
    ensures
        !plain(s).contains('\x1b'),
        !plain(s).contains('\r'),
    decreases s.len(),
{
    if s.len() > 0 {
        if s[0] == '\x1b' {
            if s.len() > 1 {
                lemma_after_letter(s.skip(2));
                if s[1] == '[' {
                    stripping_leaves_no_escape(after_letter(s.skip(2)));
                } else {
                    stripping_leaves_no_escape(s.skip(2));
                }
            }
        } else {
            stripping_leaves_no_escape(s.drop_first());
            let p = plain(s.drop_first());
            let r = plain(s);
            assert forall|i: int| 0 <= i < r.len() implies r[i] != '\x1b' && r[i] != '\r' by {
                if s[0] != '\r' && i > 0 {
                    assert(r[i] == p[i - 1]);
                    assert(p.contains(p[i - 1]));
                } else if s[0] == '\r' {
                    assert(p.contains(p[i]));
                }
            }
        }
    }
}

// ── the console ─────────────────────────────────────────────────────────────

/// The state of the run console and its toast.
#[derive(Debug)]
pub struct RunConsole {
    pub open: bool,
    pub cmd: String,
    pub lines: Vec<String>,
    pub running: bool,
    pub active: bool,
    pub failed: bool,
    pub spin: usize,
    pub gen: usize,
}

/// The state as plain values.
pub ghost struct RunView {
    pub open: bool,
    pub cmd: Seq<char>,
    pub lines: Seq<Seq<char>>,
    pub running: bool,
    pub active: bool,
    pub failed: bool,
    pub spin: usize,
    pub gen: usize,
}

impl View for RunConsole {
    type V = RunView;

    open spec fn view(&self) -> RunView {
        RunView {
            open: self.open,
            cmd: self.cmd@,
            lines: texts(self.lines@),
            running: self.running,
            active: self.active,
            failed: self.failed,
            spin: self.spin,
            gen: self.gen,
        }
    }
}

/// The last `n` lines.
pub open spec fn newest(v: Seq<Seq<char>>, n: int) -> Seq<Seq<char>> {
    if v.len() > n {
        v.skip(v.len() - n)
    } else {
        v
    }
}

/// Whether a command may leave conflicts behind.
pub open spec fn merges(cmd: Seq<char>) -> bool {
    let c = lower(cmd);
    occurs(c, "merge"@) || occurs(c, "pull"@) || occurs(c, "rebase"@) || occurs(c, "cherry-pick"@)
}

/// Whether some line holds the text, upper and lower case alike.
pub open spec fn says(v: Seq<Seq<char>>, what: Seq<char>) -> bool {
    exists|i: int| 0 <= i < v.len() && occurs(lower(#[trigger] v[i]), what)
}

/// What follows when a command has ended.
#[derive(Clone, Copy, Debug, PartialEq, Eq, Structural)]
pub struct RunEnd {
    pub show_conflicts: bool,
    pub up_to_date: bool,
    pub hide_later: bool,
    pub push_ahead: bool,
}

/// Conflicts are shown; a success that changed nothing says so, and every success hides its
/// toast later; a rejected push offers to merge or rebase.
pub open spec fn run_end(r: RunView, success: bool, conflicts: bool) -> RunEnd {
    RunEnd {
        show_conflicts: merges(r.cmd) && conflicts,
        up_to_date: success && says(r.lines, "already up to date"@),
        hide_later: success,
        push_ahead: !success && (says(r.lines, "rejected"@) || says(r.lines, "fetch first"@)),
    }
}

/// The console when the command has ended: a failure that is no rejected push opens it.
pub open spec fn run_ended(r: RunView, success: bool, conflicts: bool) -> RunView {
    let e = run_end(r, success, conflicts);
    RunView {
        running: false,
        failed: !success,
        active: success && r.active && !e.show_conflicts && !e.up_to_date,
        open: r.open || (!success && !e.push_ahead),
        ..r
    }
}

fn any_line(v: &Vec<String>, what: &str) -> (r: bool)
    ensures
        r == says(texts(v@), what@),
{
    let mut i: usize = 0;
    while i < v.len()
        invariant
            i <= v.len(),
            forall|j: int| 0 <= j < i ==> !occurs(lower(#[trigger] texts(v@)[j]), what@),
        decreases v.len() - i,
    {
        let l = v[i].as_str().to_lowercase();
        if contains(l.as_str(), what) {
            assert(occurs(lower(texts(v@)[i as int]), what@));
            return true;
        }
        i = i + 1;
    }
    false
}

/// Whether a command may leave conflicts behind: it merges, pulls, rebases or picks.
pub fn may_conflict(cmd: &str) -> (r: bool)
    ensures
        r == merges(cmd@),
{
    let c = cmd.to_lowercase();
    contains(c.as_str(), "merge") || contains(c.as_str(), "pull") || contains(c.as_str(), "rebase")
        || contains(c.as_str(), "cherry-pick")
}

impl RunConsole {
    /// A console that has run nothing.
    pub fn new() -> (r: RunConsole)
        ensures
            r@ == (RunView {
                open: false,
                cmd: Seq::empty(),
                lines: Seq::empty(),
                running: false,
                active: false,
                failed: false,
                spin: 0,
                gen: 0,
            }),
    {
        let r = RunConsole {
            open: false,
            cmd: String::new(),
            lines: Vec::new(),
            running: false,
            active: false,
            failed: false,
            spin: 0,
            gen: 0,
        };
        assert(texts(r.lines@) =~= Seq::<Seq<char>>::empty());
        r
    }

    /// A command starts: its toast is shown and its output begins with the command itself.
    /// Gives the number of the run.
    pub fn start(&mut self, cmd: &str) -> (r: usize)
        requires
            old(self).gen < usize::MAX,
        ensures
            r == old(self).gen + 1,
            final(self)@ == (RunView {
                cmd: cmd@,
                lines: seq!["$ "@ + cmd@],
                running: true,
                active: true,
                failed: false,
                spin: 0,
                gen: r,
                ..old(self)@
            }),
    {
        self.cmd = cmd.to_owned();
        self.running = true;
        self.active = true;
        self.failed = false;
        self.spin = 0;
        let mut lines: Vec<String> = Vec::new();
        let head = cat("$ ", cmd);
        lines.push(head);
        self.lines = lines;
        assert(texts(self.lines@) =~= seq!["$ "@ + cmd@]);
        self.gen = self.gen + 1;
        self.gen
    }

    /// The text that the shell is given: what goes wrong is part of the output.
    pub fn shell_text(cmd: &str) -> (r: String)
        ensures
            r@ == cmd@ + " 2>&1"@,
    {
        cat(cmd, " 2>&1")
    }

    /// One turn of the watch over run `gen`: the sign turns, and new output is added, the
    /// oldest lines going where there are too many. Says whether this run is still the one.
    pub fn poll(&mut self, gen: usize, fresh: Vec<String>) -> (r: bool)
        ensures
            r == (gen == old(self).gen),
            final(self)@ == if r {
                RunView {
                    spin: if old(self).spin < usize::MAX {
                        (old(self).spin + 1) as usize
                    } else {
                        0
                    },
                    lines: if fresh@.len() > 0 {
                        newest(old(self)@.lines + texts(fresh@), RUN_LINES as int)
                    } else {
                        old(self)@.lines
                    },
                    ..old(self)@
                }
            } else {
                old(self)@
            },
    {
        if gen != self.gen {
            return false;
        }
        self.spin = self.spin.wrapping_add(1);
        if fresh.len() > 0 {
            let mut more = fresh;
            let ghost a = self.lines@;
            let ghost b = more@;
            self.lines.append(&mut more);
            assert(texts(self.lines@) =~= texts(a) + texts(b));
            let n: usize = self.lines.len();
            if n > RUN_LINES {
                let tail = self.lines.split_off(n - RUN_LINES);
                assert(texts(tail@) =~= (texts(a) + texts(b)).skip(n - RUN_LINES));
                self.lines = tail;
            }
        }
        true
    }

    /// The command has ended. `conflicts` says whether files are in conflict now.
    pub fn finish(&mut self, success: bool, conflicts: bool) -> (r: RunEnd)
        ensures
            r == run_end(old(self)@, success, conflicts),
            final(self)@ == run_ended(old(self)@, success, conflicts),
    {
        self.running = false;
        self.failed = !success;
        let show_conflicts = conflicts && may_conflict(self.cmd.as_str());
        if show_conflicts {
            self.active = false;
        }
        let up_to_date = success && any_line(&self.lines, "already up to date");
        if up_to_date {
            self.active = false;
        }
        let mut push_ahead = false;
        if !success {
            push_ahead = any_line(&self.lines, "rejected") || any_line(&self.lines, "fetch first");
            self.active = false;
            if !push_ahead {
                self.open = true;
            }
        }
        RunEnd { show_conflicts, up_to_date, hide_later: success, push_ahead }
    }

    /// Some time after run `gen` succeeded its toast goes, unless another run has begun.
    pub fn hide_toast(&mut self, gen: usize)
        ensures
            final(self)@ == (RunView {
                active: old(self).active && !(gen == old(self).gen && !old(self).running),
                ..old(self)@
            }),
    {
        if gen == self.gen && !self.running {
            self.active = false;
        }
    }

    /// A click on the toast opens the console in its place.
    pub fn open_from_toast(&mut self)
        ensures
            final(self)@ == (RunView { open: true, active: false, ..old(self)@ }),
    {
        self.open = true;
        self.active = false;
    }

    /// Empties the output.
    pub fn clear(&mut self)
        ensures
            final(self)@ == (RunView { lines: Seq::empty(), ..old(self)@ }),
    {
        self.lines = Vec::new();
        assert(texts(self.lines@) =~= Seq::<Seq<char>>::empty());
    }

    /// The command that running again would run: none where there was none.
    pub fn rerun(&self) -> (r: Option<String>)
        ensures
            opt_text(r) == if self@.cmd.len() == 0 {
                None
            } else {
                Some(self@.cmd)
            },
    {
        if self.cmd.as_str().is_empty() {
            None
        } else {
            Some(self.cmd.clone())
        }
    }

    /// The output as one text.
    pub fn text(&self) -> (r: String)
        ensures
            r@ == joined(self@.lines, seq!['\n']),
    {
        proof {
            reveal_strlit("\n");
            assert("\n"@ =~= seq!['\n']);
        }
        join(&self.lines, "\n")
    }

    /// Whether the toast is shown: something ran and the console does not show it.
    pub fn toast_shown(&self) -> (r: bool)
        ensures
            r == (self@.active && !self@.open),
    {
        self.active && !self.open
    }

    /// The toast: its sign, its colour, its heading and its text.
    pub fn toast(&self) -> (r: (char, u32, &'static str, String))
        ensures
            if self@.running {
                &&& r.0 == spin_char(self@.spin as int % 10)
                &&& r.1 == ACCENT
                &&& r.2@ == "RUNNING"@
                &&& r.3@ == "Running  "@ + self@.cmd
            } else if self@.failed {
                &&& r.0 == '✕'
                &&& r.1 == GIT_DELETED
                &&& r.2@ == "FAILED"@
                &&& r.3@ == self@.cmd + " failed"@
            } else {
                &&& r.0 == '✓'
                &&& r.1 == GIT_NEW
                &&& r.2@ == "DONE"@
                &&& r.3@ == self@.cmd + " done"@
            },
    {
        if self.running {
            (spinner(self.spin % 10), ACCENT, "RUNNING", cat("Running  ", self.cmd.as_str()))
        } else if self.failed {
            ('✕', GIT_DELETED, "FAILED", cat(self.cmd.as_str(), " failed"))
        } else {
            ('✓', GIT_NEW, "DONE", cat(self.cmd.as_str(), " done"))
        }
    }

    /// The header of the console: the colour of its icon, what it says of the run, and the
    /// colour of its border.
    pub fn header(&self) -> (r: (u32, &'static str, u32))
        ensures
            r.0 == if self@.running {
                ACCENT
            } else if self@.failed {
                GIT_DELETED
            } else {
                MUTED
            },
            r.1@ == if self@.running {
                "running…"@
            } else if self@.failed {
                "failed"@
            } else {
                "done"@
            },
            r.2 == if self@.failed && !self@.running {
                GIT_DELETED
            } else {
                BORDER
            },
    {
        if self.running {
            (ACCENT, "running…", BORDER)
        } else if self.failed {
            (GIT_DELETED, "failed", GIT_DELETED)
        } else {
            (MUTED, "done", BORDER)
        }
    }
}

/// The signs of a turning wheel.
pub open spec fn spin_char(k: int) -> char {
    if k == 0 {
        '⠋'
    } else if k == 1 {
        '⠙'
    } else if k == 2 {
        '⠹'
    } else if k == 3 {
        '⠸'
    } else if k == 4 {
        '⠼'
    } else if k == 5 {
        '⠴'
    } else if k == 6 {
        '⠦'
    } else if k == 7 {
        '⠧'
    } else if k == 8 {
        '⠇'
    } else {
        '⠏'
    }
}

fn spinner(k: usize) -> (r: char)
    ensures
        r == spin_char(k as int),
{
    match k {
        0 => '⠋',
        1 => '⠙',
        2 => '⠹',
        3 => '⠸',
        4 => '⠼',
        5 => '⠴',
        6 => '⠦',
        7 => '⠧',
        8 => '⠇',
        _ => '⠏',
    }
}

/// The output never grows past its cap while a command runs.
pub proof fn output_stays_within_its_cap(lines: Seq<Seq<char>>, fresh: Seq<Seq<char>>)
    ensures
        newest(lines + fresh, RUN_LINES as int).len() <= RUN_LINES,
{
}

/// A run that failed is never left with neither the console nor an offer.
pub proof fn failure_is_always_shown(r: RunView, conflicts: bool)
    ensures
        run_ended(r, false, conflicts).open || run_end(r, false, conflicts).push_ahead,
        !run_ended(r, false, conflicts).active,
{
}

// ── remembered projects ─────────────────────────────────────────────────────

/// At most so many recent projects are remembered.
pub const RECENT_MAX: usize = 20;

/// The paths other than `root`.
pub open spec fn others_than(v: Seq<PathView>, root: PathView) -> Seq<PathView> {
    filter_map(
        v,
        |p: PathView|
            if p == root {
                None
            } else {
                Some(p)
            },
    )
}

/// The recent projects after `root` was opened: it comes first, and is listed once.
pub open spec fn with_recent(v: Seq<PathView>, root: PathView) -> Seq<PathView> {
    let all = seq![root] + others_than(v, root);
    if all.len() > RECENT_MAX {
        all.take(RECENT_MAX as int)
    } else {
        all
    }
}

/// Puts a project in front of the recent ones.
pub fn push_recent(v: &Vec<FilePath>, root: &FilePath) -> (r: Vec<FilePath>)
    ensures
        path_views(r@) == with_recent(path_views(v@), root@),
{
    let ghost all = path_views(v@);
    let ghost f = |p: PathView|
        if p == root@ {
            None
        } else {
            Some(p)
        };
    let mut out: Vec<FilePath> = Vec::new();
    out.push(root.copy());
    let mut i: usize = 0;
    proof {
        lemma_filter_map_ends(all, f);
        assert(path_views(out@) =~= seq![root@] + filter_map(all.take(0), f));
    }
    while i < v.len()
        invariant
            i <= v.len(),
            all == path_views(v@),
            f == (|p: PathView|
                if p == root@ {
                    None
                } else {
                    Some(p)
                }),
            path_views(out@) == seq![root@] + filter_map(all.take(i as int), f),
        decreases v.len() - i,
    {
        proof {
            lemma_filter_map_step(all, f, i as int);
        }
        if !v[i].same(root) {
            let p = v[i].copy();
            proof {
                lemma_path_views_push(out@, p);
                let w = filter_map(all.take(i as int), f);
                assert((seq![root@] + w).push(p@) =~= seq![root@] + w.push(p@));
            }
            out.push(p);
        }
        i = i + 1;
    }
    let ghost whole = path_views(out@);
    if out.len() > RECENT_MAX {
        out.truncate(RECENT_MAX);
        assert(path_views(out@) =~= whole.take(RECENT_MAX as int));
    }
    out
}

/// The project opened last comes first, and no more are kept than the limit.
pub proof fn latest_project_comes_first(v: Seq<PathView>, root: PathView)
    ensures
        with_recent(v, root).len() > 0,
        with_recent(v, root)[0] == root,
        with_recent(v, root).len() <= RECENT_MAX,
{
}

/// The paths in the file of recent projects: one to a line.
pub open spec fn recent_lines(s: Seq<char>) -> Seq<PathView> {
    line_seq(s).map_values(|l: Seq<char>| path_of(trimmed(l)))
}

/// Reads the file of recent projects.
pub fn parse_recents(s: &str) -> (r: Vec<FilePath>)
    ensures
        path_views(r@) == recent_lines(s@),
{
    let ls = lines(s);
    let ghost want = recent_lines(s@);
    let mut out: Vec<FilePath> = Vec::new();
    let mut i: usize = 0;
    assert(texts(ls@).len() == ls.len());
    while i < ls.len()
        invariant
            i <= ls.len(),
            texts(ls@) == line_seq(s@),
            want == recent_lines(s@),
            out.len() == i,
            forall|j: int| 0 <= j < i ==> (#[trigger] out@[j])@ == want[j],
        decreases ls.len() - i,
    {
        let t = trim(ls[i].as_str());
        assert(texts(ls@)[i as int] == ls@[i as int]@);
        out.push(FilePath::parse(t.as_str()));
        i = i + 1;
    }
    assert(path_views(out@) =~= want);
    out
}

/// The file of recent projects: their paths, one to a line.
pub fn write_recents(v: &Vec<FilePath>) -> (r: String)
    ensures
        r@ == joined(path_views(v@).map_values(|p: PathView| path_text(p)), seq!['\n']),
{
    let ghost want = path_views(v@).map_values(|p: PathView| path_text(p));
    let mut out: Vec<String> = Vec::new();
    let mut i: usize = 0;
    while i < v.len()
        invariant
            i <= v.len(),
            want == path_views(v@).map_values(|p: PathView| path_text(p)),
            out.len() == i,
            forall|j: int| 0 <= j < i ==> (#[trigger] out@[j])@ == want[j],
        decreases v.len() - i,
    {
        out.push(v[i].to_text());
        i = i + 1;
    }
    assert(texts(out@) =~= want);
    proof {
        reveal_strlit("\n");
        assert("\n"@ =~= seq!['\n']);
    }
    join(&out, "\n")
}

/// No project is remembered twice.
pub proof fn recent_projects_stay_distinct(v: Seq<PathView>, root: PathView)
    requires
        v.no_duplicates(),
    ensures
        with_recent(v, root).no_duplicates(),
{
    lemma_others_distinct(v, root);
    let others = others_than(v, root);
    let all = seq![root] + others;
    assert forall|i: int, j: int| 0 <= i < all.len() && 0 <= j < all.len() && i != j implies all[i]
        != all[j] by {
        if i == 0 {
            assert(all[j] == others[j - 1]);
        } else if j == 0 {
            assert(all[i] == others[i - 1]);
        } else {
            assert(all[i] == others[i - 1] && all[j] == others[j - 1]);
        }
    }
    let r = with_recent(v, root);
    assert forall|i: int, j: int| 0 <= i < r.len() && 0 <= j < r.len() && i != j implies r[i]
        != r[j] by {
        assert(r[i] == all[i] && r[j] == all[j]);
    }
}

proof fn lemma_others_distinct(v: Seq<PathView>, root: PathView)
    requires
        v.no_duplicates(),
    ensures
        ({
            let o = others_than(v, root);
            &&& o.no_duplicates()
            &&& forall|i: int| 0 <= i < o.len() ==> #[trigger] o[i] != root && v.contains(o[i])
        }),
    decreases v.len(),
{
    if v.len() > 0 {
        let t = v.drop_last();
        assert forall|i: int, j: int| 0 <= i < t.len() && 0 <= j < t.len() && i != j implies t[i]
            != t[j] by {
            assert(v[i] != v[j]);
        }
        lemma_others_distinct(t, root);
        let a = others_than(t, root);
        let o = others_than(v, root);
        assert forall|i: int| 0 <= i < a.len() implies #[trigger] a[i] != v.last() by {
            let k = choose|k: int| 0 <= k < t.len() && t[k] == a[i];
            assert(v[k] != v[v.len() - 1]);
        }
        assert forall|i: int| 0 <= i < o.len() implies #[trigger] o[i] != root && v.contains(o[i]) by {
            if i < a.len() {
                assert(o[i] == a[i]);
                assert(t.contains(a[i]));
                let k = choose|k: int| 0 <= k < t.len() && t[k] == a[i];
                assert(v[k] == o[i]);
            } else {
                assert(o[i] == v[v.len() - 1]);
            }
        }
        assert forall|i: int, j: int| 0 <= i < o.len() && 0 <= j < o.len() && i != j implies o[i]
            != o[j] by {
            if i < a.len() && j < a.len() {
                assert(a[i] != a[j]);
            } else if i < a.len() {
                assert(a[i] != v.last());
            } else if j < a.len() {
                assert(a[j] != v.last());
            }
        }
    }
}

/// The remembered projects are read back as they were written, where a line can hold each of
/// their paths.
pub proof fn remembered_projects_are_read_back(v: Seq<PathView>)
    requires
        forall|i: int|
            0 <= i < v.len() ==> path_ok(#[trigger] v[i]) && path_text(v[i]).len() > 0 && !path_text(
                v[i],
            ).contains('\n') && trimmed(path_text(v[i])) == path_text(v[i]),
    ensures
        recent_lines(joined(v.map_values(|p: PathView| path_text(p)), seq!['\n'])) == v,
{
    let t = v.map_values(|p: PathView| path_text(p));
    let s = joined(t, seq!['\n']);
    if v.len() == 0 {
        assert(pieces(s, '\n').len() == 1);
        assert(line_seq(s) =~= Seq::<Seq<char>>::empty());
        assert(recent_lines(s) =~= v);
    } else {
        assert forall|i: int| 0 <= i < t.len() implies !(#[trigger] t[i]).contains('\n') by {
            assert(t[i] == path_text(v[i]));
        }
        lemma_pieces_joined(t, '\n');
        assert(pieces(s, '\n') == t);
        assert forall|i: int| 0 <= i < t.len() implies without_cr(#[trigger] t[i]) == t[i] && path_of(
            trimmed(t[i]),
        ) == v[i] by {
            assert(t[i] == path_text(v[i]));
            reading_a_path_undoes_writing(v[i]);
            lemma_trimmed_start(t[i]);
            lemma_trimmed_end(trimmed_start(t[i]));
        }
        assert(t.last() == path_text(v[v.len() - 1]));
        assert(line_seq(s) =~= t);
        assert(recent_lines(s) =~= v);
    }
}

/// A colour code, an escape with a bracket, what is no letter, and a letter, is taken out and what
/// follows it is not.
pub proof fn colour_codes_are_taken_out(params: Seq<char>, c: char, rest: Seq<char>)
    requires
        forall|i: int| 0 <= i < params.len() ==> !is_letter(#[trigger] params[i]),
        is_letter(c),
    ensures
        plain(seq!['\x1b', '['] + params + seq![c] + rest) == plain(rest),
{
    let s = seq!['\x1b', '['] + params + seq![c] + rest;
    assert(s[0] == '\x1b' && s[1] == '[');
    let t = params + seq![c] + rest;
    assert(s.skip(2) =~= t);
    lemma_behind_letter(params, c, rest);
}

proof fn lemma_behind_letter(params: Seq<char>, c: char, rest: Seq<char>)
    requires
        forall|i: int| 0 <= i < params.len() ==> !is_letter(#[trigger] params[i]),
        is_letter(c),
    ensures
        after_letter(params + seq![c] + rest) == rest,
    decreases params.len(),
{
    let t = params + seq![c] + rest;
    if params.len() == 0 {
        assert(t[0] == c);
        assert(t.drop_first() =~= rest);
    } else {
        let p = params.drop_first();
        assert forall|i: int| 0 <= i < p.len() implies !is_letter(#[trigger] p[i]) by {
            assert(p[i] == params[i + 1]);
        }
        assert(t[0] == params[0]);
        assert(!is_letter(params[0]));
        lemma_behind_letter(p, c, rest);
        assert(t.drop_first() =~= p + seq![c] + rest);
    }
}

/// A character that is neither an escape nor a carriage return stays, in its place.
pub proof fn other_characters_stay(c: char, rest: Seq<char>)
    requires
        c != '\x1b',
    ensures
        c != '\r' ==> plain(seq![c] + rest) == seq![c] + plain(rest),
        plain(seq!['\r'] + rest) == plain(rest),
        ('a' <= c <= 'z') || ('A' <= c <= 'Z') <==> is_letter(c),
{
    assert((seq![c] + rest).drop_first() =~= rest);
    assert((seq!['\r'] + rest).drop_first() =~= rest);
}

/// What a command that has ended leads to: files in conflict are shown where the command could have
/// left some; success hides the toast, at once where nothing was to be done; a push that was
/// rejected offers to integrate, and any other failure opens the console.
pub proof fn the_end_of_a_command(r: RunView, conflicts: bool)
    ensures
        run_end(r, true, conflicts).hide_later && !run_end(r, false, conflicts).hide_later,
        !run_end(r, true, conflicts).push_ahead,
        !run_end(r, true, false).show_conflicts && !run_end(r, false, false).show_conflicts,
        run_end(r, false, true).show_conflicts == run_end(r, true, true).show_conflicts,
        occurs(lower(r.cmd), "merge"@) || occurs(lower(r.cmd), "pull"@) || occurs(lower(r.cmd), "rebase"@) || occurs(lower(r.cmd), "cherry-pick"@)
            <==> run_end(r, true, true).show_conflicts,
        run_end(r, false, conflicts).push_ahead <==> exists|i: int|
            0 <= i < r.lines.len() && (occurs(lower(#[trigger] r.lines[i]), "rejected"@) || occurs(lower(r.lines[i]), "fetch first"@)),
        run_end(r, true, conflicts).up_to_date <==> exists|i: int| 0 <= i < r.lines.len() && occurs(lower(#[trigger] r.lines[i]), "already up to date"@),
        !run_end(r, false, conflicts).up_to_date,
        !run_ended(r, true, conflicts).running && !run_ended(r, false, conflicts).running,
        !run_ended(r, true, conflicts).failed && run_ended(r, false, conflicts).failed,
        run_ended(r, true, conflicts).open == r.open,
        !r.open ==> (run_ended(r, false, conflicts).open <==> !run_end(r, false, conflicts).push_ahead),
        !run_ended(r, false, conflicts).active,
        run_ended(r, true, conflicts).lines == r.lines && run_ended(r, false, conflicts).lines == r.lines,
        run_ended(r, true, conflicts).cmd == r.cmd,
{
}

/// Of too many lines the last are kept, in their order.
pub proof fn the_last_lines_are_kept(v: Seq<Seq<char>>, n: int, i: int)
    requires
        0 <= n,
        0 <= i < newest(v, n).len(),
    ensures
        newest(v, n)[newest(v, n).len() - 1 - i] == v[v.len() - 1 - i],
        v.len() <= n ==> newest(v, n) == v,
        v.len() > n ==> newest(v, n).len() == n,
        RUN_LINES == 5000,
{
}

/// Opening a project puts it in front of the others, which keep their order; twenty are kept.
pub proof fn recent_projects_keep_their_order(v: Seq<PathView>, root: PathView, p: PathView)
    requires
        v.len() < 20,
    ensures
        with_recent(v, root)[0] == root,
        with_recent(v, root).len() <= 20,
        p != root ==> (with_recent(v, root).contains(p) <==> v.contains(p)),
        !v.contains(root) ==> with_recent(v, root) == seq![root] + v,
{
    lemma_others(v, root, p);
    let o = others_than(v, root);
    let all = seq![root] + o;
    assert(with_recent(v, root) == all);
    if o.contains(p) {
        let k = choose|k: int| 0 <= k < o.len() && o[k] == p;
        assert(all[k + 1] == p);
    }
    if all.contains(p) && p != root {
        let k = choose|k: int| 0 <= k < all.len() && all[k] == p;
        assert(o[k - 1] == p);
    }
}

proof fn lemma_others(v: Seq<PathView>, root: PathView, p: PathView)
    ensures
        others_than(v, root).contains(p) <==> v.contains(p) && p != root,
        !v.contains(root) ==> others_than(v, root) == v,
        others_than(v, root).len() <= v.len(),
    decreases v.len(),
{
    if v.len() > 0 {
        let t = v.drop_last();
        let o = others_than(v, root);
        let q = others_than(t, root);
        let x = v.last();
        lemma_others(t, root, p);
        assert(o == if x == root { q } else { q.push(x) });
        assert(v[v.len() - 1] == x);
        assert(v.contains(p) <==> t.contains(p) || p == x) by {
            if t.contains(p) {
                let k = choose|k: int| 0 <= k < t.len() && t[k] == p;
                assert(v[k] == p);
            }
            if v.contains(p) && p != x {
                let k = choose|k: int| 0 <= k < v.len() && v[k] == p;
                assert(t[k] == p);
            }
        }
        if x != root {
            assert(o.contains(p) <==> q.contains(p) || p == x) by {
                if q.contains(p) {
                    let k = choose|k: int| 0 <= k < q.len() && q[k] == p;
                    assert(o[k] == p);
                }
                assert(o[o.len() - 1] == x);
                if o.contains(p) && p != x {
                    let k = choose|k: int| 0 <= k < o.len() && o[k] == p;
                    assert(q[k] == p);
                }
            }
        }
        if !v.contains(root) {
            assert(!t.contains(root)) by {
                if t.contains(root) {
                    let k = choose|k: int| 0 <= k < t.len() && t[k] == root;
                    assert(v[k] == root);
                }
            }
            assert(t.push(x) =~= v);
        }
    } else {
        assert(others_than(v, root) =~= v);
    }
}

/// The wheel goes through ten signs in their order.
pub proof fn the_wheel_turns(k: int)
    requires
        0 <= k < 10,
    ensures
        spin_char(k) == "⠋⠙⠹⠸⠼⠴⠦⠧⠇⠏"@[k],
{
    reveal_strlit("⠋⠙⠹⠸⠼⠴⠦⠧⠇⠏");
}

} // verus!
