//! The small prompts: a new file, a new branch, a pull request, a command, a project.
use vstd::prelude::*;
use crate::diff::Run;
use crate::git::{content_of, opt_str, trimmed_content};
use crate::keys::{KeyView, Keystroke, down_step, step_down, step_up};
use crate::path::{FilePath, PathView, joined_path, name_or_empty, opt_path, parent_of, path_of, path_text, rel_text};
use crate::text::{after_prefix, all_digits, begins, cat, cat3, chars_of, contains, digits_value, filter_map, joined, lemma_filter_map_ends, lemma_filter_map_step, lemma_nondigit, lemma_pieces_nonempty, lemma_texts_push, lower, occurs, opt_text, parse_number, pieces, same, split, split_undoes_join, strip_prefix, texts, trim, trim_end_char, trimmed, trimming_is_idempotent, without_trailing};

verus! {

/// What a key does in a prompt with one line.
#[derive(Clone, Copy, Debug, PartialEq, Eq, Structural)]
pub enum PromptKey {
    Cancel,
    Submit,
    Edit,
}

/// Escape cancels, enter submits, the rest is typed.
pub open spec fn prompt_key_of(k: KeyView) -> PromptKey {
    if k.key == "escape"@ {
        PromptKey::Cancel
    } else if k.key == "enter"@ {
        PromptKey::Submit
    } else {
        PromptKey::Edit
    }
}

/// What a key does in a prompt with one line.
pub fn prompt_key(k: &Keystroke) -> (r: PromptKey)
    ensures
        r == prompt_key_of(k@),
{
    if k.is("escape") {
        PromptKey::Cancel
    } else if k.is("enter") {
        PromptKey::Submit
    } else {
        PromptKey::Edit
    }
}

// ── a new file ──────────────────────────────────────────────────────────────

/// The directory that a new file goes into: the directory the menu was opened on, or that of
/// the file, or the root.
pub fn new_file_dir(root: &FilePath, on: &Option<FilePath>, on_is_dir: bool) -> (r: FilePath)
    ensures
        r@ == match opt_path(*on) {
            Some(p) => if on_is_dir {
                p
            } else {
                match parent_of(p) {
                    Some(d) => d,
                    None => root@,
                }
            },
            None => root@,
        },
{
    match on {
        Some(p) => if on_is_dir {
            p.copy()
        } else {
            match p.parent() {
                Some(d) => d,
                None => root.copy(),
            }
        },
        None => root.copy(),
    }
}

/// The path of the new file, which may name directories too; none without a name.
pub fn new_file_path(dir: &FilePath, name: &str) -> (r: Option<FilePath>)
    ensures
        opt_path(r) == match content_of(name@) {
            Some(n) => Some(joined_path(dir@, path_of(n))),
            None => None,
        },
{
    match trimmed_content(name) {
        Some(n) => Some(dir.join_text(n.as_str())),
        None => None,
    }
}

/// What the prompt for a new file says.
pub fn new_file_label(root: &FilePath, dir: &FilePath) -> (r: String)
    ensures
        r@ == "New file in "@ + if rel_text(root@, dir@).len() == 0 {
            "."@
        } else {
            rel_text(root@, dir@)
        },
{
    let d = root.rel(dir);
    if d.as_str().is_empty() {
        cat("New file in ", ".")
    } else {
        cat("New file in ", d.as_str())
    }
}

// ── a new branch ────────────────────────────────────────────────────────────

/// The prompt for a new branch.
#[derive(Clone, Copy, Debug, PartialEq, Eq, Structural)]
pub struct BranchPrompt {
    pub open: bool,
    pub make_pr: bool,
}

/// The command that makes a branch: with a pull request it has to be pushed first.
pub open spec fn new_branch_command(name: Seq<char>, make_pr: bool) -> Option<Seq<char>> {
    match content_of(name) {
        Some(n) => Some(
            if make_pr {
                "br "@ + n + " && git push -u origin HEAD && pr"@
            } else {
                "br "@ + n
            },
        ),
        None => None,
    }
}

/// What a key does in a prompt that runs a command.
#[derive(Debug)]
pub enum RunKey {
    Cancel,
    Run(String),
    Changed,
    Edit,
    Nothing,
}

/// The command that such an action runs.
pub open spec fn run_key_command(k: RunKey) -> Option<Seq<char>> {
    match k {
        RunKey::Run(c) => Some(c@),
        _ => None,
    }
}

impl BranchPrompt {
    /// A closed prompt.
    pub fn new() -> (r: BranchPrompt)
        ensures
            r == (BranchPrompt { open: false, make_pr: false }),
    {
        BranchPrompt { open: false, make_pr: false }
    }

    /// Opens the prompt.
    pub fn show(&mut self)
        ensures
            *final(self) == (BranchPrompt { open: true, make_pr: false }),
    {
        self.open = true;
        self.make_pr = false;
    }

    /// A key in the prompt: tab turns the pull request on or off.
    pub fn br_key(&mut self, k: &Keystroke, name: &str) -> (r: RunKey)
        ensures
            ({
                let o = *old(self);
                if k@.key == "escape"@ {
                    r is Cancel && *final(self) == (BranchPrompt { open: false, ..o })
                } else if k@.key == "tab"@ {
                    r is Changed && *final(self) == (BranchPrompt { make_pr: !o.make_pr, ..o })
                } else if k@.key == "enter"@ {
                    &&& *final(self) == (BranchPrompt { open: false, ..o })
                    &&& run_key_command(r) == new_branch_command(name@, o.make_pr)
                    &&& r is Run || r is Nothing
                } else {
                    r is Edit && *final(self) == o
                }
            }),
    {
        if k.is("escape") {
            self.open = false;
            return RunKey::Cancel;
        }
        if k.is("tab") {
            self.make_pr = !self.make_pr;
            return RunKey::Changed;
        }
        if k.is("enter") {
            self.open = false;
            return match trimmed_content(name) {
                Some(n) => if self.make_pr {
                    RunKey::Run(cat3("br ", n.as_str(), " && git push -u origin HEAD && pr"))
                } else {
                    RunKey::Run(cat("br ", n.as_str()))
                },
                None => RunKey::Nothing,
            };
        }
        RunKey::Edit
    }
}

/// The command of the run prompt: what was typed, unless it is nothing.
pub fn typed_command(text: &str) -> (r: Option<String>)
    ensures
        opt_text(r) == content_of(text@),
{
    trimmed_content(text)
}

// ── a pull request ──────────────────────────────────────────────────────────

/// The prompt for a pull request: the open milestones and the highlighted one.
#[derive(Debug)]
pub struct PrPrompt {
    pub open: bool,
    pub milestones: Vec<String>,
    pub sel: usize,
}

/// The prompt as plain values.
pub ghost struct PrPromptView {
    pub open: bool,
    pub milestones: Seq<Seq<char>>,
    pub sel: usize,
}

impl View for PrPrompt {
    type V = PrPromptView;

    open spec fn view(&self) -> PrPromptView {
        PrPromptView { open: self.open, milestones: texts(self.milestones@), sel: self.sel }
    }
}

/// The milestones that hold what was typed; all of them where nothing was.
pub open spec fn suggestions(milestones: Seq<Seq<char>>, typed: Seq<char>) -> Seq<Seq<char>> {
    let q = lower(trimmed(typed));
    filter_map(
        milestones,
        |m: Seq<char>|
            if q.len() == 0 || occurs(lower(m), q) {
                Some(m)
            } else {
                None
            },
    )
}

/// The milestone that enter takes: the highlighted one, else what was typed.
pub open spec fn chosen_milestone(milestones: Seq<Seq<char>>, typed: Seq<char>, sel: int) -> Seq<char> {
    let s = suggestions(milestones, typed);
    if sel < s.len() {
        trimmed(s[sel])
    } else {
        trimmed(trimmed(typed))
    }
}

/// The command that makes a pull request, with a milestone where there is one.
pub open spec fn pr_command(milestone: Seq<char>) -> Seq<char> {
    if milestone.len() == 0 {
        "pr"@
    } else {
        "pr --ms "@ + milestone
    }
}

/// What a key does in the prompt for a pull request.
#[derive(Debug)]
pub enum PrKey {
    Cancel,
    Moved,
    /// Put this milestone into the box.
    Fill(String),
    /// Run the command; remember the milestone where there is one.
    Create { command: String, remember: Option<String> },
    Edit,
    Nothing,
}

impl PrPrompt {
    /// A closed prompt.
    pub fn new() -> (r: PrPrompt)
        ensures
            r@ == (PrPromptView { open: false, milestones: Seq::empty(), sel: 0 }),
    {
        let r = PrPrompt { open: false, milestones: Vec::new(), sel: 0 };
        assert(texts(r.milestones@) =~= Seq::<Seq<char>>::empty());
        r
    }

    /// Opens the prompt; its milestones come later.
    pub fn show(&mut self)
        ensures
            final(self)@ == (PrPromptView { open: true, milestones: Seq::empty(), sel: 0 }),
    {
        self.open = true;
        self.milestones = Vec::new();
        assert(texts(self.milestones@) =~= Seq::<Seq<char>>::empty());
        self.sel = 0;
    }

    /// The milestones have come; they count only while the prompt is open.
    pub fn loaded(&mut self, milestones: Vec<String>)
        ensures
            final(self)@ == if old(self)@.open {
                PrPromptView { milestones: texts(milestones@), ..old(self)@ }
            } else {
                old(self)@
            },
    {
        if self.open {
            self.milestones = milestones;
        }
    }

    /// The milestones that fit what was typed.
    pub fn suggest(&self, typed: &str) -> (r: Vec<String>)
        ensures
            texts(r@) == suggestions(self@.milestones, typed@),
    {
        let t = trim(typed);
        let q = t.as_str().to_lowercase();
        let ghost all = self@.milestones;
        let ghost f = |m: Seq<char>|
            if q@.len() == 0 || occurs(lower(m), q@) {
                Some(m)
            } else {
                None
            };
        let mut out: Vec<String> = Vec::new();
        let mut i: usize = 0;
        proof {
            lemma_filter_map_ends(all, f);
            assert(texts(out@) =~= Seq::<Seq<char>>::empty());
        }
        while i < self.milestones.len()
            invariant
                i <= self.milestones.len(),
                all == self@.milestones,
                f == (|m: Seq<char>|
                    if q@.len() == 0 || occurs(lower(m), q@) {
                        Some(m)
                    } else {
                        None
                    }),
                texts(out@) == filter_map(all.take(i as int), f),
            decreases self.milestones.len() - i,
        {
            proof {
                lemma_filter_map_step(all, f, i as int);
            }
            let low = self.milestones[i].as_str().to_lowercase();
            if q.as_str().is_empty() || contains(low.as_str(), q.as_str()) {
                let m = self.milestones[i].clone();
                proof {
                    lemma_texts_push(out@, m);
                }
                out.push(m);
            }
            i = i + 1;
        }
        assert(f =~= (|m: Seq<char>|
            if lower(trimmed(typed@)).len() == 0 || occurs(lower(m), lower(trimmed(typed@))) {
                Some(m)
            } else {
                None
            }));
        out
    }

    /// A key in the prompt: the arrows choose a suggestion, tab takes it into the box, enter
    /// makes the pull request.
    pub fn prc_key(&mut self, k: &Keystroke, typed: &str) -> (r: PrKey)
        ensures
            ({
                let key = k@.key;
                let o = old(self)@;
                let s = suggestions(o.milestones, typed@);
                if key == "escape"@ {
                    r is Cancel && final(self)@ == (PrPromptView { open: false, ..o })
                } else if key == "down"@ {
                    &&& r is Moved
                    &&& final(self)@ == (PrPromptView {
                        sel: if s.len() > 0 {
                            down_step(o.sel as int, s.len() as int) as usize
                        } else {
                            o.sel
                        },
                        ..o
                    })
                } else if key == "up"@ {
                    &&& r is Moved
                    &&& final(self)@ == (PrPromptView {
                        sel: if o.sel > 0 {
                            (o.sel - 1) as usize
                        } else {
                            0
                        },
                        ..o
                    })
                } else if key == "tab"@ {
                    &&& final(self)@ == o
                    &&& if o.sel < s.len() {
                        r is Fill && r->Fill_0@ == s[o.sel as int]
                    } else {
                        r is Nothing
                    }
                } else if key == "enter"@ {
                    let m = chosen_milestone(o.milestones, typed@, o.sel as int);
                    &&& final(self)@ == (PrPromptView { open: false, ..o })
                    &&& r is Create
                    &&& r->command@ == pr_command(m)
                    &&& opt_text(r->remember) == if m.len() == 0 {
                        None
                    } else {
                        Some(m)
                    }
                } else {
                    r is Edit && final(self)@ == o
                }
            }),
    {
        let s = self.suggest(typed);
        assert(texts(s@).len() == s.len());
        if k.is("escape") {
            self.open = false;
            return PrKey::Cancel;
        }
        if k.is("down") {
            if s.len() > 0 {
                self.sel = step_down(self.sel, s.len());
            }
            return PrKey::Moved;
        }
        if k.is("up") {
            self.sel = step_up(self.sel);
            return PrKey::Moved;
        }
        if k.is("tab") {
            if self.sel < s.len() {
                assert(texts(s@)[self.sel as int] == s@[self.sel as int]@);
                return PrKey::Fill(s[self.sel].clone());
            }
            return PrKey::Nothing;
        }
        if k.is("enter") {
            let m = if self.sel < s.len() {
                assert(texts(s@)[self.sel as int] == s@[self.sel as int]@);
                trim(s[self.sel].as_str())
            } else {
                let t = trim(typed);
                trim(t.as_str())
            };
            self.open = false;
            return if m.as_str().is_empty() {
                PrKey::Create { command: "pr".to_owned(), remember: None }
            } else {
                PrKey::Create { command: cat("pr --ms ", m.as_str()), remember: Some(m) }
            };
        }
        PrKey::Edit
    }

    /// What is typed has changed: the first of the suggestions that now fit is highlighted.
    pub fn retyped(&mut self)
        ensures
            final(self)@ == (PrPromptView { sel: 0, ..old(self)@ }),
    {
        self.sel = 0;
    }

    /// A click on a suggestion: the pull request is made with it.
    pub fn click_suggestion(&mut self, title: &str) -> (r: PrKey)
        ensures
            final(self)@ == (PrPromptView { open: false, ..old(self)@ }),
            r is Create,
            r->command@ == "pr --ms "@ + title@,
            opt_text(r->remember) == content_of(title@),
    {
        self.open = false;
        PrKey::Create { command: cat("pr --ms ", title), remember: trimmed_content(title) }
    }

    /// What the prompt says of its keys.
    pub fn hint(&self) -> (r: &'static str)
        ensures
            r@ == if self@.milestones.len() == 0 {
                "Enter to create · Esc to cancel"@
            } else {
                "↑↓ to pick · Tab to fill · Enter to create · Esc to cancel"@
            },
    {
        assert(self@.milestones.len() == self.milestones@.len());
        if self.milestones.len() == 0 {
            "Enter to create · Esc to cancel"
        } else {
            "↑↓ to pick · Tab to fill · Enter to create · Esc to cancel"
        }
    }
}

// ── a project ───────────────────────────────────────────────────────────────

/// The text of a typed path: a leading tilde stands for the home directory, where it is known.
pub open spec fn typed_path(raw: Seq<char>, home: Option<Seq<char>>) -> Option<Seq<char>> {
    match content_of(raw) {
        None => None,
        Some(t) => match (after_prefix(t, "~/"@), home) {
            (Some(rest), Some(h)) => Some(h + "/"@ + rest),
            _ => Some(t),
        },
    }
}

/// The path that was typed into the project dialog; none where nothing was typed.
pub fn project_path(raw: &str, home: Option<&str>) -> (r: Option<FilePath>)
    ensures
        opt_path(r) == match typed_path(raw@, opt_str(home)) {
            Some(t) => Some(path_of(t)),
            None => None,
        },
{
    match trimmed_content(raw) {
        None => None,
        Some(t) => {
            let text = match strip_prefix(t.as_str(), "~/") {
                Some(rest) => match home {
                    Some(h) => cat3(h, "/", rest.as_str()),
                    None => t,
                },
                None => t,
            };
            Some(FilePath::parse(text.as_str()))
        },
    }
}

/// The folder that was picked: without the slash behind it. None where none was picked.
pub fn picked_folder(stdout: &str) -> (r: Option<String>)
    ensures
        opt_text(r) == match content_of(stdout@) {
            Some(p) => Some(without_trailing(p, '/')),
            None => None,
        },
{
    match trimmed_content(stdout) {
        Some(p) => Some(trim_end_char(p.as_str(), '/')),
        None => None,
    }
}

// ── an address ──────────────────────────────────────────────────────────────

/// What stands before the first slash or colon.
pub open spec fn url_host(s: Seq<char>) -> Seq<char> {
    pieces(pieces(s, '/')[0], ':')[0]
}

/// One part of a dotted address: one to three digits, at most 255, and no zero in front.
pub open spec fn is_octet(s: Seq<char>) -> bool {
    &&& 1 <= s.len() <= 3
    &&& digits_value(s) is Some
    &&& digits_value(s)->0 <= 255
    &&& s.len() > 1 ==> s[0] != '0'
}

/// Four such parts between dots.
pub open spec fn is_ipv4(s: Seq<char>) -> bool {
    let p = pieces(s, '.');
    p.len() == 4 && is_octet(p[0]) && is_octet(p[1]) && is_octet(p[2]) && is_octet(p[3])
}

/// A dotted address of this machine.
pub open spec fn is_loopback(s: Seq<char>) -> bool {
    is_ipv4(s) && pieces(s, '.')[0] == "127"@
}

/// A port alone, with or without the colon before it.
pub open spec fn is_port(s: Seq<char>) -> bool {
    let p = pieces(pieces(s, '/')[0], ':');
    (p.len() > 1 && p[0].len() == 0) || (p.len() == 1 && p[0].len() > 0 && digits_value(
        p[0],
    ) is Some)
}

/// An address with its scheme: this machine and a port alone get http, any other host https;
/// nothing is a blank page.
pub open spec fn full_url(s: Seq<char>) -> Seq<char> {
    let t = trimmed(s);
    if t.len() == 0 {
        "about:blank"@
    } else if occurs(t, "://"@) {
        t
    } else if url_host(t) == "localhost"@ || is_loopback(url_host(t)) || is_port(t) {
        "http://"@ + t
    } else {
        "https://"@ + t
    }
}

fn octet(s: &str) -> (r: bool)
    ensures
        r == is_octet(s@),
{
    let v = chars_of(s);
    let n: usize = v.len();
    if n < 1 || n > 3 {
        return false;
    }
    if n > 1 && v[0] == '0' {
        return false;
    }
    if v[0] == '+' {
        proof {
            lemma_nondigit(s@, 0);
        }
        return false;
    }
    match parse_number(s, 255) {
        Some(_) => true,
        None => false,
    }
}

/// Gives an address its scheme.
pub fn normalize_url(s: &str) -> (r: String)
    ensures
        r@ == full_url(s@),
{
    let t = trim(s);
    if t.as_str().is_empty() {
        return "about:blank".to_owned();
    }
    if contains(t.as_str(), "://") {
        return t;
    }
    let a = split(t.as_str(), '/');
    proof {
        lemma_pieces_nonempty(t@, '/');
        assert(texts(a@)[0] == a@[0]@);
        assert(texts(a@).len() == a.len());
    }
    let b = split(a[0].as_str(), ':');
    proof {
        lemma_pieces_nonempty(a@[0]@, ':');
        assert(texts(b@)[0] == b@[0]@);
        assert(texts(b@).len() == b.len());
    }
    let host = b[0].as_str();
    let p = split(host, '.');
    assert(texts(p@).len() == p.len());
    let loopback = if p.len() == 4 {
        proof {
            assert(texts(p@)[0] == p@[0]@);
            assert(texts(p@)[1] == p@[1]@);
            assert(texts(p@)[2] == p@[2]@);
            assert(texts(p@)[3] == p@[3]@);
        }
        same(p[0].as_str(), "127") && octet(p[0].as_str()) && octet(p[1].as_str()) && octet(
            p[2].as_str(),
        ) && octet(p[3].as_str())
    } else {
        false
    };
    let port = if b.len() > 1 {
        host.is_empty()
    } else {
        all_digits(host)
    };
    if same(host, "localhost") || loopback || port {
        cat("http://", t.as_str())
    } else {
        cat("https://", t.as_str())
    }
}

// ── recent projects ─────────────────────────────────────────────────────────

/// How many recent projects are offered.
pub const SHOWN_RECENTS: usize = 10;

/// The name of a project and the directory it is in, as they are listed.
pub open spec fn recent_label(p: PathView) -> (Seq<char>, Seq<char>) {
    (
        name_or_empty(p),
        match parent_of(p) {
            Some(d) => path_text(d),
            None => Seq::empty(),
        },
    )
}

/// The recent projects that are offered: the first ones.
pub fn recent_rows(recents: &Vec<FilePath>) -> (r: Vec<(String, String)>)
    ensures
        r@.len() == if recents@.len() < SHOWN_RECENTS {
            recents@.len()
        } else {
            SHOWN_RECENTS as nat
        },
        forall|i: int|
            0 <= i < r@.len() ==> ((#[trigger] r@[i]).0@, r@[i].1@) == recent_label(recents@[i]@),
{
    let mut out: Vec<(String, String)> = Vec::new();
    let mut i: usize = 0;
    while i < recents.len() && i < SHOWN_RECENTS
        invariant
            i <= recents.len(),
            i <= SHOWN_RECENTS,
            out.len() == i,
            forall|j: int|
                0 <= j < i ==> ((#[trigger] out@[j]).0@, out@[j].1@) == recent_label(recents@[j]@),
        decreases recents.len() - i,
    {
        let dir = match recents[i].parent() {
            Some(d) => d.to_text(),
            None => {
                let e = String::new();
                assert(e@ =~= Seq::<char>::empty());
                e
            },
        };
        out.push((recents[i].file_name_text(), dir));
        i = i + 1;
    }
    out
}

/// What a key does in the box that filters a list.
#[derive(Clone, Copy, Debug, PartialEq, Eq, Structural)]
pub enum FilterKey {
    Clear,
    Edit,
}

/// Escape clears the filter of a list.
pub fn filter_key(k: &Keystroke) -> (r: FilterKey)
    ensures
        r == if k@.key == "escape"@ {
            FilterKey::Clear
        } else {
            FilterKey::Edit
        },
{
    if k.is("escape") {
        FilterKey::Clear
    } else {
        FilterKey::Edit
    }
}

// ── what prompts make of what is typed ──────────────────────────────────────

/// A branch is made under the typed name, and where a pull request is wanted it is pushed and the
/// request made behind it; nothing is done without a name.
pub proof fn branches_are_made_by_name(name: Seq<char>)
    ensures
        trimmed(name).len() > 0 ==> new_branch_command(name, false) == Some("br "@ + trimmed(name)),
        trimmed(name).len() > 0 ==> new_branch_command(name, true) == Some("br "@ + trimmed(name) + " && git push -u origin HEAD && pr"@),
        trimmed(name).len() == 0 ==> new_branch_command(name, false) is None && new_branch_command(name, true) is None,
{
}

/// A milestone is suggested exactly where it holds what was typed, upper and lower case alike; where
/// nothing was typed all are.
pub proof fn milestones_are_suggested(v: Seq<Seq<char>>, m: Seq<char>, typed: Seq<char>)
    ensures
        suggestions(v.push(m), typed) == if lower(trimmed(typed)).len() == 0 || occurs(lower(m), lower(trimmed(typed))) {
            suggestions(v, typed).push(m)
        } else {
            suggestions(v, typed)
        },
        suggestions(Seq::empty(), typed).len() == 0,
{
    assert(v.push(m).drop_last() =~= v);
}

/// Enter takes the highlighted milestone, and what was typed where none is; the command names it
/// where there is one.
pub proof fn the_highlighted_milestone_is_taken(v: Seq<Seq<char>>, typed: Seq<char>, sel: int)
    ensures
        0 <= sel < suggestions(v, typed).len() ==> chosen_milestone(v, typed, sel) == trimmed(suggestions(v, typed)[sel]),
        sel >= suggestions(v, typed).len() ==> chosen_milestone(v, typed, sel) == trimmed(typed),
        pr_command(Seq::empty()) == "pr"@,
        typed.len() > 0 ==> pr_command(typed) == "pr --ms "@ + typed,
{
    trimming_is_idempotent(typed);
}

/// A typed path stands for itself; a tilde in front stands for the home directory.
pub proof fn a_tilde_stands_for_home(rest: Seq<char>, home: Seq<char>)
    requires
        trimmed("~/"@ + rest) == "~/"@ + rest,
    ensures
        typed_path("~/"@ + rest, Some(home)) == Some(home + "/"@ + rest),
        typed_path("~/"@ + rest, None) == Some("~/"@ + rest),
        trimmed(rest) == rest && rest.len() > 0 && !begins(rest, "~/"@) ==> typed_path(rest, Some(home)) == Some(rest),
        typed_path(Seq::empty(), Some(home)) is None,
{
    reveal_strlit("~/");
    let t = "~/"@ + rest;
    assert(t.take(2) =~= "~/"@);
    assert(t.skip(2) =~= rest);
    assert(trimmed(Seq::<char>::empty()).len() == 0);
}

/// An address with a scheme stays; any other gets one: http for this machine, https for a host
/// elsewhere.
pub proof fn addresses_get_a_scheme(t: Seq<char>)
    requires
        trimmed(t) == t,
        t.len() > 0,
    ensures
        occurs(t, "://"@) ==> full_url(t) == t,
        !occurs(t, "://"@) ==> full_url(t) == "http://"@ + t || full_url(t) == "https://"@ + t,
        !occurs(t, "://"@) && !t.contains('/') && !t.contains(':') && t == "localhost"@ ==> full_url(t) == "http://"@ + t,
        !occurs(t, "://"@) && !t.contains('/') && !t.contains(':') && t != "localhost"@ && !is_ipv4(t) && digits_value(t) is None ==> full_url(t) == "https://"@ + t,
        !occurs(t, "://"@) && !t.contains('/') && !t.contains(':') && digits_value(t) is Some ==> full_url(t) == "http://"@ + t,
        full_url(Seq::empty()) == "about:blank"@,
{
    assert(trimmed(Seq::<char>::empty()).len() == 0);
    let one = seq![t];
    assert(one.drop_last() =~= Seq::<Seq<char>>::empty());
    assert(joined(one, seq!['/']) =~= t);
    assert(joined(one, seq![':']) =~= t);
    if !t.contains('/') {
        split_undoes_join(one, '/');
    }
    if !t.contains(':') {
        split_undoes_join(one, ':');
    }
}

/// An address of four numbers up to 255 that begins with 127 is this machine; with another number it
/// is elsewhere.
pub proof fn loopback_begins_with_127(a: Seq<char>, b: Seq<char>, c: Seq<char>, d: Seq<char>)
    requires
        is_octet(a),
        is_octet(b),
        is_octet(c),
        is_octet(d),
    ensures
        is_ipv4(a + seq!['.'] + b + seq!['.'] + c + seq!['.'] + d),
        is_loopback(a + seq!['.'] + b + seq!['.'] + c + seq!['.'] + d) <==> a == "127"@,
{
    let v = seq![a, b, c, d];
    assert forall|i: int| 0 <= i < v.len() implies !(#[trigger] v[i]).contains('.') by {
        if v[i].contains('.') {
            let k = choose|k: int| 0 <= k < v[i].len() && v[i][k] == '.';
            lemma_nondigit(v[i], k);
        }
    }
    split_undoes_join(v, '.');
    assert(v.drop_last() =~= seq![a, b, c]);
    assert(v.drop_last().drop_last() =~= seq![a, b]);
    assert(v.drop_last().drop_last().drop_last() =~= seq![a]);
    assert(seq![a].drop_last() =~= Seq::<Seq<char>>::empty());
    assert(joined(seq![a], seq!['.']) =~= a);
    assert(joined(seq![a, b], seq!['.']) =~= a + seq!['.'] + b);
    assert(joined(seq![a, b, c], seq!['.']) =~= a + seq!['.'] + b + seq!['.'] + c);
    assert(joined(v, seq!['.']) =~= a + seq!['.'] + b + seq!['.'] + c + seq!['.'] + d);
}

/// In a prompt escape cancels and enter submits; anything else is typed.
pub proof fn keys_of_a_prompt(k: KeyView)
    ensures
        k.key == "escape"@ ==> prompt_key_of(k) == PromptKey::Cancel,
        k.key == "enter"@ ==> prompt_key_of(k) == PromptKey::Submit,
        k.key.len() == 1 ==> prompt_key_of(k) == PromptKey::Edit,
{
    reveal_strlit("escape");
    reveal_strlit("enter");
    assert("escape"@.len() == 6 && "enter"@.len() == 5);
}

/// A recent project is listed by its name and by the directory it is in.
pub proof fn recents_are_listed_by_name(d: PathView, n: Seq<char>)
    requires
        n != seq!['.', '.'] && n != seq!['.'],
    ensures
        recent_label(PathView { abs: d.abs, parts: d.parts.push(n) }) == (n, path_text(d)),
{
    let p = PathView { abs: d.abs, parts: d.parts.push(n) };
    assert(p.parts.drop_last() =~= d.parts);
    assert(p.parts.last() == n);
}

} // verus!
