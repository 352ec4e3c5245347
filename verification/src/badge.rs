//! Small signs for files: the badge of an extension and the colour of a state.
use vstd::prelude::*;
use crate::diff::Run;
use crate::git::GitState;
use crate::path::{FilePath, PathView, extension_of};
use crate::pr::Check;
use crate::term::Terminal;
use crate::text::same;
use crate::theme::{GIT_DELETED, GIT_MODIFIED, GIT_NEW};

verus! {

/// The sign and the colour of a file extension.
pub open spec fn badge_of(ext: Seq<char>) -> (Seq<char>, u32) {
    if ext == "ts"@ || ext == "tsx"@ {
        ("ts"@, 0x3178c6)
    } else if ext == "js"@ || ext == "jsx"@ || ext == "mjs"@ || ext == "cjs"@ {
        ("js"@, 0xf1e05a)
    } else if ext == "rs"@ {
        ("rs"@, 0xdea584)
    } else if ext == "json"@ {
        ("{}"@, 0xcbcb41)
    } else if ext == "md"@ {
        ("md"@, 0x9aa5ce)
    } else if ext == "toml"@ || ext == "yaml"@ || ext == "yml"@ {
        ("cfg"@, 0x6d8086)
    } else if ext == "css"@ || ext == "scss"@ {
        ("css"@, 0x563d7c)
    } else if ext == "html"@ {
        ("<>"@, 0xe34c26)
    } else if ext == "sh"@ || ext == "zsh"@ || ext == "bash"@ {
        ("sh"@, 0x89e051)
    } else if ext == "lock"@ {
        ("lk"@, 0x565f89)
    } else {
        ("·"@, 0x565f89)
    }
}

/// The sign and the colour of a file.
pub open spec fn file_badge(p: PathView) -> (Seq<char>, u32) {
    badge_of(
        match extension_of(p) {
            Some(e) => e,
            None => ""@,
        },
    )
}

fn ext_sign(ext: &str) -> (r: (&'static str, u32))
    ensures
        (r.0@, r.1) == badge_of(ext@),
{
    if same(ext, "ts") || same(ext, "tsx") {
        ("ts", 0x3178c6)
    } else if same(ext, "js") || same(ext, "jsx") || same(ext, "mjs") || same(ext, "cjs") {
        ("js", 0xf1e05a)
    } else if same(ext, "rs") {
        ("rs", 0xdea584)
    } else if same(ext, "json") {
        ("{}", 0xcbcb41)
    } else if same(ext, "md") {
        ("md", 0x9aa5ce)
    } else if same(ext, "toml") || same(ext, "yaml") || same(ext, "yml") {
        ("cfg", 0x6d8086)
    } else if same(ext, "css") || same(ext, "scss") {
        ("css", 0x563d7c)
    } else if same(ext, "html") {
        ("<>", 0xe34c26)
    } else if same(ext, "sh") || same(ext, "zsh") || same(ext, "bash") {
        ("sh", 0x89e051)
    } else if same(ext, "lock") {
        ("lk", 0x565f89)
    } else {
        ("·", 0x565f89)
    }
}

/// A short coloured sign for a file's extension.
pub fn ext_badge(path: &FilePath) -> (r: (String, u32))
    ensures
        (r.0@, r.1) == file_badge(path@),
{
    let e = match path.extension() {
        Some(e) => e,
        None => "".to_owned(),
    };
    let b = ext_sign(e.as_str());
    (b.0.to_owned(), b.1)
}

/// The colour of a file's name by its state.
pub open spec fn state_color(s: GitState) -> u32 {
    match s {
        GitState::New => GIT_NEW,
        GitState::Modified => GIT_MODIFIED,
        GitState::Deleted => GIT_DELETED,
    }
}

/// The colour of a file's name by its state.
pub fn git_color(s: GitState) -> (r: u32)
    ensures
        r == state_color(s),
{
    match s {
        GitState::New => GIT_NEW,
        GitState::Modified => GIT_MODIFIED,
        GitState::Deleted => GIT_DELETED,
    }
}

/// The colour of a file in the pull request tree: added files blue, modified ones green,
/// deleted ones grey.
pub open spec fn review_color(s: GitState) -> u32 {
    match s {
        GitState::New => 0x569cd6,
        GitState::Modified => 0x73c991,
        GitState::Deleted => 0x858585,
    }
}

/// The colour of a file in the pull request tree.
pub fn pr_status_color(s: GitState) -> (r: u32)
    ensures
        r == review_color(s),
{
    match s {
        GitState::New => 0x569cd6,
        GitState::Modified => 0x73c991,
        GitState::Deleted => 0x858585,
    }
}

/// The glyphs of the icon font.
#[derive(Clone, Copy, Debug, PartialEq, Eq, Structural)]
pub enum Icon {
    Commit,
    Push,
    Pr,
    Home,
    Tools,
    Add,
    Branch,
    Search,
    Files,
    Scm,
    Terminal,
    Run,
    Folder,
    Copy,
    Check,
    Trash,
    Browser,
}

impl Icon {
    /// The character of an icon.
    pub open spec fn glyph_of(self) -> char {
        match self {
            Icon::Commit => '\u{eafc}',
            Icon::Push => '\u{eb41}',
            Icon::Pr => '\u{ea64}',
            Icon::Home => '\u{eb06}',
            Icon::Tools => '\u{eb6d}',
            Icon::Add => '\u{ea60}',
            Icon::Branch => '\u{ec6f}',
            Icon::Search => '\u{ea6d}',
            Icon::Files => '\u{eaf0}',
            Icon::Scm => '\u{ea68}',
            Icon::Terminal => '\u{ea85}',
            Icon::Run => '\u{eb2c}',
            Icon::Folder => '\u{ea83}',
            Icon::Copy => '\u{ebcc}',
            Icon::Check => '\u{eab2}',
            Icon::Trash => '\u{ea81}',
            Icon::Browser => '\u{eb48}',
        }
    }

    /// The character of an icon.
    pub fn glyph(self) -> (r: char)
        ensures
            r == self.glyph_of(),
    {
        match self {
            Icon::Commit => '\u{eafc}',
            Icon::Push => '\u{eb41}',
            Icon::Pr => '\u{ea64}',
            Icon::Home => '\u{eb06}',
            Icon::Tools => '\u{eb6d}',
            Icon::Add => '\u{ea60}',
            Icon::Branch => '\u{ec6f}',
            Icon::Search => '\u{ea6d}',
            Icon::Files => '\u{eaf0}',
            Icon::Scm => '\u{ea68}',
            Icon::Terminal => '\u{ea85}',
            Icon::Run => '\u{eb2c}',
            Icon::Folder => '\u{ea83}',
            Icon::Copy => '\u{ebcc}',
            Icon::Check => '\u{eab2}',
            Icon::Trash => '\u{ea81}',
            Icon::Browser => '\u{eb48}',
        }
    }

    /// An icon as a text.
    pub fn glyph_text(self) -> (r: String)
        ensures
            r@ == seq![self.glyph_of()],
    {
        let mut s = String::new();
        s.push(self.glyph());
        assert(s@ =~= seq![self.glyph_of()]);
        s
    }
}

// ── progress ────────────────────────────────────────────────────────────────

/// The part of a colour that grows with the progress, in thousandths of a step: from 57.375 to
/// 197.625.
pub open spec fn rising_part(pct: int) -> int {
    57375 + 2805 * pct
}

/// A part of a colour, rounded.
pub open spec fn whole_part(thousandths: int) -> int {
    (thousandths + 500) / 1000
}

/// How much red the bar of a progress in per cent has: all of it up to the half, then ever less.
pub open spec fn progress_red(pct: int) -> int {
    if pct <= 50 {
        198
    } else if pct <= 100 {
        whole_part(rising_part(100 - pct))
    } else {
        57
    }
}

/// How much green it has: ever more up to the half, then all of it.
pub open spec fn progress_green(pct: int) -> int {
    if pct <= 50 {
        whole_part(rising_part(pct))
    } else {
        198
    }
}

/// The colour of a progress bar: from red over yellow to green.
pub fn progress_color(pct: usize) -> (r: u32)
    ensures
        r == progress_red(pct as int) * 0x10000 + progress_green(pct as int) * 0x100 + 57,
        r <= 0xffffff,
{
    let p: u32 = if pct > 100 {
        100
    } else {
        pct as u32
    };
    let red: u32 = if p <= 50 {
        198
    } else {
        (57375 + 2805 * (100 - p) + 500) / 1000
    };
    let green: u32 = if p <= 50 {
        (57375 + 2805 * p + 500) / 1000
    } else {
        198
    };
    red * 0x10000 + green * 0x100 + 57
}

/// With more progress a bar is never redder nor less green.
pub proof fn progress_turns_green(a: int, b: int)
    requires
        0 <= a <= b,
    ensures
        progress_red(a) >= progress_red(b),
        progress_green(a) <= progress_green(b),
{
}

/// A badge goes by the extension of a file, and kindred extensions share one.
pub proof fn badges_go_by_the_extension(e: Seq<char>)
    ensures
        e == "rs"@ ==> badge_of(e) == ("rs"@, 0xdea584u32),
        e == "ts"@ || e == "tsx"@ ==> badge_of(e) == ("ts"@, 0x3178c6u32),
        e == "js"@ || e == "jsx"@ || e == "mjs"@ || e == "cjs"@ ==> badge_of(e).0 == badge_of("js"@).0 && badge_of(e).1 == badge_of("js"@).1,
        e == "css"@ || e == "scss"@ ==> badge_of(e).0 == badge_of("css"@).0,
        e == "toml"@ || e == "yaml"@ || e == "yml"@ ==> badge_of(e).0 == badge_of("toml"@).0,
        e == "sh"@ || e == "zsh"@ || e == "bash"@ ==> badge_of(e).0 == badge_of("sh"@).0,
        e.len() > 5 ==> badge_of(e) == ("·"@, 0x565f89u32),
{
    reveal_strlit("rs");
    reveal_strlit("ts");
    reveal_strlit("tsx");
    reveal_strlit("js");
    reveal_strlit("jsx");
    reveal_strlit("mjs");
    reveal_strlit("cjs");
    reveal_strlit("json");
    reveal_strlit("md");
    reveal_strlit("toml");
    reveal_strlit("yaml");
    reveal_strlit("yml");
    reveal_strlit("css");
    reveal_strlit("scss");
    reveal_strlit("html");
    reveal_strlit("sh");
    reveal_strlit("zsh");
    reveal_strlit("bash");
    reveal_strlit("lock");
    assert("rs"@[0] == 'r' && "ts"@[0] == 't' && "js"@[0] == 'j' && "md"@[0] == 'm' && "sh"@[0] == 's');
    assert("css"@[0] == 'c' && "css"@[1] == 's' && "cjs"@[1] == 'j' && "mjs"@[0] == 'm' && "jsx"@[0] == 'j' && "tsx"@[0] == 't' && "yml"@[0] == 'y' && "zsh"@[0] == 'z');
    assert("toml"@[0] == 't' && "json"@[0] == 'j' && "yaml"@[0] == 'y' && "html"@[0] == 'h' && "lock"@[0] == 'l' && "scss"@[0] == 's' && "bash"@[0] == 'b');
}

/// New files are green, modified ones blue and deleted ones red; in a review added files are blue,
/// modified ones green and deleted ones grey.
pub proof fn states_have_their_colours()
    ensures
        state_color(GitState::New) == 0x6aaf6a && state_color(GitState::Modified) == 0x5b9bd5 && state_color(GitState::Deleted) == 0xc75450,
        review_color(GitState::New) == 0x569cd6 && review_color(GitState::Modified) == 0x73c991 && review_color(GitState::Deleted) == 0x858585,
{
}

/// The bar goes from red over yellow to green: red never grows and green never shrinks, there is
/// as much red at a share as green at what is missing to it, and at the half there is as much of both.
pub proof fn the_bar_goes_from_red_to_green(p: int, q: int)
    requires
        0 <= p <= q <= 100,
    ensures
        progress_red(p) >= progress_red(q) && progress_green(p) <= progress_green(q),
        progress_red(p) == progress_green(100 - p),
        progress_red(0) == 198 && progress_green(0) == 57 && progress_red(100) == 57 && progress_green(100) == 198,
        progress_red(50) == 198 && progress_green(50) == 198,
{
}

} // verus!
