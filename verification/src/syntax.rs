//! Syntax highlighting of whole files, line by line.
use vstd::prelude::*;
use syntect::easy::HighlightLines;
use syntect::highlighting::Theme;
use syntect::parsing::{SyntaxReference, SyntaxSet};
use two_face::theme::EmbeddedThemeName;
use crate::diff::{Run, char_count, run_total, runs_total_is};
use crate::path::{FilePath, PathView, extension_of, name_of};
use crate::text::{byte_len, pieces, split, texts, utf8_len};
use crate::theme::TEXT;

verus! {

/// syntect's set of syntax definitions.
#[verifier::external_type_specification]
#[verifier::external_body]
pub struct ExSyntaxSet(SyntaxSet);

/// One syntax definition of such a set.
#[verifier::external_type_specification]
#[verifier::external_body]
pub struct ExSyntaxReference(SyntaxReference);

/// syntect's colour theme.
#[verifier::external_type_specification]
#[verifier::external_body]
pub struct ExTheme(Theme);

/// syntect's highlighter of the lines of one file.
#[verifier::external_type_specification]
#[verifier::external_body]
pub struct ExHighlightLines<'a>(HighlightLines<'a>);

/// syntect's error.
#[verifier::external_type_specification]
#[verifier::external_body]
pub struct ExSyntectError(syntect::Error);

/// One piece of a highlighted line: its colour and its length in bytes.
#[derive(Clone, Copy, Debug, PartialEq, Eq, Structural)]
pub struct StylePiece {
    pub r: u8,
    pub g: u8,
    pub b: u8,
    pub len: usize,
}

/// Whether a set is the one that `two_face::syntax::extra_no_newlines` loads.
pub uninterp spec fn embedded(set: SyntaxSet) -> bool;

/// Whether a theme is the one that `two_face::theme::extra` gives for `TwoDark`.
pub uninterp spec fn dark(theme: Theme) -> bool;

/// What `SyntaxSet::find_syntax_by_extension` finds.
pub uninterp spec fn syntax_by_extension(set: SyntaxSet, token: Seq<char>) -> Option<SyntaxReference>;

/// What `SyntaxSet::find_syntax_by_name` finds.
pub uninterp spec fn syntax_by_name(set: SyntaxSet, name: Seq<char>) -> Option<SyntaxReference>;

/// The syntax and the theme that a line highlighter was made with, and the lines it was
/// given so far, each with the set it was given beside it.
pub uninterp spec fn line_history(h: HighlightLines<'_>) -> (SyntaxReference, Theme, Seq<(SyntaxSet, Seq<char>)>);

/// What `HighlightLines::highlight_line` makes of a line after that history; None stands
/// for its error.
pub uninterp spec fn styled_line(
    history: (SyntaxReference, Theme, Seq<(SyntaxSet, Seq<char>)>),
    set: SyntaxSet,
    line: Seq<char>,
) -> Option<Seq<StylePiece>>;

/// Whether the syntax is one that the set gave out.
pub open spec fn from_set(set: SyntaxSet, s: SyntaxReference) -> bool {
    (exists|t: Seq<char>| #[trigger] syntax_by_extension(set, t) == Some(s)) || (exists|n: Seq<char>|
        #[trigger] syntax_by_name(set, n) == Some(s))
}

/// The longest line that is highlighted, in characters. A syntax can look for text that an
/// earlier pattern caught, such as the word that ends a heredoc, up to three times in one
/// pattern. That text is then a part of the pattern, where its copies together take less than a
/// thousand bytes for each character of the ten megabytes that a compiled pattern may take: so it
/// must not grow without bound.
pub const LINE_LIMIT: usize = 10000;

/// Whether a line is short enough to be highlighted.
pub open spec fn short_line(l: Seq<char>) -> bool {
    l.len() <= LINE_LIMIT
}

/// Whether a highlighter with that history can be given a line beside that set: the set is the
/// embedded one and gave out the syntax, and the line and those before it are short.
pub open spec fn can_style(
    history: (SyntaxReference, Theme, Seq<(SyntaxSet, Seq<char>)>),
    set: SyntaxSet,
    line: Seq<char>,
) -> bool {
    &&& embedded(set)
    &&& from_set(set, history.0)
    &&& short_line(line)
    &&& forall|i: int|
        0 <= i < history.2.len() ==> (#[trigger] history.2[i]).0 == set && short_line(history.2[i].1)
}

/// What an optional reference points at.
pub open spec fn opt_syntax(o: Option<&SyntaxReference>) -> Option<SyntaxReference> {
    match o {
        Some(s) => Some(*s),
        None => None,
    }
}

/// `two_face::syntax::extra_no_newlines` loads the syntaxes embedded in that crate, for
/// lines without their newline. What they are is not stated.
#[verifier::external_body]
fn load_syntaxes() -> (r: SyntaxSet)
    ensures
        embedded(r),
{
    two_face::syntax::extra_no_newlines()
}

/// `two_face::theme::extra` and its `get` load the dark theme embedded in that crate.
/// What its colours are is not stated.
#[verifier::external_body]
fn load_theme() -> (r: Theme)
    ensures
        dark(r),
{
    two_face::theme::extra().get(EmbeddedThemeName::TwoDark).clone()
}

/// `SyntaxSet::find_syntax_by_extension` looks for a syntax with that file extension. The
/// answer depends on the set and the token alone.
#[verifier::external_body]
fn find_by_extension<'a>(set: &'a SyntaxSet, token: &str) -> (r: Option<&'a SyntaxReference>)
    ensures
        opt_syntax(r) == syntax_by_extension(*set, token@),
{
    set.find_syntax_by_extension(token)
}

/// `SyntaxSet::find_syntax_by_name` looks for a syntax with that name. The answer depends
/// on the set and the name alone.
#[verifier::external_body]
fn find_by_name<'a>(set: &'a SyntaxSet, name: &str) -> (r: Option<&'a SyntaxReference>)
    ensures
        opt_syntax(r) == syntax_by_name(*set, name@),
{
    set.find_syntax_by_name(name)
}

/// `HighlightLines::new` makes a line highlighter that has seen no line yet. It looks up where
/// the syntax starts and panics where that is missing: every syntax of the embedded set has it,
/// another one need not.
#[verifier::external_body]
fn start_lines<'a>(set: &SyntaxSet, syntax: &SyntaxReference, theme: &'a Theme) -> (r: HighlightLines<'a>)
    requires
        embedded(*set),
        from_set(*set, *syntax),
    ensures
        line_history(r) == (*syntax, *theme, Seq::<(SyntaxSet, Seq<char>)>::empty()),
{
    HighlightLines::new(syntax, theme)
}

/// `HighlightLines::highlight_line` splits a line into pieces with a style each. The
/// result depends on the line, the set and what the highlighter was given before. The set has to
/// be the one that holds the syntax, or the call may panic. It panics too where a pattern that
/// is made of text from this line or one before grows too large, so these lines have to be short.
#[verifier::external_body]
fn style_line(h: &mut HighlightLines<'_>, line: &str, set: &SyntaxSet) -> (r: Result<
    Vec<StylePiece>,
    syntect::Error,
>)
    requires
        can_style(line_history(*old(h)), *set, line@),
    ensures
        match r {
            Ok(v) => styled_line(line_history(*old(h)), *set, line@) == Some(v@),
            Err(_) => styled_line(line_history(*old(h)), *set, line@) is None,
        },
        line_history(*final(h)) == (
            line_history(*old(h)).0,
            line_history(*old(h)).1,
            line_history(*old(h)).2.push((*set, line@)),
        ),
{
    h.highlight_line(line, set).map(
        |v|
            v.iter().map(
                |p|
                    StylePiece {
                        r: p.0.foreground.r,
                        g: p.0.foreground.g,
                        b: p.0.foreground.b,
                        len: p.1.len(),
                    },
            ).collect(),
    )
}

/// A colour packed as 0xRRGGBB.
pub open spec fn packed(r: u8, g: u8, b: u8) -> u32 {
    (r * 65536 + g * 256 + b) as u32
}

/// Packs a colour as 0xRRGGBB.
pub fn pack_rgb(r: u8, g: u8, b: u8) -> (c: u32)
    ensures
        c == packed(r, g, b),
{
    let x: u32 = r as u32;
    let y: u32 = g as u32;
    let z: u32 = b as u32;
    assert(((x << 16u32) | (y << 8u32)) | z == x * 65536 + y * 256 + z) by (bit_vector)
        requires
            x < 256,
            y < 256,
            z < 256,
    ;
    ((x << 16u32) | (y << 8u32)) | z
}

/// The runs of the first pieces of a line.
pub open spec fn piece_runs(v: Seq<StylePiece>) -> Seq<Run> {
    v.map_values(|p: StylePiece| (p.len, packed(p.r, p.g, p.b)))
}

/// The runs of a line of `len` bytes: those of its pieces where they cover it exactly,
/// else one plain run.
pub open spec fn line_runs_of(styled: Option<Seq<StylePiece>>, len: nat) -> Seq<Run> {
    match styled {
        Some(v) if run_total(piece_runs(v)) == len => piece_runs(v),
        _ => if len == 0 {
            Seq::empty()
        } else {
            seq![(len as usize, TEXT)]
        },
    }
}

/// The runs of a line of `len` bytes, given what the highlighter made of it.
pub fn line_runs(styled: Option<&Vec<StylePiece>>, len: usize) -> (r: Vec<Run>)
    ensures
        r@ == line_runs_of(
            match styled {
                Some(v) => Some(v@),
                None => None,
            },
            len as nat,
        ),
{
    let mut out: Vec<Run> = Vec::new();
    if let Some(v) = styled {
        let ghost all = piece_runs(v@);
        let mut i: usize = 0;
        assert(out@ =~= all.take(0));
        while i < v.len()
            invariant
                i <= v.len(),
                all == piece_runs(v@),
                out@ == all.take(i as int),
            decreases v.len() - i,
        {
            let p = v[i];
            let run: Run = (p.len, pack_rgb(p.r, p.g, p.b));
            proof {
                assert(all[i as int] == run);
                assert(all.take(i + 1) =~= all.take(i as int).push(run));
            }
            out.push(run);
            i = i + 1;
        }
        assert(all.take(all.len() as int) =~= all);
        if runs_total_is(&out, len) {
            return out;
        }
    }
    let mut plain: Vec<Run> = Vec::new();
    if len > 0 {
        plain.push((len, TEXT));
        assert(plain@ =~= seq![(len, TEXT)]);
    } else {
        assert(plain@ =~= Seq::<Run>::empty());
    }
    plain
}

/// The lengths of a line's runs add up to its length.
pub proof fn runs_sum_to_the_line(styled: Option<Seq<StylePiece>>, len: nat)
    requires
        len <= usize::MAX,
    ensures
        run_total(line_runs_of(styled, len)) == len,
{
    let one: Seq<Run> = seq![(len as usize, TEXT)];
    assert(one.drop_last() =~= Seq::<Run>::empty());
    assert(run_total(one.drop_last()) == 0);
    assert(run_total(one) == len);
}

/// The syntax of a file: that of its extension, else that of its name taken as one, else
/// plain text.
pub open spec fn syntax_of(set: SyntaxSet, p: PathView) -> Option<SyntaxReference> {
    let by_ext = match extension_of(p) {
        Some(e) => syntax_by_extension(set, e),
        None => None,
    };
    let by_file = match name_of(p) {
        Some(n) => syntax_by_extension(set, n),
        None => None,
    };
    if by_ext is Some {
        by_ext
    } else if by_file is Some {
        by_file
    } else {
        syntax_by_name(set, "Plain Text"@)
    }
}

/// The first `n` lines as the highlighter is given them: the short ones.
pub open spec fn given_lines(set: SyntaxSet, ls: Seq<Seq<char>>, n: int) -> Seq<(SyntaxSet, Seq<char>)>
    decreases n,
{
    if n <= 0 {
        Seq::empty()
    } else if short_line(ls[n - 1]) {
        given_lines(set, ls, n - 1).push((set, ls[n - 1]))
    } else {
        given_lines(set, ls, n - 1)
    }
}

/// The runs of line `i` of a file. A line that is too long is plain, as is one of a file without
/// a syntax.
pub open spec fn file_line_runs(set: SyntaxSet, theme: Theme, p: PathView, ls: Seq<Seq<char>>, i: int) -> Seq<Run> {
    line_runs_of(
        match syntax_of(set, p) {
            Some(s) if short_line(ls[i]) => styled_line(
                (s, theme, given_lines(set, ls, i)),
                set,
                ls[i],
            ),
            _ => None,
        },
        utf8_len(ls[i]),
    )
}

/// Holds the syntaxes and the theme.
pub struct Highlighter {
    syntaxes: SyntaxSet,
    theme: Theme,
}

impl Highlighter {
    /// The syntaxes it highlights with.
    pub closed spec fn set(&self) -> SyntaxSet {
        self.syntaxes
    }

    /// The colours it highlights with.
    pub closed spec fn colors(&self) -> Theme {
        self.theme
    }

    /// It holds the embedded syntaxes.
    #[verifier::type_invariant]
    closed spec fn wf(&self) -> bool {
        embedded(self.syntaxes)
    }

    /// Loads the embedded syntaxes and the dark theme.
    pub fn new() -> (r: Highlighter)
        ensures
            embedded(r.set()),
            dark(r.colors()),
    {
        Highlighter { syntaxes: load_syntaxes(), theme: load_theme() }
    }

    fn choose_syntax(&self, path: &FilePath) -> (r: Option<&SyntaxReference>)
        ensures
            opt_syntax(r) == syntax_of(self.set(), path@),
            r is Some ==> from_set(self.set(), *r->0),
    {
        if let Some(e) = path.extension() {
            if let Some(s) = find_by_extension(&self.syntaxes, e.as_str()) {
                assert(syntax_by_extension(self.set(), e@) == Some(*s));
                return Some(s);
            }
        }
        if let Some(n) = path.file_name() {
            if let Some(s) = find_by_extension(&self.syntaxes, n.as_str()) {
                assert(syntax_by_extension(self.set(), n@) == Some(*s));
                return Some(s);
            }
        }
        let r = find_by_name(&self.syntaxes, "Plain Text");
        assert(r is Some ==> syntax_by_name(self.set(), "Plain Text"@) == Some(*r->0));
        r
    }

    /// Highlights a whole file: one list of runs for each of its lines, the lengths of
    /// which add up to the length of the line.
    pub fn highlight(&self, text: &str, path: &FilePath) -> (r: Vec<Vec<Run>>)
        ensures
            r.len() == pieces(text@, '\n').len(),
            forall|i: int|
                0 <= i < r.len() ==> (#[trigger] r@[i])@ == file_line_runs(
                    self.set(),
                    self.colors(),
                    path@,
                    pieces(text@, '\n'),
                    i,
                ),
            forall|i: int|
                0 <= i < r.len() ==> run_total((#[trigger] r@[i])@) == utf8_len(
                    pieces(text@, '\n')[i],
                ),
    {
        proof {
            use_type_invariant(self);
        }
        let ls = split(text, '\n');
        let ghost all = pieces(text@, '\n');
        let ghost set = self.set();
        let ghost theme = self.colors();
        let mut out: Vec<Vec<Run>> = Vec::new();
        let mut i: usize = 0;
        match self.choose_syntax(path) {
            Some(s) => {
                let mut h = start_lines(&self.syntaxes, s, &self.theme);
                while i < ls.len()
                    invariant
                        i <= ls.len(),
                        texts(ls@) == all,
                        set == self.set(),
                        theme == self.colors(),
                        syntax_of(set, path@) == Some(*s),
                        embedded(set),
                        from_set(set, *s),
                        forall|j: int|
                            0 <= j < given_lines(set, all, i as int).len() ==> (
                            #[trigger] given_lines(set, all, i as int)[j]).0 == set && short_line(
                                given_lines(set, all, i as int)[j].1,
                            ),
                        line_history(h) == (*s, theme, given_lines(set, all, i as int)),
                        out.len() == i,
                        forall|j: int|
                            0 <= j < i ==> (#[trigger] out@[j])@ == file_line_runs(
                                set,
                                theme,
                                path@,
                                all,
                                j,
                            ) && run_total(out@[j]@) == utf8_len(all[j]),
                    decreases ls.len() - i,
                {
                    let line = ls[i].as_str();
                    assert(all[i as int] == line@);
                    let len = byte_len(line);
                    let runs = if char_count(line) <= LINE_LIMIT {
                        match style_line(&mut h, line, &self.syntaxes) {
                            Ok(v) => line_runs(Some(&v), len),
                            Err(_) => line_runs(None, len),
                        }
                    } else {
                        line_runs(None, len)
                    };
                    proof {
                        runs_sum_to_the_line(
                            styled_line((*s, theme, given_lines(set, all, i as int)), set, line@),
                            len as nat,
                        );
                        runs_sum_to_the_line(None, len as nat);
                    }
                    out.push(runs);
                    i = i + 1;
                }
            },
            None => {
                while i < ls.len()
                    invariant
                        i <= ls.len(),
                        texts(ls@) == all,
                        syntax_of(set, path@) is None,
                        out.len() == i,
                        forall|j: int|
                            0 <= j < i ==> (#[trigger] out@[j])@ == file_line_runs(
                                set,
                                theme,
                                path@,
                                all,
                                j,
                            ) && run_total(out@[j]@) == utf8_len(all[j]),
                    decreases ls.len() - i,
                {
                    let line = ls[i].as_str();
                    assert(all[i as int] == line@);
                    let len = byte_len(line);
                    let runs = line_runs(None, len);
                    proof {
                        runs_sum_to_the_line(None, len as nat);
                    }
                    out.push(runs);
                    i = i + 1;
                }
            },
        }
        assert(texts(ls@).len() == ls.len());
        out
    }
}

/// A file has the syntax of its extension; without one for that, the syntax of its name, and else that
/// of plain text.
pub proof fn a_syntax_goes_by_the_extension(set: SyntaxSet, p: PathView)
    ensures
        extension_of(p) is Some && syntax_by_extension(set, extension_of(p)->0) is Some ==> syntax_of(set, p) == syntax_by_extension(set, extension_of(p)->0),
        extension_of(p) is None && name_of(p) is Some && syntax_by_extension(set, name_of(p)->0) is Some ==> syntax_of(set, p) == syntax_by_extension(
            set,
            name_of(p)->0,
        ),
        extension_of(p) is None && name_of(p) is None ==> syntax_of(set, p) == syntax_by_name(set, "Plain Text"@),
{
}

/// What the highlighter says of a line counts where it covers the line; each piece keeps its length
/// and its colour. Otherwise the line is plain.
pub proof fn pieces_keep_their_colours(v: Seq<StylePiece>, len: nat, i: int)
    requires
        0 <= i < v.len(),
        len <= usize::MAX,
    ensures
        run_total(piece_runs(v)) == len ==> line_runs_of(Some(v), len) == piece_runs(v),
        piece_runs(v)[i].0 == v[i].len,
        piece_runs(v)[i].1 == v[i].r as u32 * 65536 + v[i].g as u32 * 256 + v[i].b as u32,
        run_total(piece_runs(v)) != len && len > 0 ==> line_runs_of(Some(v), len) == seq![(len as usize, 0xbcbec4u32)],
        len > 0 ==> line_runs_of(None, len) == seq![(len as usize, 0xbcbec4u32)],
{
}

/// A line that is too long is plain and is kept from the highlighter; every other line before it is
/// handed over, in order.
pub proof fn long_lines_are_plain(set: SyntaxSet, theme: Theme, p: PathView, ls: Seq<Seq<char>>, i: int)
    requires
        0 <= i < ls.len(),
    ensures
        ls[i].len() > 10000 ==> file_line_runs(set, theme, p, ls, i) == line_runs_of(None, utf8_len(ls[i])),
        ls[i].len() > 10000 ==> given_lines(set, ls, i + 1) == given_lines(set, ls, i),
        ls[i].len() <= 10000 ==> given_lines(set, ls, i + 1) == given_lines(set, ls, i).push((set, ls[i])),
        given_lines(set, ls, 0) == Seq::<(SyntaxSet, Seq<char>)>::empty(),
        syntax_of(set, p) is None ==> file_line_runs(set, theme, p, ls, i) == line_runs_of(None, utf8_len(ls[i])),
{
}

} // verus!
