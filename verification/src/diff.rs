//! Side-by-side diffs: the text and styling of each line, selections and matches.
use vstd::prelude::*;
use crate::search::{lemma_next_at, next_at};
use crate::text::{alphanumeric, byte_len, chars_of, find_from, join, joined, lemma_texts_push, lemma_utf8_split, lower, occurs_at, opt_text, string_of, texts, utf8_len};
use crate::theme::{DIFF_ADD_BG, DIFF_REMOVE_BG, SEARCH_CURRENT_BG, SEARCH_MATCH_BG, SELECTION, TEXT};

verus! {

/// One styled run on a line: (byte length, packed 0xRRGGBB colour).
pub type Run = (usize, u32);

/// How the two sides of a row differ.
#[derive(Clone, Copy, Debug, PartialEq, Eq, Structural)]
pub enum DiffKind {
    Equal,
    Del,
    Ins,
    Replace,
}

/// One row of a side-by-side diff.
#[derive(Debug)]
pub struct DiffRow {
    pub left: Option<String>,
    pub right: Option<String>,
    pub left_no: Option<usize>,
    pub right_no: Option<usize>,
    pub kind: DiffKind,
}

/// The two sides of a diff.
#[derive(Clone, Copy, Debug, PartialEq, Eq, Structural)]
pub enum DiffSide {
    Left,
    Right,
}

/// A text selection within one side of a diff, by row and character.
#[derive(Clone, Copy, Debug, PartialEq, Eq)]
pub struct DiffSel {
    pub side: DiffSide,
    pub anchor: (usize, usize),
    pub head: (usize, usize),
}

/// A search match: the side, the row, and the characters from start to end.
#[derive(Clone, Copy, Debug, PartialEq, Eq, Structural)]
pub struct DiffMatch {
    pub side: DiffSide,
    pub row: usize,
    pub start: usize,
    pub end: usize,
}

/// A run of a line with its colours.
#[derive(Clone, Copy, Debug, PartialEq, Eq, Structural)]
pub struct StyledRun {
    pub len: usize,
    pub color: u32,
    pub bg: Option<u32>,
}

/// Whether the position `a` is at or before `b` in reading order.
pub open spec fn not_after(a: (usize, usize), b: (usize, usize)) -> bool {
    a.0 < b.0 || (a.0 == b.0 && a.1 <= b.1)
}

/// Two positions in reading order.
pub open spec fn reading_order(a: (usize, usize), b: (usize, usize)) -> ((usize, usize), (usize, usize)) {
    if not_after(a, b) {
        (a, b)
    } else {
        (b, a)
    }
}

/// Puts two positions in reading order.
pub fn in_reading_order(a: (usize, usize), b: (usize, usize)) -> (r: ((usize, usize), (usize, usize)))
    ensures
        r == reading_order(a, b),
        not_after(r.0, r.1),
{
    if a.0 < b.0 || (a.0 == b.0 && a.1 <= b.1) {
        (a, b)
    } else {
        (b, a)
    }
}

impl DiffSel {
    /// The start and the end of the selection in reading order.
    pub fn range(&self) -> (r: ((usize, usize), (usize, usize)))
        ensures
            r == reading_order(self.anchor, self.head),
    {
        in_reading_order(self.anchor, self.head)
    }
}

/// A selection covers the same text whichever end it was begun at.
pub proof fn selection_is_symmetric(a: (usize, usize), b: (usize, usize))
    ensures
        reading_order(a, b) == reading_order(b, a),
{
}

/// What stands on one side of a row; nothing where that side has no line.
pub open spec fn side_text(row: DiffRow, side: DiffSide) -> Seq<char> {
    let t = match side {
        DiffSide::Left => row.left,
        DiffSide::Right => row.right,
    };
    match t {
        Some(s) => s@,
        None => Seq::empty(),
    }
}

/// The text of one side of a row.
pub fn diff_side_text(row: &DiffRow, side: DiffSide) -> (r: String)
    ensures
        r@ == side_text(*row, side),
{
    let t = match side {
        DiffSide::Left => &row.left,
        DiffSide::Right => &row.right,
    };
    match t {
        Some(s) => s.clone(),
        None => String::new(),
    }
}

/// How many characters a text has.
pub fn char_count(s: &str) -> (r: usize)
    ensures
        r == s@.len(),
{
    chars_of(s).len()
}

// ── styled runs ─────────────────────────────────────────────────────────────

/// How many bytes the runs cover.
pub open spec fn run_total(runs: Seq<Run>) -> nat
    decreases runs.len(),
{
    if runs.len() == 0 {
        0
    } else {
        run_total(runs.drop_last()) + runs.last().0 as nat
    }
}

/// The colour runs of a line of `len` bytes: those of the highlighter where they cover
/// it exactly, else one run in the plain colour.
pub open spec fn color_runs(len: nat, styles: Option<Seq<Run>>) -> Seq<Run> {
    match styles {
        Some(s) if s.len() > 0 && run_total(s) == len => s,
        _ => seq![(len as usize, TEXT)],
    }
}

/// Where character `c` begins, in bytes; the end of the text where there is none.
pub open spec fn byte_at(text: Seq<char>, c: int) -> nat {
    if c < text.len() {
        utf8_len(text.take(c))
    } else {
        utf8_len(text)
    }
}

/// A background span in bytes.
pub open spec fn byte_span(text: Seq<char>, s: (usize, usize, u32)) -> (nat, nat, u32) {
    (byte_at(text, s.0 as int), byte_at(text, s.1 as int), s.2)
}

/// The colour at byte `pos`.
pub open spec fn color_at(runs: Seq<Run>, pos: int) -> u32
    decreases runs.len(),
{
    if runs.len() == 0 {
        TEXT
    } else if pos < runs[0].0 {
        runs[0].1
    } else {
        color_at(runs.drop_first(), pos - runs[0].0)
    }
}

/// The background of the bytes from `a` to `b`: that of the last span over them all.
pub open spec fn bg_at(text: Seq<char>, spans: Seq<(usize, usize, u32)>, a: int, b: int) -> Option<u32>
    decreases spans.len(),
{
    if spans.len() == 0 {
        None
    } else {
        let s = byte_span(text, spans.last());
        if a >= s.0 && b <= s.1 {
            Some(s.2)
        } else {
            bg_at(text, spans.drop_last(), a, b)
        }
    }
}

/// Whether a run begins or ends at byte `x`: the ends of the line, of a colour run or of
/// a span.
pub open spec fn is_cut(text: Seq<char>, runs: Seq<Run>, spans: Seq<(usize, usize, u32)>, x: nat) -> bool {
    ||| x == 0
    ||| x == utf8_len(text)
    ||| exists|k: int| 0 <= k <= runs.len() && x == #[trigger] run_total(runs.take(k))
    ||| exists|k: int|
        0 <= k < spans.len() && (x == byte_span(text, #[trigger] spans[k]).0 || x == byte_span(
            text,
            spans[k],
        ).1)
}

/// Where run `i` begins.
pub open spec fn run_start(r: Seq<StyledRun>, i: int) -> nat
    decreases i,
{
    if i <= 0 {
        0
    } else {
        run_start(r, i - 1) + r[i - 1].len as nat
    }
}

/// Whether `r` are the styled runs of a line: they begin and end at the cuts and nowhere
/// else, and each has the colours of its place.
pub open spec fn is_line_runs(
    text: Seq<char>,
    styles: Option<Seq<Run>>,
    spans: Seq<(usize, usize, u32)>,
    r: Seq<StyledRun>,
) -> bool {
    let runs = color_runs(utf8_len(text), styles);
    &&& forall|i: int| 0 <= i < r.len() ==> (#[trigger] r[i]).len > 0 && r[i].color == color_at(
        runs,
        run_start(r, i) as int,
    ) && r[i].bg == bg_at(text, spans, run_start(r, i) as int, run_start(r, i + 1) as int)
    &&& forall|x: nat|
        #[trigger] is_cut(text, runs, spans, x) <==> exists|i: int|
            0 <= i <= r.len() && #[trigger] run_start(r, i) == x
}

proof fn lemma_byte_at(text: Seq<char>, c: int)
    requires
        0 <= c,
    ensures
        byte_at(text, c) <= utf8_len(text),
{
    if c < text.len() {
        lemma_utf8_split(text, c);
    }
}

proof fn lemma_run_prefix(runs: Seq<Run>, k: int)
    requires
        0 <= k <= runs.len(),
    ensures
        run_total(runs.take(k)) <= run_total(runs),
    decreases runs.len() - k,
{
    if k == runs.len() {
        assert(runs.take(k) =~= runs);
    } else {
        lemma_run_prefix(runs, k + 1);
        assert(runs.take(k + 1).drop_last() =~= runs.take(k));
    }
}

proof fn lemma_color_runs_total(len: nat, styles: Option<Seq<Run>>)
    requires
        len <= usize::MAX,
    ensures
        run_total(color_runs(len, styles)) == len,
{
    let one: Seq<Run> = seq![(len as usize, TEXT)];
    assert(one.drop_last() =~= Seq::<Run>::empty());
    assert(run_total(one.drop_last()) == 0);
    assert(run_total(one) == len);
}

proof fn lemma_cut_bound(text: Seq<char>, styles: Option<Seq<Run>>, spans: Seq<(usize, usize, u32)>, x: nat)
    requires
        utf8_len(text) <= usize::MAX,
        is_cut(text, color_runs(utf8_len(text), styles), spans, x),
    ensures
        x <= utf8_len(text),
{
    let runs = color_runs(utf8_len(text), styles);
    lemma_color_runs_total(utf8_len(text), styles);
    if exists|k: int| 0 <= k <= runs.len() && x == #[trigger] run_total(runs.take(k)) {
        let k = choose|k: int| 0 <= k <= runs.len() && x == #[trigger] run_total(runs.take(k));
        lemma_run_prefix(runs, k);
    } else if x != 0 && x != utf8_len(text) {
        let k = choose|k: int|
            0 <= k < spans.len() && (x == byte_span(text, #[trigger] spans[k]).0 || x == byte_span(
                text,
                spans[k],
            ).1);
        lemma_byte_at(text, spans[k].0 as int);
        lemma_byte_at(text, spans[k].1 as int);
    }
}

/// The runs of a line cover the whole line and nothing more.
pub proof fn runs_cover_the_line(
    text: Seq<char>,
    styles: Option<Seq<Run>>,
    spans: Seq<(usize, usize, u32)>,
    r: Seq<StyledRun>,
)
    requires
        utf8_len(text) <= usize::MAX,
        is_line_runs(text, styles, spans, r),
    ensures
        run_start(r, r.len() as int) == utf8_len(text),
{
    let runs = color_runs(utf8_len(text), styles);
    let n = r.len() as int;
    assert(is_cut(text, runs, spans, utf8_len(text)));
    let i = choose|i: int| 0 <= i <= r.len() && #[trigger] run_start(r, i) == utf8_len(text);
    lemma_run_start_grows(r, i, n);
    assert(is_cut(text, runs, spans, run_start(r, n)));
    lemma_cut_bound(text, styles, spans, run_start(r, n));
}

proof fn lemma_run_start_grows(r: Seq<StyledRun>, i: int, j: int)
    requires
        0 <= i <= j <= r.len(),
    ensures
        run_start(r, i) <= run_start(r, j),
    decreases j - i,
{
    if i < j {
        lemma_run_start_grows(r, i, j - 1);
    }
}

proof fn lemma_run_start_prefix(r: Seq<StyledRun>, x: StyledRun, i: int)
    requires
        0 <= i <= r.len(),
    ensures
        run_start(r.push(x), i) == run_start(r, i),
    decreases i,
{
    if i > 0 {
        lemma_run_start_prefix(r, x, i - 1);
    }
}

/// The numbers ascend, none twice.
pub open spec fn rising(v: Seq<usize>) -> bool {
    forall|i: int, j: int| 0 <= i < j < v.len() ==> v[i] < v[j]
}

/// Puts a number at its place, unless it is there already.
fn add_number(v: &mut Vec<usize>, x: usize)
    requires
        rising(old(v)@),
    ensures
        rising(final(v)@),
        forall|y: usize| #[trigger] final(v)@.contains(y) <==> (y == x || old(v)@.contains(y)),
{
    let ghost base = v@;
    let mut k: usize = v.len();
    while k > 0 && v[k - 1] > x
        invariant
            k <= v.len(),
            v@ == base,
            rising(base),
            forall|i: int| k <= i < v.len() ==> base[i] > x,
        decreases k,
    {
        k = k - 1;
    }
    if k > 0 && v[k - 1] == x {
        assert(base.contains(x));
        return;
    }
    v.insert(k, x);
    proof {
        let w = v@;
        assert(w =~= base.insert(k as int, x));
        assert(k > 0 ==> base[k - 1] < x);
        assert forall|i: int, j: int| 0 <= i < j < w.len() implies w[i] < w[j] by {
            if i == k {
                assert(w[j] == base[j - 1]);
            } else if j == k {
                assert(w[i] == base[i]);
                if i < k - 1 {
                    assert(base[i] < base[k - 1]);
                }
            } else if i < k && j < k {
                assert(w[i] == base[i] && w[j] == base[j]);
            } else if i < k && j > k {
                assert(w[i] == base[i] && w[j] == base[j - 1]);
            } else {
                assert(w[i] == base[i - 1] && w[j] == base[j - 1]);
            }
        }
        assert forall|y: usize| #[trigger] w.contains(y) <==> (y == x || base.contains(y)) by {
            if w.contains(y) {
                let i = choose|i: int| 0 <= i < w.len() && w[i] == y;
                if i < k {
                    assert(base[i] == y);
                } else if i > k {
                    assert(base[i - 1] == y);
                }
            }
            if base.contains(y) {
                let i = choose|i: int| 0 <= i < base.len() && base[i] == y;
                if i < k {
                    assert(w[i] == y);
                } else {
                    assert(w[i + 1] == y);
                }
            }
            assert(w[k as int] == x);
        }
    }
}

fn byte_index(v: &Vec<char>, c: usize) -> (r: usize)
    ensures
        r as nat == byte_at(v@, c as int),
{
    let n: usize = if c < v.len() {
        c
    } else {
        v.len()
    };
    let s = string_of(v, 0, n);
    proof {
        if c < v@.len() {
            assert(v@.subrange(0, n as int) =~= v@.take(c as int));
        } else {
            assert(v@.subrange(0, n as int) =~= v@);
        }
    }
    byte_len(s.as_str())
}

fn color_of(runs: &Vec<Run>, pos: usize) -> (r: u32)
    requires
        run_total(runs@) <= usize::MAX,
    ensures
        r == color_at(runs@, pos as int),
{
    let mut acc: usize = 0;
    let mut i: usize = 0;
    assert(runs@.skip(0) =~= runs@);
    assert(runs@.take(0) =~= Seq::<Run>::empty());
    while i < runs.len()
        invariant
            i <= runs.len(),
            run_total(runs@) <= usize::MAX,
            acc == run_total(runs@.take(i as int)),
            color_at(runs@, pos as int) == color_at(runs@.skip(i as int), pos - acc),
        decreases runs.len() - i,
    {
        proof {
            assert(runs@.take(i + 1).drop_last() =~= runs@.take(i as int));
            assert(runs@.take(i + 1).last() == runs@[i as int]);
            lemma_run_prefix(runs@, i + 1);
            assert(runs@.skip(i as int)[0] == runs@[i as int]);
            assert(runs@.skip(i as int).drop_first() =~= runs@.skip(i + 1));
        }
        acc = acc + runs[i].0;
        if pos < acc {
            return runs[i].1;
        }
        i = i + 1;
    }
    TEXT
}

fn background(v: &Vec<char>, spans: &Vec<(usize, usize, u32)>, a: usize, b: usize) -> (r: Option<u32>)
    ensures
        r == bg_at(v@, spans@, a as int, b as int),
{
    let mut n: usize = spans.len();
    assert(spans@.take(n as int) =~= spans@);
    while n > 0
        invariant
            n <= spans.len(),
            bg_at(v@, spans@, a as int, b as int) == bg_at(
                v@,
                spans@.take(n as int),
                a as int,
                b as int,
            ),
        decreases n,
    {
        proof {
            assert(spans@.take(n as int).drop_last() =~= spans@.take(n - 1));
            assert(spans@.take(n as int).last() == spans@[n - 1]);
        }
        let s = byte_index(v, spans[n - 1].0);
        let e = byte_index(v, spans[n - 1].1);
        if a >= s && b <= e {
            return Some(spans[n - 1].2);
        }
        n = n - 1;
    }
    None
}

/// The contents of an optional list of runs.
pub open spec fn opt_runs(o: Option<&Vec<Run>>) -> Option<Seq<Run>> {
    match o {
        Some(v) => Some(v@),
        None => None,
    }
}

/// Whether the lengths of the runs add up to `len`.
pub fn runs_total_is(v: &Vec<Run>, len: usize) -> (r: bool)
    ensures
        r == (run_total(v@) == len),
{
    let mut acc: usize = 0;
    let mut i: usize = 0;
    assert(v@.take(0) =~= Seq::<Run>::empty());
    while i < v.len()
        invariant
            i <= v.len(),
            acc == run_total(v@.take(i as int)),
            acc <= len,
        decreases v.len() - i,
    {
        proof {
            assert(v@.take(i + 1).drop_last() =~= v@.take(i as int));
            assert(v@.take(i + 1).last() == v@[i as int]);
            lemma_run_prefix(v@, i + 1);
        }
        if v[i].0 > len - acc {
            return false;
        }
        acc = acc + v[i].0;
        i = i + 1;
    }
    assert(v@.take(v@.len() as int) =~= v@);
    acc == len
}

/// The styled runs of a line: the colours of `styles` with the background spans over
/// them, given by characters. Where spans overlap the later one wins.
pub fn diff_line_runs(
    text: &str,
    styles: Option<&Vec<Run>>,
    spans: &Vec<(usize, usize, u32)>,
) -> (r: Vec<StyledRun>)
    ensures
        is_line_runs(text@, opt_runs(styles), spans@, r@),
        run_start(r@, r@.len() as int) == utf8_len(text@),
{
    let len: usize = byte_len(text);
    let v = chars_of(text);
    let mut runs: Vec<Run> = Vec::new();
    let mut plain = true;
    if let Some(s) = styles {
        if s.len() > 0 && runs_total_is(s, len) {
            plain = false;
            let mut i: usize = 0;
            while i < s.len()
                invariant
                    i <= s.len(),
                    runs@ == s@.take(i as int),
                decreases s.len() - i,
            {
                runs.push(s[i]);
                i = i + 1;
                assert(runs@ =~= s@.take(i as int));
            }
            assert(s@.take(s@.len() as int) =~= s@);
        }
    }
    if plain {
        runs.push((len, TEXT));
    }
    let ghost want = color_runs(utf8_len(text@), opt_runs(styles));
    assert(runs@ =~= want);
    proof {
        lemma_color_runs_total(utf8_len(text@), opt_runs(styles));
    }
    let mut bounds: Vec<usize> = Vec::new();
    bounds.push(0);
    assert(forall|y: usize| #[trigger] bounds@.contains(y) <==> y == 0) by {
        assert(bounds@[0] == 0);
    }
    add_number(&mut bounds, len);
    let mut p: usize = 0;
    let mut i: usize = 0;
    assert(runs@.take(0) =~= Seq::<Run>::empty());
    while i < runs.len()
        invariant
            i <= runs.len(),
            run_total(runs@) == len,
            p == run_total(runs@.take(i as int)),
            rising(bounds@),
            forall|y: usize| #[trigger] bounds@.contains(y) <==> (y == 0 || y == len || exists|k: int|
                0 <= k <= i && y == #[trigger] run_total(runs@.take(k))),
        decreases runs.len() - i,
    {
        proof {
            assert(runs@.take(i + 1).drop_last() =~= runs@.take(i as int));
            assert(runs@.take(i + 1).last() == runs@[i as int]);
            lemma_run_prefix(runs@, i + 1);
        }
        p = p + runs[i].0;
        let ghost was = bounds@;
        add_number(&mut bounds, p);
        proof {
            assert forall|y: usize| #[trigger] bounds@.contains(y) <==> (y == 0 || y == len
                || exists|k: int| 0 <= k <= i + 1 && y == #[trigger] run_total(runs@.take(k))) by {
                if y == p {
                    assert(0 <= i + 1 <= i + 1 && y == run_total(runs@.take(i + 1)));
                }
                if exists|k: int| 0 <= k <= i + 1 && y == #[trigger] run_total(runs@.take(k)) {
                    let k = choose|k: int| 0 <= k <= i + 1 && y == #[trigger] run_total(runs@.take(k));
                    if k <= i {
                        assert(was.contains(y));
                    }
                }
            }
        }
        i = i + 1;
    }
    let ghost colour_cuts = bounds@;
    let mut j: usize = 0;
    while j < spans.len()
        invariant
            j <= spans.len(),
            v@ == text@,
            rising(bounds@),
            forall|y: usize| #[trigger] bounds@.contains(y) <==> (colour_cuts.contains(y) || exists|k: int|
                0 <= k < j && (y == byte_span(text@, #[trigger] spans@[k]).0 || y == byte_span(
                    text@,
                    spans@[k],
                ).1)),
        decreases spans.len() - j,
    {
        let ghost was = bounds@;
        let s = byte_index(&v, spans[j].0);
        let e = byte_index(&v, spans[j].1);
        add_number(&mut bounds, s);
        add_number(&mut bounds, e);
        proof {
            assert forall|y: usize| #[trigger] bounds@.contains(y) <==> (colour_cuts.contains(y)
                || exists|k: int|
                0 <= k < j + 1 && (y == byte_span(text@, #[trigger] spans@[k]).0 || y == byte_span(
                    text@,
                    spans@[k],
                ).1)) by {
                if y == s || y == e {
                    assert(y == byte_span(text@, spans@[j as int]).0 || y == byte_span(
                        text@,
                        spans@[j as int],
                    ).1);
                }
                if exists|k: int|
                    0 <= k < j + 1 && (y == byte_span(text@, #[trigger] spans@[k]).0 || y == byte_span(
                        text@,
                        spans@[k],
                    ).1) {
                    let k = choose|k: int|
                        0 <= k < j + 1 && (y == byte_span(text@, #[trigger] spans@[k]).0 || y
                            == byte_span(text@, spans@[k]).1);
                    if k < j {
                        assert(was.contains(y));
                    }
                }
            }
        }
        j = j + 1;
    }
    // every cut is a bound and every bound a cut
    proof {
        assert forall|x: nat| #[trigger] is_cut(text@, want, spans@, x) <==> (x <= usize::MAX
            && bounds@.contains(x as usize)) by {
            if is_cut(text@, want, spans@, x) {
                lemma_cut_bound(text@, opt_runs(styles), spans@, x);
            }
            if x <= usize::MAX {
                let y = x as usize;
                assert(bounds@.contains(y) <==> (colour_cuts.contains(y) || exists|k: int|
                    0 <= k < spans@.len() && (y == byte_span(text@, #[trigger] spans@[k]).0 || y
                        == byte_span(text@, spans@[k]).1)));
                assert(colour_cuts.contains(y) <==> (y == 0 || y == len || exists|k: int|
                    0 <= k <= runs@.len() && y == #[trigger] run_total(runs@.take(k))));
            }
        }
        assert(is_cut(text@, want, spans@, 0));
        let z = choose|z: int| 0 <= z < bounds@.len() && bounds@[z] == 0;
        if z > 0 {
            assert(bounds@[0] < bounds@[z]);
        }
        assert(bounds@[0] == 0);
    }
    let mut out: Vec<StyledRun> = Vec::new();
    let mut w: usize = 0;
    while w + 1 < bounds.len()
        invariant
            0 < bounds.len(),
            w < bounds.len(),
            v@ == text@,
            runs@ == want,
            run_total(runs@) <= usize::MAX,
            rising(bounds@),
            bounds@[0] == 0,
            out.len() == w,
            forall|i: int| 0 <= i <= w ==> #[trigger] run_start(out@, i) == bounds@[i],
            forall|i: int|
                0 <= i < w ==> (#[trigger] out@[i]).len > 0 && out@[i].color == color_at(
                    want,
                    run_start(out@, i) as int,
                ) && out@[i].bg == bg_at(
                    text@,
                    spans@,
                    run_start(out@, i) as int,
                    run_start(out@, i + 1) as int,
                ),
        decreases bounds.len() - w,
    {
        let a = bounds[w];
        let b = bounds[w + 1];
        let run = StyledRun { len: b - a, color: color_of(&runs, a), bg: background(&v, spans, a, b) };
        let ghost was = out@;
        out.push(run);
        proof {
            assert forall|i: int| 0 <= i <= w + 1 implies #[trigger] run_start(out@, i) == bounds@[i] by {
                if i <= w {
                    lemma_run_start_prefix(was, run, i);
                    assert(run_start(was, i) == bounds@[i]);
                } else {
                    lemma_run_start_prefix(was, run, w as int);
                    assert(run_start(was, w as int) == bounds@[w as int]);
                    assert(run_start(out@, w + 1) == run_start(out@, w as int) + run.len);
                }
            }
            assert forall|i: int| 0 <= i < w + 1 implies (#[trigger] out@[i]).len > 0
                && out@[i].color == color_at(want, run_start(out@, i) as int) && out@[i].bg == bg_at(
                text@,
                spans@,
                run_start(out@, i) as int,
                run_start(out@, i + 1) as int,
            ) by {
                assert(run_start(out@, i) == bounds@[i]);
                assert(run_start(out@, i + 1) == bounds@[i + 1]);
                if i < w {
                    assert(out@[i] == was[i]);
                    assert(run_start(was, i) == bounds@[i]);
                    assert(run_start(was, i + 1) == bounds@[i + 1]);
                }
            }
        }
        w = w + 1;
    }
    proof {
        assert(w == bounds.len() - 1);
        assert forall|x: nat| #[trigger] is_cut(text@, want, spans@, x) <==> exists|i: int|
            0 <= i <= out@.len() && #[trigger] run_start(out@, i) == x by {
            if is_cut(text@, want, spans@, x) {
                assert(bounds@.contains(x as usize));
                let i = choose|i: int| 0 <= i < bounds@.len() && bounds@[i] == x as usize;
                assert(run_start(out@, i) == x);
            }
            if exists|i: int| 0 <= i <= out@.len() && #[trigger] run_start(out@, i) == x {
                let i = choose|i: int| 0 <= i <= out@.len() && #[trigger] run_start(out@, i) == x;
                assert(bounds@[i] == x);
                assert(bounds@.contains(x as usize));
            }
        }
        assert(is_line_runs(text@, opt_runs(styles), spans@, out@));
        runs_cover_the_line(text@, opt_runs(styles), spans@, out@);
    }
    out
}

// ── selections and words ────────────────────────────────────────────────────

/// The smaller of two numbers.
pub open spec fn least(a: int, b: int) -> int {
    if a <= b {
        a
    } else {
        b
    }
}

/// The smaller of two numbers.
pub fn lesser(a: usize, b: usize) -> (r: usize)
    ensures
        r == least(a as int, b as int),
{
    if a <= b {
        a
    } else {
        b
    }
}

/// The characters of row `r`, of `len` characters, that lie between two positions in
/// reading order.
pub open spec fn row_part(a: (usize, usize), b: (usize, usize), r: int, len: int) -> (int, int) {
    (
        least(if r == a.0 { a.1 as int } else { 0 }, len),
        least(if r == b.0 { b.1 as int } else { len }, len),
    )
}

/// The selected characters of row `r` on `side`: none where the selection is on the
/// other side, does not reach the row, or takes nothing of it.
pub open spec fn row_sel(sel: Option<DiffSel>, side: DiffSide, r: int, len: int) -> Option<(int, int)> {
    match sel {
        None => None,
        Some(s) => {
            let (a, b) = reading_order(s.anchor, s.head);
            let p = row_part(a, b, r, len);
            if s.side != side || r < a.0 || r > b.0 || p.0 >= p.1 {
                None
            } else {
                Some(p)
            }
        },
    }
}

/// An optional range as numbers.
pub open spec fn opt_range(o: Option<(usize, usize)>) -> Option<(int, int)> {
    match o {
        Some(p) => Some((p.0 as int, p.1 as int)),
        None => None,
    }
}

/// The selected characters of row `r`, which has `len` characters.
pub fn diff_row_sel(sel: Option<DiffSel>, side: DiffSide, r: usize, len: usize) -> (o: Option<(usize, usize)>)
    ensures
        opt_range(o) == row_sel(sel, side, r as int, len as int),
{
    match sel {
        None => None,
        Some(s) => {
            if s.side != side {
                return None;
            }
            let (a, b) = s.range();
            if r < a.0 || r > b.0 {
                return None;
            }
            let cs: usize = lesser(
                if r == a.0 {
                    a.1
                } else {
                    0
                },
                len,
            );
            let ce: usize = lesser(
                if r == b.0 {
                    b.1
                } else {
                    len
                },
                len,
            );
            if cs >= ce {
                None
            } else {
                Some((cs, ce))
            }
        },
    }
}

/// Whether `c` belongs to a word: a letter, a number or an underscore.
pub open spec fn word_char(c: char) -> bool {
    alphanumeric(c) || c == '_'
}

fn is_word(c: char) -> (r: bool)
    ensures
        r == word_char(c),
{
    c.is_alphanumeric() || c == '_'
}

/// Whether `s..e` is the word at `col`: all of it word characters, and none next to it.
pub open spec fn word_span(t: Seq<char>, col: int, s: int, e: int) -> bool {
    &&& 0 <= s <= col < e <= t.len()
    &&& forall|i: int| s <= i < e ==> word_char(#[trigger] t[i])
    &&& s > 0 ==> !word_char(t[s - 1])
    &&& e < t.len() ==> !word_char(t[e])
}

/// The characters of the word at `col`; nothing where there is no word.
pub fn word_range(line: &str, col: usize) -> (r: (usize, usize))
    ensures
        if col < line@.len() && word_char(line@[col as int]) {
            word_span(line@, col as int, r.0 as int, r.1 as int)
        } else {
            r == (col, col)
        },
{
    let ch = chars_of(line);
    if col >= ch.len() || !is_word(ch[col]) {
        return (col, col);
    }
    let mut s: usize = col;
    while s > 0 && is_word(ch[s - 1])
        invariant
            s <= col < ch.len(),
            ch@ == line@,
            forall|i: int| s <= i <= col ==> word_char(#[trigger] line@[i]),
        decreases s,
    {
        s = s - 1;
    }
    let mut e: usize = col;
    while e < ch.len() && is_word(ch[e])
        invariant
            s <= col <= e <= ch.len(),
            col < ch.len(),
            ch@ == line@,
            word_char(line@[col as int]),
            forall|i: int| s <= i < e ==> word_char(#[trigger] line@[i]),
        decreases ch.len() - e,
    {
        e = e + 1;
    }
    (s, e)
}

/// A word has one beginning and one end.
pub proof fn word_is_unique(t: Seq<char>, col: int, s1: int, e1: int, s2: int, e2: int)
    requires
        word_span(t, col, s1, e1),
        word_span(t, col, s2, e2),
    ensures
        s1 == s2,
        e1 == e2,
{
    if s1 < s2 {
        assert(word_char(t[s2 - 1]));
    }
    if s2 < s1 {
        assert(word_char(t[s1 - 1]));
    }
    if e1 < e2 {
        assert(word_char(t[e1]));
    }
    if e2 < e1 {
        assert(word_char(t[e2]));
    }
}

/// The characters between two positions, row by row.
pub open spec fn selected_lines(rows: Seq<DiffRow>, side: DiffSide, a: (usize, usize), b: (usize, usize)) -> Seq<Seq<char>> {
    Seq::new(
        (b.0 - a.0 + 1) as nat,
        |i: int|
            {
                let t = side_text(rows[a.0 + i], side);
                let p = row_part(a, b, a.0 + i, t.len() as int);
                t.subrange(p.0, p.1)
            },
    )
}

/// The text of a selection, its rows joined by newlines.
pub open spec fn selection_text(rows: Seq<DiffRow>, sel: DiffSel) -> Seq<char> {
    let (a, b) = reading_order(sel.anchor, sel.head);
    joined(selected_lines(rows, sel.side, a, b), seq!['\n'])
}

/// The text of the selection.
pub fn selected_text(rows: &Vec<DiffRow>, sel: Option<DiffSel>) -> (r: Option<String>)
    requires
        sel is Some ==> reading_order(sel->0.anchor, sel->0.head).1.0 < rows.len(),
    ensures
        match sel {
            None => r is None,
            Some(s) => r is Some && r->0@ == selection_text(rows@, s),
        },
{
    match sel {
        None => None,
        Some(s) => {
            let (a, b) = s.range();
            let mut out: Vec<String> = Vec::new();
            let ghost want = selected_lines(rows@, s.side, a, b);
            let mut r: usize = a.0;
            assert(texts(out@) =~= want.take(0));
            while r <= b.0
                invariant
                    a.0 <= r <= b.0 + 1,
                    b.0 < rows.len(),
                    not_after(a, b),
                    want == selected_lines(rows@, s.side, a, b),
                    texts(out@) == want.take(r - a.0),
                decreases b.0 + 1 - r,
            {
                let line = diff_side_text(&rows[r], s.side);
                let ch = chars_of(line.as_str());
                let n: usize = ch.len();
                let cs: usize = lesser(
                    if r == a.0 {
                        a.1
                    } else {
                        0
                    },
                    n,
                );
                let ce: usize = lesser(
                    if r == b.0 {
                        b.1
                    } else {
                        n
                    },
                    n,
                );
                let piece = string_of(&ch, cs, ce);
                proof {
                    lemma_texts_push(out@, piece);
                    assert(want[r - a.0] == piece@);
                    assert(want.take(r + 1 - a.0) =~= want.take(r - a.0).push(piece@));
                }
                out.push(piece);
                r = r + 1;
            }
            proof {
                reveal_strlit("\n");
                assert("\n"@ =~= seq!['\n']);
                assert(want.take(want.len() as int) =~= want);
            }
            Some(join(&out, "\n"))
        },
    }
}

// ── search matches ──────────────────────────────────────────────────────────

/// The positions from `from` on at which `q` stands in `t`, none inside the one before.
pub open spec fn hits_from(t: Seq<char>, q: Seq<char>, from: int) -> Seq<int>
    decreases t.len() - from + 1,
{
    match next_at(t, q, from) {
        Some(i) if i >= from && q.len() > 0 && i + q.len() <= t.len() => seq![i] + hits_from(
            t,
            q,
            i + q.len(),
        ),
        _ => Seq::empty(),
    }
}

/// The matches of `q` on one side of row `row`.
pub open spec fn side_matches(rows: Seq<DiffRow>, q: Seq<char>, row: int, side: DiffSide) -> Seq<DiffMatch> {
    hits_from(lower(side_text(rows[row], side)), q, 0).map_values(
        |i: int|
            DiffMatch {
                side,
                row: row as usize,
                start: i as usize,
                end: (i + q.len()) as usize,
            },
    )
}

/// The matches in the first `n` rows, the left side of each row first.
pub open spec fn row_matches(rows: Seq<DiffRow>, q: Seq<char>, n: int) -> Seq<DiffMatch>
    decreases n,
{
    if n <= 0 {
        Seq::empty()
    } else {
        row_matches(rows, q, n - 1) + side_matches(rows, q, n - 1, DiffSide::Left) + side_matches(
            rows,
            q,
            n - 1,
            DiffSide::Right,
        )
    }
}

/// All matches of a query, upper and lower case alike.
pub open spec fn all_matches(rows: Seq<DiffRow>, query: Seq<char>) -> Seq<DiffMatch> {
    let q = lower(query);
    if q.len() == 0 {
        Seq::empty()
    } else {
        row_matches(rows, q, rows.len() as int)
    }
}

fn add_side_matches(rows: &Vec<DiffRow>, q: &Vec<char>, row: usize, side: DiffSide, out: &mut Vec<DiffMatch>)
    requires
        row < rows.len(),
        q.len() > 0,
    ensures
        final(out)@ == old(out)@ + side_matches(rows@, q@, row as int, side),
{
    let line = diff_side_text(&rows[row], side);
    let low = line.as_str().to_lowercase();
    let t = chars_of(low.as_str());
    let ghost f = |i: int|
        DiffMatch { side, row, start: i as usize, end: (i + q@.len()) as usize };
    let ghost base = out@;
    let ghost want = hits_from(t@, q@, 0);
    let mut done: Ghost<Seq<int>> = Ghost(Seq::empty());
    let mut s: usize = 0;
    assert(want =~= done@ + hits_from(t@, q@, 0));
    assert(out@ =~= base + done@.map_values(f));
    loop
        invariant
            s <= t.len(),
            q.len() > 0,
            f == (|i: int| DiffMatch { side, row, start: i as usize, end: (i + q@.len()) as usize }),
            want == done@ + hits_from(t@, q@, s as int),
            out@ == base + done@.map_values(f),
        ensures
            want == done@,
        decreases t.len() - s,
    {
        let n = find_from(&t, q, s);
        proof {
            lemma_next_at(
                t@,
                q@,
                s as int,
                match n {
                    Some(i) => Some(i as int),
                    None => None,
                },
            );
        }
        match n {
            Some(i) => {
                let m = DiffMatch { side, row, start: i, end: i + q.len() };
                proof {
                    let d = done@;
                    assert(d + (seq![i as int] + hits_from(t@, q@, i + q@.len())) =~= d.push(i as int)
                        + hits_from(t@, q@, i + q@.len()));
                    assert(f(i as int) == m);
                    assert((base + d.map_values(f)).push(m) =~= base + d.push(i as int).map_values(f));
                    done@ = d.push(i as int);
                }
                out.push(m);
                s = i + q.len();
            },
            None => {
                assert(done@ + Seq::<int>::empty() =~= done@);
                break;
            },
        }
    }
    assert(want.map_values(f) =~= side_matches(rows@, q@, row as int, side));
}

/// All matches of a query in the rows.
pub fn find_matches(rows: &Vec<DiffRow>, query: &str) -> (r: Vec<DiffMatch>)
    ensures
        r@ == all_matches(rows@, query@),
{
    let low = query.to_lowercase();
    let q = chars_of(low.as_str());
    let mut out: Vec<DiffMatch> = Vec::new();
    if q.len() == 0 {
        return out;
    }
    let mut i: usize = 0;
    assert(out@ =~= row_matches(rows@, q@, 0));
    while i < rows.len()
        invariant
            i <= rows.len(),
            q.len() > 0,
            out@ == row_matches(rows@, q@, i as int),
        decreases rows.len() - i,
    {
        add_side_matches(rows, &q, i, DiffSide::Left, &mut out);
        add_side_matches(rows, &q, i, DiffSide::Right, &mut out);
        i = i + 1;
    }
    out
}

// ── the rows of a pane ──────────────────────────────────────────────────────

/// The background of a changed line; 0 where it has none.
pub open spec fn line_bg(side: DiffSide, kind: DiffKind) -> u32 {
    match (side, kind) {
        (DiffSide::Left, DiffKind::Del) | (DiffSide::Left, DiffKind::Replace) => DIFF_REMOVE_BG,
        (DiffSide::Right, DiffKind::Ins) | (DiffSide::Right, DiffKind::Replace) => DIFF_ADD_BG,
        _ => 0,
    }
}

/// The line number on one side of a row.
pub open spec fn side_no(row: DiffRow, side: DiffSide) -> Option<usize> {
    match side {
        DiffSide::Left => row.left_no,
        DiffSide::Right => row.right_no,
    }
}

/// The backgrounds of the first `n` matches that lie in row `row` on `side`.
pub open spec fn match_spans(matches: Seq<DiffMatch>, side: DiffSide, row: int, cur: int, n: int) -> Seq<(usize, usize, u32)>
    decreases n,
{
    if n <= 0 {
        Seq::empty()
    } else {
        let s = match_spans(matches, side, row, cur, n - 1);
        let m = matches[n - 1];
        if m.side == side && m.row == row {
            s.push((m.start, m.end, if n - 1 == cur { SEARCH_CURRENT_BG } else { SEARCH_MATCH_BG }))
        } else {
            s
        }
    }
}

/// All backgrounds of a row: the matches first and the selection last, so that it wins.
pub open spec fn pane_spans(
    matches: Seq<DiffMatch>,
    side: DiffSide,
    row: int,
    cur: int,
    sel: Option<DiffSel>,
    len: int,
) -> Seq<(usize, usize, u32)> {
    let m = match_spans(matches, side, row, cur, matches.len() as int);
    match row_sel(sel, side, row, len) {
        Some(p) => m.push((p.0 as usize, p.1 as usize, SELECTION)),
        None => m,
    }
}

/// The highlighter's runs for line `no`.
pub open spec fn line_styles(styles: Seq<Vec<Run>>, no: Option<usize>) -> Option<Seq<Run>> {
    match no {
        Some(n) if 1 <= n <= styles.len() => Some(styles[n - 1]@),
        _ => None,
    }
}

/// One line of a pane.
#[derive(Debug)]
pub struct PaneRow {
    pub bg: u32,
    pub no: Option<usize>,
    pub text: String,
    pub runs: Vec<StyledRun>,
    pub caret: Option<usize>,
}

/// The column of the caret in row `row` on `side`, where it is shown.
pub open spec fn caret_col(caret: Option<(DiffSide, usize, usize)>, on: bool, side: DiffSide, row: int) -> Option<usize> {
    match caret {
        Some(c) if on && c.0 == side && c.1 == row => Some(c.2),
        _ => None,
    }
}

/// Whether `p` is the line that a pane shows for row `i`.
pub open spec fn is_pane_row(
    rows: Seq<DiffRow>,
    side: DiffSide,
    sel: Option<DiffSel>,
    styles: Seq<Vec<Run>>,
    matches: Seq<DiffMatch>,
    cur: int,
    caret: Option<(DiffSide, usize, usize)>,
    caret_on: bool,
    i: int,
    p: PaneRow,
) -> bool {
    let t = side_text(rows[i], side);
    &&& p.bg == line_bg(side, rows[i].kind)
    &&& p.no == side_no(rows[i], side)
    &&& p.text@ == t
    &&& is_line_runs(
        t,
        line_styles(styles, side_no(rows[i], side)),
        pane_spans(matches, side, i, cur, sel, t.len() as int),
        p.runs@,
    )
    &&& p.caret == caret_col(caret, caret_on, side, i)
}

/// Every line that is numbered has a number above zero.
pub open spec fn numbered(rows: Seq<DiffRow>) -> bool {
    forall|i: int| 0 <= i < rows.len() ==> (#[trigger] rows[i]).left_no != Some(0usize) && rows[i].right_no != Some(0usize)
}

fn spans_of_matches(matches: &Vec<DiffMatch>, side: DiffSide, row: usize, cur: usize) -> (r: Vec<(usize, usize, u32)>)
    ensures
        r@ == match_spans(matches@, side, row as int, cur as int, matches@.len() as int),
{
    let mut out: Vec<(usize, usize, u32)> = Vec::new();
    let mut k: usize = 0;
    while k < matches.len()
        invariant
            k <= matches.len(),
            out@ == match_spans(matches@, side, row as int, cur as int, k as int),
        decreases matches.len() - k,
    {
        let m = matches[k];
        if m.side == side && m.row == row {
            let color: u32 = if k == cur {
                SEARCH_CURRENT_BG
            } else {
                SEARCH_MATCH_BG
            };
            out.push((m.start, m.end, color));
        }
        k = k + 1;
    }
    out
}

/// The lines of one side of the diff.
pub fn diff_pane(
    rows: &Vec<DiffRow>,
    side: DiffSide,
    sel: Option<DiffSel>,
    styles: &Vec<Vec<Run>>,
    matches: &Vec<DiffMatch>,
    cur_match: usize,
    caret: Option<(DiffSide, usize, usize)>,
    caret_on: bool,
) -> (r: Vec<PaneRow>)
    requires
        numbered(rows@),
    ensures
        r.len() == rows.len(),
        forall|i: int|
            0 <= i < rows.len() ==> is_pane_row(
                rows@,
                side,
                sel,
                styles@,
                matches@,
                cur_match as int,
                caret,
                caret_on,
                i,
                #[trigger] r@[i],
            ),
{
    let mut out: Vec<PaneRow> = Vec::new();
    let mut i: usize = 0;
    while i < rows.len()
        invariant
            i <= rows.len(),
            numbered(rows@),
            out.len() == i,
            forall|j: int|
                0 <= j < i ==> is_pane_row(
                    rows@,
                    side,
                    sel,
                    styles@,
                    matches@,
                    cur_match as int,
                    caret,
                    caret_on,
                    j,
                    #[trigger] out@[j],
                ),
        decreases rows.len() - i,
    {
        let row = &rows[i];
        assert(rows@[i as int].left_no != Some(0usize) && rows@[i as int].right_no != Some(0usize));
        let bg: u32 = match side {
            DiffSide::Left => match row.kind {
                DiffKind::Del | DiffKind::Replace => DIFF_REMOVE_BG,
                _ => 0,
            },
            DiffSide::Right => match row.kind {
                DiffKind::Ins | DiffKind::Replace => DIFF_ADD_BG,
                _ => 0,
            },
        };
        let no = match side {
            DiffSide::Left => row.left_no,
            DiffSide::Right => row.right_no,
        };
        let text = diff_side_text(row, side);
        let n: usize = char_count(text.as_str());
        let mut spans = spans_of_matches(matches, side, i, cur_match);
        match diff_row_sel(sel, side, i, n) {
            Some(p) => {
                spans.push((p.0, p.1, SELECTION));
            },
            None => {},
        }
        assert(spans@ == pane_spans(matches@, side, i as int, cur_match as int, sel, n as int));
        let st: Option<&Vec<Run>> = match no {
            Some(k) => if k <= styles.len() {
                Some(&styles[k - 1])
            } else {
                None
            },
            None => None,
        };
        let runs = diff_line_runs(text.as_str(), st, &spans);
        let col = match caret {
            Some(c) => if caret_on && c.0 == side && c.1 == i {
                Some(c.2)
            } else {
                None
            },
            None => None,
        };
        let p = PaneRow { bg, no, text, runs, caret: col };
        out.push(p);
        i = i + 1;
    }
    out
}

/// How many characters the longest line of a side has.
pub open spec fn longest(rows: Seq<DiffRow>, side: DiffSide, n: int) -> int
    decreases n,
{
    if n <= 0 {
        0
    } else {
        let l = longest(rows, side, n - 1);
        let k = side_text(rows[n - 1], side).len() as int;
        if k > l {
            k
        } else {
            l
        }
    }
}

/// How many characters the longest line of a side has: what its width is made from.
pub fn diff_side_width(rows: &Vec<DiffRow>, side: DiffSide) -> (r: usize)
    ensures
        r == longest(rows@, side, rows@.len() as int),
{
    let mut max: usize = 0;
    let mut i: usize = 0;
    while i < rows.len()
        invariant
            i <= rows.len(),
            max == longest(rows@, side, i as int),
        decreases rows.len() - i,
    {
        let t = diff_side_text(&rows[i], side);
        let k: usize = char_count(t.as_str());
        if k > max {
            max = k;
        }
        i = i + 1;
    }
    max
}

/// How many blocks of changed rows begin in the first `n` rows.
pub open spec fn hunks(rows: Seq<DiffRow>, n: int) -> int
    decreases n,
{
    if n <= 0 {
        0
    } else {
        hunks(rows, n - 1) + if rows[n - 1].kind != DiffKind::Equal && (n == 1 || rows[n - 2].kind == DiffKind::Equal) {
            1int
        } else {
            0
        }
    }
}

/// Counts the changed blocks: unbroken runs of rows that are not equal.
pub fn count_hunks(rows: &Vec<DiffRow>) -> (r: usize)
    ensures
        r == hunks(rows@, rows@.len() as int),
{
    let mut n: usize = 0;
    let mut in_hunk = false;
    let mut i: usize = 0;
    while i < rows.len()
        invariant
            i <= rows.len(),
            n == hunks(rows@, i as int),
            n <= i,
            in_hunk == (i > 0 && rows@[i - 1].kind != DiffKind::Equal),
        decreases rows.len() - i,
    {
        let changed = rows[i].kind != DiffKind::Equal;
        if changed && !in_hunk {
            n = n + 1;
        }
        in_hunk = changed;
        i = i + 1;
    }
    n
}

/// The first row that is not equal.
pub fn first_change_row(rows: &Vec<DiffRow>) -> (r: Option<usize>)
    ensures
        match r {
            Some(i) => i < rows.len() && rows@[i as int].kind != DiffKind::Equal && forall|j: int|
                0 <= j < i ==> (#[trigger] rows@[j]).kind == DiffKind::Equal,
            None => forall|j: int| 0 <= j < rows.len() ==> (#[trigger] rows@[j]).kind == DiffKind::Equal,
        },
{
    let mut i: usize = 0;
    while i < rows.len()
        invariant
            i <= rows.len(),
            forall|j: int| 0 <= j < i ==> (#[trigger] rows@[j]).kind == DiffKind::Equal,
        decreases rows.len() - i,
    {
        if rows[i].kind != DiffKind::Equal {
            return Some(i);
        }
        i = i + 1;
    }
    None
}

/// There is a changed block exactly where some row is changed.
pub proof fn hunks_need_a_change(rows: Seq<DiffRow>, n: int)
    requires
        0 <= n <= rows.len(),
    ensures
        hunks(rows, n) >= 0,
        hunks(rows, n) > 0 <==> exists|j: int| 0 <= j < n && (#[trigger] rows[j]).kind != DiffKind::Equal,
    decreases n,
{
    if n > 0 {
        hunks_need_a_change(rows, n - 1);
        if rows[n - 1].kind != DiffKind::Equal && n > 1 && rows[n - 2].kind != DiffKind::Equal {
            assert(0 <= n - 2 < n - 1 && rows[n - 2].kind != DiffKind::Equal);
        }
        if exists|j: int| 0 <= j < n && (#[trigger] rows[j]).kind != DiffKind::Equal {
            let j = choose|j: int| 0 <= j < n && (#[trigger] rows[j]).kind != DiffKind::Equal;
            if j < n - 1 {
                assert(0 <= j < n - 1 && rows[j].kind != DiffKind::Equal);
            }
        }
    }
}

/// The position in the file that a place in the diff stands for: the line number of its
/// side, or of the other side where it has none, and the column counted from 1.
pub open spec fn file_pos(rows: Seq<DiffRow>, side: DiffSide, row: int, col: int) -> (int, int) {
    let line = if row < rows.len() {
        let r = rows[row];
        let (a, b) = match side {
            DiffSide::Left => (r.left_no, r.right_no),
            DiffSide::Right => (r.right_no, r.left_no),
        };
        match a {
            Some(n) => n as int,
            None => match b {
                Some(n) => n as int,
                None => 1,
            },
        }
    } else {
        1
    };
    (
        line,
        if col < usize::MAX {
            col + 1
        } else {
            usize::MAX as int
        },
    )
}

/// The place of the caret, else of the selection's head, else the beginning.
pub open spec fn cursor_place(caret: Option<(DiffSide, usize, usize)>, sel: Option<DiffSel>) -> (DiffSide, usize, usize) {
    match caret {
        Some(c) => c,
        None => match sel {
            Some(s) => (s.side, s.head.0, s.head.1),
            None => (DiffSide::Right, 0, 0),
        },
    }
}

/// The line and the column of the real file at which the cursor stands.
pub fn cursor_file_pos(rows: &Vec<DiffRow>, caret: Option<(DiffSide, usize, usize)>, sel: Option<DiffSel>) -> (r: (usize, usize))
    ensures
        (r.0 as int, r.1 as int) == file_pos(
            rows@,
            cursor_place(caret, sel).0,
            cursor_place(caret, sel).1 as int,
            cursor_place(caret, sel).2 as int,
        ),
{
    let (side, row, col) = match caret {
        Some(c) => c,
        None => match sel {
            Some(s) => (s.side, s.head.0, s.head.1),
            None => (DiffSide::Right, 0, 0),
        },
    };
    let line: usize = if row < rows.len() {
        let r = &rows[row];
        let (a, b) = match side {
            DiffSide::Left => (r.left_no, r.right_no),
            DiffSide::Right => (r.right_no, r.left_no),
        };
        match a {
            Some(n) => n,
            None => match b {
                Some(n) => n,
                None => 1,
            },
        }
    } else {
        1
    };
    (
        line,
        if col < usize::MAX {
            col + 1
        } else {
            col
        },
    )
}

/// The text with every tab made four blanks, so that columns and characters agree.
pub open spec fn tabs_expanded(s: Seq<char>) -> Seq<char>
    decreases s.len(),
{
    if s.len() == 0 {
        Seq::empty()
    } else if s.last() == '\t' {
        tabs_expanded(s.drop_last()) + seq![' ', ' ', ' ', ' ']
    } else {
        tabs_expanded(s.drop_last()).push(s.last())
    }
}

/// Expands the tabs of a text.
pub fn expand_tabs(s: &str) -> (r: String)
    ensures
        r@ == tabs_expanded(s@),
{
    let v = chars_of(s);
    let mut out = String::new();
    let mut i: usize = 0;
    assert(s@.take(0) =~= Seq::<char>::empty());
    while i < v.len()
        invariant
            i <= v.len(),
            v@ == s@,
            out@ == tabs_expanded(s@.take(i as int)),
        decreases v.len() - i,
    {
        let c = v[i];
        let ghost was = out@;
        proof {
            assert(s@.take(i + 1).drop_last() =~= s@.take(i as int));
            assert(s@.take(i + 1).last() == c);
        }
        if c == '\t' {
            out.push(' ');
            out.push(' ');
            out.push(' ');
            out.push(' ');
            assert(out@ =~= was + seq![' ', ' ', ' ', ' ']);
        } else {
            out.push(c);
        }
        i = i + 1;
    }
    assert(s@.take(s@.len() as int) =~= s@);
    out
}

/// Expanding leaves no tab.
pub proof fn expanding_leaves_no_tab(s: Seq<char>)
    ensures
        !tabs_expanded(s).contains('\t'),
        tabs_expanded(s).len() >= s.len(),
    decreases s.len(),
{
    if s.len() > 0 {
        expanding_leaves_no_tab(s.drop_last());
        let h = tabs_expanded(s.drop_last());
        let r = tabs_expanded(s);
        assert forall|i: int| 0 <= i < r.len() implies r[i] != '\t' by {
            if i < h.len() {
                assert(r[i] == h[i]);
                assert(h.contains(h[i]));
            }
        }
    }
}

/// What the two sides of a diff are taken from: two revisions, or the last commit and
/// the file on disk.
#[derive(Debug)]
pub enum DiffSource {
    Revs { old: String, new: String },
    Working,
}

/// An old revision is compared with the new one, or with the last commit where none is
/// given; without an old revision it is the working tree that is compared.
pub fn diff_source(old: &Option<String>, new_rev: &Option<String>) -> (r: DiffSource)
    ensures
        match r {
            DiffSource::Revs { old: o, new: n } => opt_text(*old) == Some(o@) && n@ == match *new_rev {
                Some(x) => x@,
                None => "HEAD"@,
            },
            DiffSource::Working => *old is None,
        },
        *old is Some ==> r is Revs,
{
    match old {
        Some(o) => DiffSource::Revs {
            old: o.clone(),
            new: match new_rev {
                Some(n) => n.clone(),
                None => "HEAD".to_owned(),
            },
        },
        None => DiffSource::Working,
    }
}

// ── what is found and selected in a diff ────────────────────────────────────

proof fn lemma_next_place(t: Seq<char>, q: Seq<char>, from: int)
    requires
        0 <= from,
    ensures
        match next_at(t, q, from) {
            Some(i) => from <= i && occurs_at(t, q, i) && forall|j: int| from <= j < i ==> !#[trigger] occurs_at(t, q, j),
            None => forall|j: int| from <= j ==> !#[trigger] occurs_at(t, q, j),
        },
    decreases t.len() - from + 1,
{
    if from + q.len() <= t.len() && !occurs_at(t, q, from) {
        lemma_next_place(t, q, from + 1);
    }
}

/// Whether a place is covered by one of the places where a text of that length was found.
pub open spec fn covered(h: Seq<int>, len: int, i: int) -> bool {
    exists|k: int| 0 <= k < h.len() && #[trigger] h[k] <= i < h[k] + len
}

proof fn lemma_hit_stands(t: Seq<char>, q: Seq<char>, from: int, k: int)
    requires
        0 <= from,
        0 <= k < hits_from(t, q, from).len(),
    ensures
        from <= hits_from(t, q, from)[k],
        occurs_at(t, q, hits_from(t, q, from)[k]),
    decreases t.len() - from + 1,
{
    lemma_next_place(t, q, from);
    if let Some(i) = next_at(t, q, from) {
        let r = hits_from(t, q, i + q.len());
        assert(hits_from(t, q, from) == seq![i] + r);
        if k > 0 {
            lemma_hit_stands(t, q, i + q.len(), k - 1);
            assert(hits_from(t, q, from)[k] == r[k - 1]);
        }
    }
}

proof fn lemma_hit_covers(t: Seq<char>, q: Seq<char>, from: int, x: int)
    requires
        0 <= from <= x,
        q.len() > 0,
        occurs_at(t, q, x),
    ensures
        covered(hits_from(t, q, from), q.len() as int, x),
    decreases t.len() - from + 1,
{
    lemma_next_place(t, q, from);
    let h = hits_from(t, q, from);
    if let Some(i) = next_at(t, q, from) {
        let r = hits_from(t, q, i + q.len());
        assert(h == seq![i] + r);
        assert(h[0] == i);
        if x < i + q.len() {
            assert(i <= x);
            assert(h[0] <= x < h[0] + q.len());
        } else {
            lemma_hit_covers(t, q, i + q.len(), x);
            let k = choose|k: int| 0 <= k < r.len() && #[trigger] r[k] <= x < r[k] + q.len();
            assert(h[k + 1] == r[k]);
        }
    }
}

/// Whether a match stands in a row and on a side where the query does, in lower case.
pub open spec fn is_match(rows: Seq<DiffRow>, q: Seq<char>, m: DiffMatch) -> bool {
    &&& m.row < rows.len()
    &&& m.end == m.start + q.len()
    &&& occurs_at(lower(side_text(rows[m.row as int], m.side)), q, m.start as int)
}

/// Whether a match covers a place.
pub open spec fn match_covers(m: DiffMatch, side: DiffSide, row: int, i: int) -> bool {
    m.side == side && m.row == row && m.start <= i < m.end
}

/// Whether the lines are short enough to be counted.
pub open spec fn countable_lines(rows: Seq<DiffRow>) -> bool {
    &&& rows.len() <= usize::MAX
    &&& forall|i: int, side: DiffSide| 0 <= i < rows.len() ==> lower(#[trigger] side_text(rows[i], side)).len() <= usize::MAX
}

/// Whether some match of a list covers a place.
pub open spec fn place_matched(v: Seq<DiffMatch>, side: DiffSide, row: int, i: int) -> bool {
    exists|k: int| 0 <= k < v.len() && match_covers(#[trigger] v[k], side, row, i)
}

proof fn lemma_side_match(rows: Seq<DiffRow>, q: Seq<char>, row: int, side: DiffSide, k: int)
    requires
        countable_lines(rows),
        0 <= row < rows.len(),
        0 <= k < side_matches(rows, q, row, side).len(),
    ensures
        is_match(rows, q, side_matches(rows, q, row, side)[k]),
        side_matches(rows, q, row, side)[k].row == row,
        side_matches(rows, q, row, side)[k].side == side,
{
    let t = lower(side_text(rows[row], side));
    assert(t.len() <= usize::MAX);
    lemma_hit_stands(t, q, 0, k);
}

proof fn lemma_side_covers(rows: Seq<DiffRow>, q: Seq<char>, row: int, side: DiffSide, i: int)
    requires
        q.len() > 0,
        countable_lines(rows),
        0 <= row < rows.len(),
        0 <= i,
        occurs_at(lower(side_text(rows[row], side)), q, i),
    ensures
        place_matched(side_matches(rows, q, row, side), side, row, i),
{
    let t = lower(side_text(rows[row], side));
    assert(t.len() <= usize::MAX);
    lemma_hit_covers(t, q, 0, i);
    let h = hits_from(t, q, 0);
    let k = choose|k: int| 0 <= k < h.len() && #[trigger] h[k] <= i < h[k] + q.len();
    lemma_hit_stands(t, q, 0, k);
    assert(match_covers(side_matches(rows, q, row, side)[k], side, row, i));
}

proof fn lemma_row_match(rows: Seq<DiffRow>, q: Seq<char>, n: int, k: int)
    requires
        countable_lines(rows),
        0 <= n <= rows.len(),
        0 <= k < row_matches(rows, q, n).len(),
    ensures
        is_match(rows, q, row_matches(rows, q, n)[k]),
        row_matches(rows, q, n)[k].row < n,
    decreases n,
{
    if n > 0 {
        let a = row_matches(rows, q, n - 1);
        let b = side_matches(rows, q, n - 1, DiffSide::Left);
        let c = side_matches(rows, q, n - 1, DiffSide::Right);
        let v = row_matches(rows, q, n);
        assert(v == a + b + c);
        if k < a.len() {
            lemma_row_match(rows, q, n - 1, k);
            assert(v[k] == a[k]);
        } else if k < a.len() + b.len() {
            lemma_side_match(rows, q, n - 1, DiffSide::Left, k - a.len());
            assert(v[k] == b[k - a.len()]);
        } else {
            lemma_side_match(rows, q, n - 1, DiffSide::Right, k - a.len() - b.len());
            assert(v[k] == c[k - a.len() - b.len()]);
        }
    }
}

proof fn lemma_row_covers(rows: Seq<DiffRow>, q: Seq<char>, n: int, row: int, side: DiffSide, i: int)
    requires
        q.len() > 0,
        countable_lines(rows),
        0 <= row < n <= rows.len(),
        0 <= i,
        occurs_at(lower(side_text(rows[row], side)), q, i),
    ensures
        place_matched(row_matches(rows, q, n), side, row, i),
    decreases n,
{
    let a = row_matches(rows, q, n - 1);
    let b = side_matches(rows, q, n - 1, DiffSide::Left);
    let c = side_matches(rows, q, n - 1, DiffSide::Right);
    let v = row_matches(rows, q, n);
    assert(v == a + b + c);
    if row < n - 1 {
        lemma_row_covers(rows, q, n - 1, row, side, i);
        let k = choose|k: int| 0 <= k < a.len() && match_covers(#[trigger] a[k], side, row, i);
        assert(v[k] == a[k]);
    } else {
        lemma_side_covers(rows, q, row, side, i);
        if side == DiffSide::Left {
            let k = choose|k: int| 0 <= k < b.len() && match_covers(#[trigger] b[k], side, row, i);
            assert(v[a.len() + k] == b[k]);
        } else {
            let k = choose|k: int| 0 <= k < c.len() && match_covers(#[trigger] c[k], side, row, i);
            assert(v[a.len() + b.len() + k] == c[k]);
        }
    }
}

/// A search in a diff finds the query wherever it stands, on either side of any row, upper and
/// lower case alike: some match covers the place.
pub proof fn a_search_finds_every_occurrence(rows: Seq<DiffRow>, query: Seq<char>, row: int, side: DiffSide, i: int)
    requires
        lower(query).len() > 0,
        countable_lines(rows),
        0 <= row < rows.len(),
        0 <= i,
        occurs_at(lower(side_text(rows[row], side)), lower(query), i),
    ensures
        place_matched(all_matches(rows, query), side, row, i),
{
    lemma_row_covers(rows, lower(query), rows.len() as int, row, side, i);
}

/// A match stands where the query does, and an empty query has none.
pub proof fn a_match_holds_the_query(rows: Seq<DiffRow>, query: Seq<char>, k: int)
    requires
        countable_lines(rows),
        0 <= k < all_matches(rows, query).len(),
    ensures
        is_match(rows, lower(query), all_matches(rows, query)[k]),
        lower(query).len() > 0,
{
    lemma_row_match(rows, lower(query), rows.len() as int, k);
}

/// A row shows the line of its own side, and the number beside it.
pub proof fn a_side_shows_its_own_line(row: DiffRow)
    ensures
        row.left is Some ==> side_text(row, DiffSide::Left) == row.left->0@,
        row.right is Some ==> side_text(row, DiffSide::Right) == row.right->0@,
        row.left is None ==> side_text(row, DiffSide::Left).len() == 0,
        row.right is None ==> side_text(row, DiffSide::Right).len() == 0,
        side_no(row, DiffSide::Left) == row.left_no,
        side_no(row, DiffSide::Right) == row.right_no,
{
}

/// Lines that went are coloured on the left and lines that came on the right, in colours of their
/// own; a side without a change has none.
pub proof fn changes_are_coloured_on_their_side(kind: DiffKind)
    ensures
        line_bg(DiffSide::Left, kind) == 0x3a2526 <==> kind == DiffKind::Del || kind == DiffKind::Replace,
        line_bg(DiffSide::Right, kind) == 0x26331f <==> kind == DiffKind::Ins || kind == DiffKind::Replace,
        line_bg(DiffSide::Left, kind) == 0 <==> kind == DiffKind::Equal || kind == DiffKind::Ins,
        line_bg(DiffSide::Right, kind) == 0 <==> kind == DiffKind::Equal || kind == DiffKind::Del,
{
}

/// In a selection over several rows the first row is taken from its place to its end, the last one
/// from its beginning to its place, and the rows between whole; on the other side nothing is.
pub proof fn rows_of_a_selection(s: DiffSel, r: int, len: int)
    requires
        0 <= len,
        s.anchor.0 < s.head.0,
    ensures
        s.anchor.0 < r < s.head.0 && len > 0 ==> row_sel(Some(s), s.side, r, len) == Some((0int, len)),
        r == s.anchor.0 && s.anchor.1 < len ==> row_sel(Some(s), s.side, r, len) == Some((s.anchor.1 as int, len)),
        r == s.head.0 && 0 < s.head.1 <= len ==> row_sel(Some(s), s.side, r, len) == Some((0int, s.head.1 as int)),
        r < s.anchor.0 || r > s.head.0 ==> row_sel(Some(s), s.side, r, len) is None,
        row_sel(None, s.side, r, len) is None,
        forall|side: DiffSide| side != s.side ==> row_sel(Some(s), side, r, len) is None,
        row_sel(Some(s), s.side, r, len) == row_sel(Some(DiffSel { anchor: s.head, head: s.anchor, ..s }), s.side, r, len),
{
}

/// The text of a selection in one row is what lies between its ends; over several rows it is the
/// rest of the first, a newline, and the selection from the next row's beginning.
pub proof fn selected_text_goes_row_by_row(rows: Seq<DiffRow>, side: DiffSide, r: usize, a: usize, e: (usize, usize))
    requires
        r < rows.len(),
        e.0 < rows.len(),
        a <= side_text(rows[r as int], side).len(),
    ensures
        r == e.0 && a <= e.1 <= side_text(rows[r as int], side).len() ==> selection_text(rows, DiffSel { side, anchor: (r, a), head: e })
            == side_text(rows[r as int], side).subrange(a as int, e.1 as int),
        r < e.0 ==> selection_text(rows, DiffSel { side, anchor: (r, a), head: e }) == side_text(rows[r as int], side).skip(a as int) + seq!['\n']
            + selection_text(rows, DiffSel { side, anchor: ((r + 1) as usize, 0), head: e }),
{
    let t = side_text(rows[r as int], side);
    let v = selected_lines(rows, side, (r, a), e);
    if r == e.0 && a <= e.1 <= t.len() {
        assert(v =~= seq![t.subrange(a as int, e.1 as int)]);
        assert(v.drop_last() =~= Seq::<Seq<char>>::empty());
        assert(joined(v, seq!['\n']) =~= v[0]);
    }
    if r < e.0 {
        let n = ((r + 1) as usize, 0usize);
        let w = selected_lines(rows, side, n, e);
        assert(t.subrange(a as int, t.len() as int) =~= t.skip(a as int));
        assert(v =~= seq![t.skip(a as int)] + w);
        lemma_joined_front(t.skip(a as int), w);
    }
}

proof fn lemma_joined_front(x: Seq<char>, w: Seq<Seq<char>>)
    requires
        w.len() > 0,
    ensures
        joined(seq![x] + w, seq!['\n']) == x + seq!['\n'] + joined(w, seq!['\n']),
    decreases w.len(),
{
    let v = seq![x] + w;
    let u = w.drop_last();
    assert(v.drop_last() =~= seq![x] + u);
    assert(v.last() == w.last());
    if u.len() == 0 {
        assert(seq![x] + u =~= seq![x]);
        assert(seq![x].drop_last() =~= Seq::<Seq<char>>::empty());
        assert(joined(seq![x], seq!['\n']) =~= x);
        assert(joined(w, seq!['\n']) =~= w.last());
        assert(joined(v, seq!['\n']) =~= x + seq!['\n'] + w.last());
    } else {
        lemma_joined_front(x, u);
        assert(joined(v, seq!['\n']) =~= x + seq!['\n'] + joined(w, seq!['\n']));
    }
}

/// A changed row begins a block of changes exactly where the row before it is unchanged or there is
/// none; other rows begin none.
pub proof fn blocks_begin_behind_equal_rows(rows: Seq<DiffRow>, n: int)
    requires
        0 < n <= rows.len(),
    ensures
        rows[n - 1].kind == DiffKind::Equal ==> hunks(rows, n) == hunks(rows, n - 1),
        n > 1 && rows[n - 1].kind != DiffKind::Equal && rows[n - 2].kind != DiffKind::Equal ==> hunks(rows, n) == hunks(rows, n - 1),
        n > 1 && rows[n - 1].kind != DiffKind::Equal && rows[n - 2].kind == DiffKind::Equal ==> hunks(rows, n) == hunks(rows, n - 1) + 1,
        rows[0].kind != DiffKind::Equal ==> hunks(rows, 1) == 1,
        hunks(rows, 0) == 0,
{
}

/// A place in a diff stands for the line that its side numbers there, or the other side where it
/// has no line, and for the column counted from 1.
pub proof fn places_stand_for_lines(rows: Seq<DiffRow>, row: int, col: int)
    requires
        0 <= row < rows.len(),
        0 <= col < usize::MAX,
    ensures
        rows[row].left_no is Some ==> file_pos(rows, DiffSide::Left, row, col) == (rows[row].left_no->0 as int, col + 1),
        rows[row].right_no is Some ==> file_pos(rows, DiffSide::Right, row, col) == (rows[row].right_no->0 as int, col + 1),
        rows[row].left_no is None && rows[row].right_no is Some ==> file_pos(rows, DiffSide::Left, row, col) == (rows[row].right_no->0 as int, col + 1),
        rows[row].right_no is None && rows[row].left_no is Some ==> file_pos(rows, DiffSide::Right, row, col) == (rows[row].left_no->0 as int, col + 1),
{
}

/// The caret counts before the selection, and the head of a selection counts where there is no
/// caret.
pub proof fn the_caret_comes_first(c: (DiffSide, usize, usize), s: Option<DiffSel>, t: DiffSel)
    ensures
        cursor_place(Some(c), s) == c,
        cursor_place(None, Some(t)) == (t.side, t.head.0, t.head.1),
{
}

/// No line of a side is longer than the longest, and one is as long.
pub proof fn the_longest_line_is_one_of_them(rows: Seq<DiffRow>, side: DiffSide, n: int)
    requires
        0 <= n <= rows.len(),
    ensures
        forall|i: int| 0 <= i < n ==> #[trigger] side_text(rows[i], side).len() <= longest(rows, side, n),
        longest(rows, side, n) > 0 ==> exists|i: int| 0 <= i < n && #[trigger] side_text(rows[i], side).len() == longest(rows, side, n),
        longest(rows, side, n) >= 0,
    decreases n,
{
    if n > 0 {
        the_longest_line_is_one_of_them(rows, side, n - 1);
        let k = side_text(rows[n - 1], side).len();
        if longest(rows, side, n) > 0 && longest(rows, side, n - 1) == longest(rows, side, n) && k < longest(rows, side, n) {
            let i = choose|i: int| 0 <= i < n - 1 && #[trigger] side_text(rows[i], side).len() == longest(rows, side, n - 1);
            assert(side_text(rows[i], side).len() == longest(rows, side, n));
        }
    }
}

/// A tab becomes four blanks and any other character stays.
pub proof fn tabs_become_four_blanks(a: Seq<char>, c: char)
    ensures
        c != '\t' ==> tabs_expanded(a.push(c)) == tabs_expanded(a).push(c),
        tabs_expanded(a.push('\t')) == tabs_expanded(a) + seq![' ', ' ', ' ', ' '],
        tabs_expanded(Seq::empty()).len() == 0,
{
    assert(a.push(c).drop_last() =~= a);
    assert(a.push('\t').drop_last() =~= a);
}

/// Of the backgrounds over a place the last counts, the selection before a match; the current match
/// has a colour of its own.
pub proof fn the_last_background_counts(text: Seq<char>, spans: Seq<(usize, usize, u32)>, s: (usize, usize, u32), a: int, b: int)
    ensures
        byte_at(text, s.0 as int) <= a && b <= byte_at(text, s.1 as int) ==> bg_at(text, spans.push(s), a, b) == Some(s.2),
        !(byte_at(text, s.0 as int) <= a && b <= byte_at(text, s.1 as int)) ==> bg_at(text, spans.push(s), a, b) == bg_at(text, spans, a, b),
        bg_at(text, Seq::empty(), a, b) is None,
{
    assert(spans.push(s).drop_last() =~= spans);
}

/// The colour at a place is that of the run that covers it.
pub proof fn a_run_colours_its_bytes(a: Seq<Run>, r: Run, b: Seq<Run>, pos: int)
    requires
        run_total(a) <= pos < run_total(a) + r.0,
    ensures
        color_at(a + seq![r] + b, pos) == r.1,
    decreases a.len(),
{
    let v = a + seq![r] + b;
    if a.len() > 0 {
        let c = a.drop_first();
        lemma_total_front(a);
        assert(v[0] == a[0]);
        assert(v.drop_first() =~= c + seq![r] + b);
        a_run_colours_its_bytes(c, r, b, pos - a[0].0);
    } else {
        assert(v[0] == r);
    }
}

proof fn lemma_total_front(a: Seq<Run>)
    requires
        a.len() > 0,
    ensures
        run_total(a) == a[0].0 + run_total(a.drop_first()),
    decreases a.len(),
{
    if a.len() > 1 {
        lemma_total_front(a.drop_last());
        assert(a.drop_first().drop_last() =~= a.drop_last().drop_first());
        assert(a.drop_first().last() == a.last());
    } else {
        assert(a.drop_first() =~= Seq::<Run>::empty());
        assert(a.drop_last() =~= Seq::<Run>::empty());
        assert(run_total(a.drop_last()) == 0);
    }
}

/// A selection within one row is what lies between its ends, whichever of them came first.
pub proof fn a_selection_in_one_row(s: DiffSel, len: int)
    requires
        s.anchor.0 == s.head.0,
        s.anchor.1 <= len && s.head.1 <= len,
    ensures
        s.anchor.1 < s.head.1 ==> row_sel(Some(s), s.side, s.anchor.0 as int, len) == Some((s.anchor.1 as int, s.head.1 as int)),
        s.head.1 < s.anchor.1 ==> row_sel(Some(s), s.side, s.anchor.0 as int, len) == Some((s.head.1 as int, s.anchor.1 as int)),
        s.anchor.1 == s.head.1 ==> row_sel(Some(s), s.side, s.anchor.0 as int, len) is None,
{
}

proof fn lemma_match_spans(matches: Seq<DiffMatch>, side: DiffSide, row: int, cur: int, n: int, k: int)
    requires
        0 <= n <= matches.len(),
        0 <= k < n,
        matches[k].side == side && matches[k].row == row,
    ensures
        match_spans(matches, side, row, cur, n).contains(
            (matches[k].start, matches[k].end, if k == cur { SEARCH_CURRENT_BG } else { SEARCH_MATCH_BG }),
        ),
    decreases n,
{
    let x = (matches[k].start, matches[k].end, if k == cur { SEARCH_CURRENT_BG } else { SEARCH_MATCH_BG });
    let s = match_spans(matches, side, row, cur, n - 1);
    let t = match_spans(matches, side, row, cur, n);
    if k == n - 1 {
        assert(t[t.len() - 1] == x);
    } else {
        lemma_match_spans(matches, side, row, cur, n - 1, k);
        let j = choose|j: int| 0 <= j < s.len() && s[j] == x;
        assert(t[j] == x);
    }
}

proof fn lemma_spans_match(matches: Seq<DiffMatch>, side: DiffSide, row: int, cur: int, n: int, j: int)
    requires
        0 <= n <= matches.len(),
        0 <= j < match_spans(matches, side, row, cur, n).len(),
    ensures
        exists|k: int|
            0 <= k < n && (#[trigger] matches[k]).side == side && matches[k].row == row && match_spans(matches, side, row, cur, n)[j] == (
                matches[k].start,
                matches[k].end,
                if k == cur { SEARCH_CURRENT_BG } else { SEARCH_MATCH_BG },
            ),
    decreases n,
{
    let s = match_spans(matches, side, row, cur, n - 1);
    if j < s.len() {
        lemma_spans_match(matches, side, row, cur, n - 1, j);
    } else {
        assert(matches[n - 1].side == side);
    }
}

/// Every match of a row has a background on its side, that of the current one its own; nothing else
/// has one but the selection, which comes last.
pub proof fn matches_and_selection_are_backgrounds(
    matches: Seq<DiffMatch>,
    side: DiffSide,
    row: int,
    cur: int,
    sel: Option<DiffSel>,
    len: int,
    k: int,
    j: int,
)
    requires
        0 <= k < matches.len(),
        0 <= j < pane_spans(matches, side, row, cur, sel, len).len(),
    ensures
        ({
            let v = pane_spans(matches, side, row, cur, sel, len);
            let part = row_sel(sel, side, row, len);
            &&& matches[k].side == side && matches[k].row == row && k == cur ==> v.contains((matches[k].start, matches[k].end, SEARCH_CURRENT_BG))
            &&& matches[k].side == side && matches[k].row == row && k != cur ==> v.contains((matches[k].start, matches[k].end, SEARCH_MATCH_BG))
            &&& part is Some ==> v.last() == ((part->0).0 as usize, (part->0).1 as usize, SELECTION)
            &&& (part is None || j < v.len() - 1) ==> exists|i: int|
                0 <= i < matches.len() && (#[trigger] matches[i]).side == side && matches[i].row == row && v[j].0 == matches[i].start && v[j].1
                    == matches[i].end
        }),
{
    let n = matches.len() as int;
    let m = match_spans(matches, side, row, cur, n);
    let v = pane_spans(matches, side, row, cur, sel, len);
    if matches[k].side == side && matches[k].row == row {
        lemma_match_spans(matches, side, row, cur, n, k);
        let x = (matches[k].start, matches[k].end, if k == cur { SEARCH_CURRENT_BG } else { SEARCH_MATCH_BG });
        let i = choose|i: int| 0 <= i < m.len() && m[i] == x;
        assert(v[i] == x);
    }
    if row_sel(sel, side, row, len) is None || j < v.len() - 1 {
        lemma_spans_match(matches, side, row, cur, n, j);
    }
}

/// A pane shows of each row the line of its side with the number it has in its file, and the caret
/// where it stands while it is lit.
pub proof fn a_pane_shows_its_side(
    rows: Seq<DiffRow>,
    sel: Option<DiffSel>,
    styles: Seq<Vec<Run>>,
    matches: Seq<DiffMatch>,
    cur: int,
    caret: Option<(DiffSide, usize, usize)>,
    on: bool,
    i: int,
    l: PaneRow,
    r: PaneRow,
)
    requires
        0 <= i < rows.len(),
        is_pane_row(rows, DiffSide::Left, sel, styles, matches, cur, caret, on, i, l),
        is_pane_row(rows, DiffSide::Right, sel, styles, matches, cur, caret, on, i, r),
    ensures
        rows[i].left is Some ==> l.text@ == (rows[i].left->0)@,
        rows[i].right is Some ==> r.text@ == (rows[i].right->0)@,
        l.no == rows[i].left_no && r.no == rows[i].right_no,
        l.bg == line_bg(DiffSide::Left, rows[i].kind) && r.bg == line_bg(DiffSide::Right, rows[i].kind),
        l.caret is Some <==> on && caret is Some && (caret->0).0 == DiffSide::Left && (caret->0).1 == i,
        r.caret is Some <==> on && caret is Some && (caret->0).0 == DiffSide::Right && (caret->0).1 == i,
        l.caret is Some ==> l.caret->0 == (caret->0).2,
        r.caret is Some ==> r.caret->0 == (caret->0).2,
        1 <= i < styles.len() && i <= usize::MAX ==> line_styles(styles, Some(i as usize)) == Some(styles[i - 1]@),
{
}

} // verus!
