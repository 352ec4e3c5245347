//! What the terminal paints: rows of text with their colour runs, cell backgrounds, drawn
//! glyphs and the selection.
use vstd::prelude::*;
use crate::diff::{Run, reading_order, run_total};
use crate::term::{Sel, TermCell, Terminal, shown};
use crate::text::{byte_len, filter_map, lemma_filter_map_ends, lemma_filter_map_step, lemma_utf8_concat, mapping_keeps_members, utf8_len};
use crate::vt::{NamedColor, TermColor, color_u32, term_color};

verus! {

// ── drawn glyphs ────────────────────────────────────────────────────────────

/// A side of a cell.
#[derive(Clone, Copy, Debug, PartialEq, Eq, Structural)]
pub enum Side {
    Left,
    Right,
    Top,
    Bottom,
}

/// A part of a cell that is filled. Lines run through the middle of the cell; a half line
/// reaches from the middle to one side. A lane is one of the two lines of a double line,
/// above or left of the middle or, the second, below or right of it, and reaches to one side.
/// A part of a line goes from one place to another, counted in parts of the cell's width or
/// height. A block is given by its corner and its size, counted in eighths of the cell's width
/// and height; a shade by how many quarters of the colour it lets through.
#[derive(Clone, Copy, Debug, PartialEq, Eq, Structural)]
pub enum Stroke {
    HFull,
    VFull,
    HLeft,
    HRight,
    VTop,
    VBottom,
    Lane { side: Side, second: bool },
    HPart { from: u8, to: u8, of: u8 },
    VPart { from: u8, to: u8, of: u8 },
    Block { x: u8, y: u8, w: u8, h: u8 },
    Shade(u8),
}

/// How many lines of a line-drawing character reach to each side: left, right, top, bottom.
/// Light and heavy lines are drawn alike.
pub open spec fn arms(n: u32) -> Option<(u8, u8, u8, u8)> {
    if n < 0x2500 || n > 0x257f {
        None
    } else if n <= 0x2501 {
        Some((1, 1, 0, 0))
    } else if n <= 0x2503 {
        Some((0, 0, 1, 1))
    } else if n <= 0x250b {
        None
    } else if n <= 0x250f {
        Some((0, 1, 0, 1))
    } else if n <= 0x2513 {
        Some((1, 0, 0, 1))
    } else if n <= 0x2517 {
        Some((0, 1, 1, 0))
    } else if n <= 0x251b {
        Some((1, 0, 1, 0))
    } else if n <= 0x2523 {
        Some((0, 1, 1, 1))
    } else if n <= 0x252b {
        Some((1, 0, 1, 1))
    } else if n <= 0x2533 {
        Some((1, 1, 0, 1))
    } else if n <= 0x253b {
        Some((1, 1, 1, 0))
    } else if n <= 0x254b {
        Some((1, 1, 1, 1))
    } else if n <= 0x254f {
        None
    } else if n <= 0x256c {
        Some(double_arms(n))
    } else if n == 0x256d {
        Some((0, 1, 0, 1))
    } else if n == 0x256e {
        Some((1, 0, 0, 1))
    } else if n == 0x256f {
        Some((1, 0, 1, 0))
    } else if n == 0x2570 {
        Some((0, 1, 1, 0))
    } else if n <= 0x2573 {
        None
    } else if n == 0x2574 || n == 0x2578 {
        Some((1, 0, 0, 0))
    } else if n == 0x2575 || n == 0x2579 {
        Some((0, 0, 1, 0))
    } else if n == 0x2576 || n == 0x257a {
        Some((0, 1, 0, 0))
    } else if n == 0x2577 || n == 0x257b {
        Some((0, 0, 0, 1))
    } else if n == 0x257c || n == 0x257e {
        Some((1, 1, 0, 0))
    } else {
        Some((0, 0, 1, 1))
    }
}

/// The same for the characters with double lines. Behind the two whole lines they come in
/// threes: double across, double down, double both.
pub open spec fn double_arms(n: u32) -> (u8, u8, u8, u8) {
    let k = (n - 0x2552) % 3;
    let h: u8 = if k == 1 {
        1
    } else {
        2
    };
    let v: u8 = if k == 0 {
        1
    } else {
        2
    };
    if n == 0x2550 {
        (2, 2, 0, 0)
    } else if n == 0x2551 {
        (0, 0, 2, 2)
    } else if n <= 0x2554 {
        (0, h, 0, v)
    } else if n <= 0x2557 {
        (h, 0, 0, v)
    } else if n <= 0x255a {
        (0, h, v, 0)
    } else if n <= 0x255d {
        (h, 0, v, 0)
    } else if n <= 0x2560 {
        (0, h, v, v)
    } else if n <= 0x2563 {
        (h, 0, v, v)
    } else if n <= 0x2566 {
        (h, h, 0, v)
    } else if n <= 0x2569 {
        (h, h, v, 0)
    } else {
        (h, h, v, v)
    }
}

/// The two lines of a double line that reaches to a side.
pub open spec fn lanes(count: u8, side: Side) -> Seq<Stroke> {
    if count == 2 {
        seq![Stroke::Lane { side, second: false }, Stroke::Lane { side, second: true }]
    } else {
        Seq::empty()
    }
}

/// The strokes that reach to those sides: single lines, whole ones before half ones and
/// the horizontal one before the vertical one, then double lines side by side.
pub open spec fn arm_strokes(a: (u8, u8, u8, u8)) -> Seq<Stroke> {
    let l = a.0 == 1;
    let r = a.1 == 1;
    let t = a.2 == 1;
    let b = a.3 == 1;
    let none = Seq::<Stroke>::empty();
    (if l && r {
        seq![Stroke::HFull]
    } else {
        none
    }) + (if t && b {
        seq![Stroke::VFull]
    } else {
        none
    }) + (if l && !r {
        seq![Stroke::HLeft]
    } else if r && !l {
        seq![Stroke::HRight]
    } else {
        none
    }) + (if t && !b {
        seq![Stroke::VTop]
    } else if b && !t {
        seq![Stroke::VBottom]
    } else {
        none
    }) + lanes(a.0, Side::Left) + lanes(a.1, Side::Right) + lanes(a.2, Side::Top) + lanes(
        a.3,
        Side::Bottom,
    )
}

/// Whether a dashed line goes across, and of how many dashes it is made.
pub open spec fn dashes(n: u32) -> Option<(bool, u8)> {
    if n == 0x2504 || n == 0x2505 {
        Some((true, 3))
    } else if n == 0x2506 || n == 0x2507 {
        Some((false, 3))
    } else if n == 0x2508 || n == 0x2509 {
        Some((true, 4))
    } else if n == 0x250a || n == 0x250b {
        Some((false, 4))
    } else if n == 0x254c || n == 0x254d {
        Some((true, 2))
    } else if n == 0x254e || n == 0x254f {
        Some((false, 2))
    } else {
        None
    }
}

/// Dashes that are as long as the gaps between them, here and at the neighbouring cells.
pub open spec fn dash_strokes(across: bool, count: u8) -> Seq<Stroke> {
    Seq::new(
        count as nat,
        |i: int|
            if across {
                Stroke::HPart { from: (4 * i + 1) as u8, to: (4 * i + 3) as u8, of: (4 * count) as u8 }
            } else {
                Stroke::VPart { from: (4 * i + 1) as u8, to: (4 * i + 3) as u8, of: (4 * count) as u8 }
            },
    )
}

/// A diagonal in steps of an eighth.
pub open spec fn diagonal(rising: bool) -> Seq<Stroke> {
    Seq::new(
        8,
        |i: int|
            Stroke::Block {
                x: i as u8,
                y: (if rising {
                    7 - i
                } else {
                    i
                }) as u8,
                w: 1,
                h: 1,
            },
    )
}

/// The diagonals of a character.
pub open spec fn diagonals(n: u32) -> Option<Seq<Stroke>> {
    if n == 0x2571 {
        Some(diagonal(true))
    } else if n == 0x2572 {
        Some(diagonal(false))
    } else if n == 0x2573 {
        Some(diagonal(true) + diagonal(false))
    } else {
        None
    }
}

/// A block of that many eighths.
pub open spec fn block(x: int, y: int, w: int, h: int) -> Stroke {
    Stroke::Block { x: x as u8, y: y as u8, w: w as u8, h: h as u8 }
}

/// The blocks or the shade of a block element.
pub open spec fn block_strokes(n: u32) -> Option<Seq<Stroke>> {
    if n < 0x2580 || n > 0x259f {
        None
    } else if n == 0x2580 {
        Some(seq![block(0, 0, 8, 4)])
    } else if n <= 0x2588 {
        Some(seq![block(0, 0x2588 - n, 8, n - 0x2580)])
    } else if n <= 0x258f {
        Some(seq![block(0, 0, 0x2590 - n, 8)])
    } else if n == 0x2590 {
        Some(seq![block(4, 0, 4, 8)])
    } else if n <= 0x2593 {
        Some(seq![Stroke::Shade((n - 0x2590) as u8)])
    } else if n == 0x2594 {
        Some(seq![block(0, 0, 8, 1)])
    } else if n == 0x2595 {
        Some(seq![block(7, 0, 1, 8)])
    } else if n == 0x2596 {
        Some(seq![block(0, 4, 4, 4)])
    } else if n == 0x2597 {
        Some(seq![block(4, 4, 4, 4)])
    } else if n == 0x2598 {
        Some(seq![block(0, 0, 4, 4)])
    } else if n == 0x2599 {
        Some(seq![block(0, 0, 4, 8), block(0, 4, 8, 4)])
    } else if n == 0x259a {
        Some(seq![block(0, 0, 4, 4), block(4, 4, 4, 4)])
    } else if n == 0x259b {
        Some(seq![block(0, 0, 8, 4), block(0, 0, 4, 8)])
    } else if n == 0x259c {
        Some(seq![block(0, 0, 8, 4), block(4, 0, 4, 8)])
    } else if n == 0x259d {
        Some(seq![block(4, 0, 4, 4)])
    } else if n == 0x259e {
        Some(seq![block(4, 0, 4, 4), block(0, 4, 4, 4)])
    } else {
        Some(seq![block(4, 0, 4, 8), block(0, 4, 8, 4)])
    }
}

/// The strokes by which a character is drawn; None for one that the font draws.
pub open spec fn glyph_of(c: char) -> Option<Seq<Stroke>> {
    let n = c as u32;
    match (arms(n), dashes(n), diagonals(n)) {
        (Some(a), _, _) => Some(arm_strokes(a)),
        (None, Some(d), _) => Some(dash_strokes(d.0, d.1)),
        (None, None, Some(v)) => Some(v),
        (None, None, None) => block_strokes(n),
    }
}

/// Exactly the box-drawing characters and the block elements are drawn by strokes, each by at
/// least one; the font draws every other character.
pub proof fn lines_and_blocks_are_drawn(c: char)
    ensures
        glyph_of(c) is Some <==> '\u{2500}' <= c <= '\u{259f}',
        glyph_of(c) is Some ==> (glyph_of(c)->0).len() > 0,
{
}

/// The contents of an optional list of strokes.
pub open spec fn opt_strokes(o: Option<Vec<Stroke>>) -> Option<Seq<Stroke>> {
    match o {
        Some(v) => Some(v@),
        None => None,
    }
}

fn line_arms(n: u32) -> (r: Option<(u8, u8, u8, u8)>)
    ensures
        r == arms(n),
{
    match n {
        0x2500 | 0x2501 | 0x257c | 0x257e => Some((1, 1, 0, 0)),
        0x2502 | 0x2503 | 0x257d | 0x257f => Some((0, 0, 1, 1)),
        0x250c..=0x250f | 0x256d => Some((0, 1, 0, 1)),
        0x2510..=0x2513 | 0x256e => Some((1, 0, 0, 1)),
        0x2514..=0x2517 | 0x2570 => Some((0, 1, 1, 0)),
        0x2518..=0x251b | 0x256f => Some((1, 0, 1, 0)),
        0x251c..=0x2523 => Some((0, 1, 1, 1)),
        0x2524..=0x252b => Some((1, 0, 1, 1)),
        0x252c..=0x2533 => Some((1, 1, 0, 1)),
        0x2534..=0x253b => Some((1, 1, 1, 0)),
        0x253c..=0x254b => Some((1, 1, 1, 1)),
        0x2550..=0x256c => Some(double_line_arms(n)),
        0x2574 | 0x2578 => Some((1, 0, 0, 0)),
        0x2575 | 0x2579 => Some((0, 0, 1, 0)),
        0x2576 | 0x257a => Some((0, 1, 0, 0)),
        0x2577 | 0x257b => Some((0, 0, 0, 1)),
        _ => None,
    }
}

fn double_line_arms(n: u32) -> (r: (u8, u8, u8, u8))
    requires
        0x2550 <= n <= 0x256c,
    ensures
        r == double_arms(n),
{
    if n == 0x2550 {
        return (2, 2, 0, 0);
    }
    if n == 0x2551 {
        return (0, 0, 2, 2);
    }
    let k: u32 = n - 0x2552;
    let h: u8 = if k % 3 == 1 {
        1
    } else {
        2
    };
    let v: u8 = if k % 3 == 0 {
        1
    } else {
        2
    };
    match k / 3 {
        0 => (0, h, 0, v),
        1 => (h, 0, 0, v),
        2 => (0, h, v, 0),
        3 => (h, 0, v, 0),
        4 => (0, h, v, v),
        5 => (h, 0, v, v),
        6 => (h, h, 0, v),
        7 => (h, h, v, 0),
        _ => (h, h, v, v),
    }
}

fn push_lanes(v: &mut Vec<Stroke>, count: u8, side: Side)
    ensures
        final(v)@ == old(v)@ + lanes(count, side),
{
    if count == 2 {
        v.push(Stroke::Lane { side, second: false });
        v.push(Stroke::Lane { side, second: true });
    }
    assert(v@ =~= old(v)@ + lanes(count, side));
}

fn draw_arms(a: (u8, u8, u8, u8)) -> (r: Vec<Stroke>)
    ensures
        r@ == arm_strokes(a),
{
    let mut v: Vec<Stroke> = Vec::new();
    let l = a.0 == 1;
    let r = a.1 == 1;
    let t = a.2 == 1;
    let b = a.3 == 1;
    if l && r {
        v.push(Stroke::HFull);
    }
    if t && b {
        v.push(Stroke::VFull);
    }
    if l && !r {
        v.push(Stroke::HLeft);
    } else if r && !l {
        v.push(Stroke::HRight);
    }
    if t && !b {
        v.push(Stroke::VTop);
    } else if b && !t {
        v.push(Stroke::VBottom);
    }
    push_lanes(&mut v, a.0, Side::Left);
    push_lanes(&mut v, a.1, Side::Right);
    push_lanes(&mut v, a.2, Side::Top);
    push_lanes(&mut v, a.3, Side::Bottom);
    assert(v@ =~= arm_strokes(a));
    v
}

fn line_dashes(n: u32) -> (r: Option<(bool, u8)>)
    ensures
        r == dashes(n),
        r is Some ==> 2 <= (r->0).1 <= 4,
{
    match n {
        0x2504 | 0x2505 => Some((true, 3)),
        0x2506 | 0x2507 => Some((false, 3)),
        0x2508 | 0x2509 => Some((true, 4)),
        0x250a | 0x250b => Some((false, 4)),
        0x254c | 0x254d => Some((true, 2)),
        0x254e | 0x254f => Some((false, 2)),
        _ => None,
    }
}

fn draw_dashes(across: bool, count: u8) -> (r: Vec<Stroke>)
    requires
        count <= 4,
    ensures
        r@ == dash_strokes(across, count),
{
    let mut v: Vec<Stroke> = Vec::new();
    let mut i: u8 = 0;
    while i < count
        invariant
            i <= count <= 4,
            v@ == dash_strokes(across, count).take(i as int),
        decreases count - i,
    {
        let from: u8 = 4 * i + 1;
        let to: u8 = 4 * i + 3;
        let of: u8 = 4 * count;
        v.push(
            if across {
                Stroke::HPart { from, to, of }
            } else {
                Stroke::VPart { from, to, of }
            },
        );
        i = i + 1;
        assert(v@ =~= dash_strokes(across, count).take(i as int));
    }
    assert(v@ =~= dash_strokes(across, count));
    v
}

fn draw_diagonal(v: &mut Vec<Stroke>, rising: bool)
    ensures
        final(v)@ == old(v)@ + diagonal(rising),
{
    let ghost before = v@;
    let mut i: u8 = 0;
    while i < 8
        invariant
            i <= 8,
            v@ == before + diagonal(rising).take(i as int),
        decreases 8 - i,
    {
        let y: u8 = if rising {
            7 - i
        } else {
            i
        };
        v.push(Stroke::Block { x: i, y, w: 1, h: 1 });
        i = i + 1;
        assert(v@ =~= before + diagonal(rising).take(i as int));
    }
    assert(v@ =~= before + diagonal(rising));
}

fn draw_block(n: u32) -> (r: Option<Vec<Stroke>>)
    ensures
        opt_strokes(r) == block_strokes(n),
{
    let v: Vec<Stroke> = match n {
        0x2580 => vec![Stroke::Block { x: 0, y: 0, w: 8, h: 4 }],
        0x2581..=0x2588 => {
            let y: u8 = (0x2588 - n) as u8;
            let h: u8 = (n - 0x2580) as u8;
            vec![Stroke::Block { x: 0, y, w: 8, h }]
        },
        0x2589..=0x258f => {
            let w: u8 = (0x2590 - n) as u8;
            vec![Stroke::Block { x: 0, y: 0, w, h: 8 }]
        },
        0x2590 => vec![Stroke::Block { x: 4, y: 0, w: 4, h: 8 }],
        0x2591..=0x2593 => {
            let quarters: u8 = (n - 0x2590) as u8;
            vec![Stroke::Shade(quarters)]
        },
        0x2594 => vec![Stroke::Block { x: 0, y: 0, w: 8, h: 1 }],
        0x2595 => vec![Stroke::Block { x: 7, y: 0, w: 1, h: 8 }],
        0x2596 => vec![Stroke::Block { x: 0, y: 4, w: 4, h: 4 }],
        0x2597 => vec![Stroke::Block { x: 4, y: 4, w: 4, h: 4 }],
        0x2598 => vec![Stroke::Block { x: 0, y: 0, w: 4, h: 4 }],
        0x2599 => vec![Stroke::Block { x: 0, y: 0, w: 4, h: 8 }, Stroke::Block { x: 0, y: 4, w: 8, h: 4 }],
        0x259a => vec![Stroke::Block { x: 0, y: 0, w: 4, h: 4 }, Stroke::Block { x: 4, y: 4, w: 4, h: 4 }],
        0x259b => vec![Stroke::Block { x: 0, y: 0, w: 8, h: 4 }, Stroke::Block { x: 0, y: 0, w: 4, h: 8 }],
        0x259c => vec![Stroke::Block { x: 0, y: 0, w: 8, h: 4 }, Stroke::Block { x: 4, y: 0, w: 4, h: 8 }],
        0x259d => vec![Stroke::Block { x: 4, y: 0, w: 4, h: 4 }],
        0x259e => vec![Stroke::Block { x: 4, y: 0, w: 4, h: 4 }, Stroke::Block { x: 0, y: 4, w: 4, h: 4 }],
        0x259f => vec![Stroke::Block { x: 4, y: 0, w: 4, h: 8 }, Stroke::Block { x: 0, y: 4, w: 8, h: 4 }],
        _ => {
            return None;
        },
    };
    assert(v@ =~= block_strokes(n)->0);
    Some(v)
}

/// The strokes by which a character is drawn, so that lines and blocks of neighbouring
/// cells join.
pub fn glyph_quads(c: char) -> (r: Option<Vec<Stroke>>)
    ensures
        opt_strokes(r) == glyph_of(c),
        r is Some <==> '\u{2500}' <= c <= '\u{259f}',
        r is Some ==> r->0@.len() > 0,
{
    proof {
        lines_and_blocks_are_drawn(c);
    }
    let n = c as u32;
    if let Some(a) = line_arms(n) {
        return Some(draw_arms(a));
    }
    if let Some(d) = line_dashes(n) {
        return Some(draw_dashes(d.0, d.1));
    }
    if 0x2571 <= n && n <= 0x2573 {
        let mut v: Vec<Stroke> = Vec::new();
        if n != 0x2572 {
            draw_diagonal(&mut v, true);
        }
        if n != 0x2571 {
            draw_diagonal(&mut v, false);
        }
        assert(Some(v@) =~= diagonals(n));
        return Some(v);
    }
    draw_block(n)
}

// ── rows ────────────────────────────────────────────────────────────────────

/// A row of text with its colour runs, and a number that tells whether it changed.
#[derive(Debug)]
pub struct RawRow {
    pub line: i32,
    pub text: String,
    pub runs: Vec<Run>,
    pub hash: u64,
}

/// What a row shows.
pub ghost struct RawRowView {
    pub line: i32,
    pub text: Seq<char>,
    pub runs: Seq<Run>,
    pub hash: u64,
}

impl View for RawRow {
    type V = RawRowView;

    open spec fn view(&self) -> RawRowView {
        RawRowView { line: self.line, text: self.text@, runs: self.runs@, hash: self.hash }
    }
}

/// What a list of rows shows.
pub open spec fn raw_views(v: Seq<RawRow>) -> Seq<RawRowView> {
    Seq::new(v.len(), |i: int| v[i]@)
}

/// A cell with a background of its own.
#[derive(Clone, Copy, Debug, PartialEq, Eq, Structural)]
pub struct CellFill {
    pub line: i32,
    pub col: usize,
    pub color: u32,
}

/// A character that is drawn by strokes.
#[derive(Clone, Copy, Debug, PartialEq, Eq, Structural)]
pub struct DrawnGlyph {
    pub line: i32,
    pub col: usize,
    pub c: char,
    pub color: u32,
}

/// The colour of a cell's character: the background's where the cell is inverse.
pub open spec fn text_color(x: TermCell) -> u32 {
    if x.inverse {
        term_color(x.bg)
    } else {
        term_color(x.fg)
    }
}

/// The character that the font draws: a blank where strokes draw it.
pub open spec fn font_char(c: char) -> char {
    if glyph_of(c) is Some {
        ' '
    } else {
        c
    }
}

/// The number of a row with one more character in one more colour.
pub open spec fn row_hash(h: u64, c: char, color: u32) -> u64 {
    let a = ((h * 1099511628211) % 0x1_0000_0000_0000_0000) as u64;
    let b = ((a + c as u64) % 0x1_0000_0000_0000_0000) as u64;
    let d = ((b * 1099511628211) % 0x1_0000_0000_0000_0000) as u64;
    ((d + color as u64) % 0x1_0000_0000_0000_0000) as u64
}

/// Runs with `len` more bytes in a colour: the last run grows where it has that colour.
pub open spec fn with_run(runs: Seq<Run>, len: usize, color: u32) -> Seq<Run> {
    if runs.len() > 0 && runs.last().1 == color {
        runs.drop_last().push(((runs.last().0 + len) as usize, color))
    } else {
        runs.push((len, color))
    }
}

/// A row with one more cell. A cell that only holds place for a wide character adds nothing.
pub open spec fn with_cell(r: RawRowView, x: TermCell) -> RawRowView {
    if x.wide_spacer {
        r
    } else {
        let c = shown(x.c);
        RawRowView {
            line: r.line,
            text: r.text.push(font_char(c)),
            runs: with_run(r.runs, utf8_len(seq![font_char(c)]) as usize, text_color(x)),
            hash: row_hash(r.hash, c, text_color(x)),
        }
    }
}

/// A row without cells.
pub open spec fn empty_row(line: i32) -> RawRowView {
    RawRowView { line, text: Seq::empty(), runs: Seq::empty(), hash: 0 }
}

/// The rows that the cells make: neighbouring cells of one line make one row.
pub open spec fn rows_of(cells: Seq<TermCell>) -> Seq<RawRowView>
    decreases cells.len(),
{
    if cells.len() == 0 {
        Seq::empty()
    } else {
        let s = rows_of(cells.drop_last());
        let x = cells.last();
        if s.len() > 0 && s.last().line == x.line {
            s.drop_last().push(with_cell(s.last(), x))
        } else {
            s.push(with_cell(empty_row(x.line), x))
        }
    }
}

/// The cells whose background is not the terminal's.
pub open spec fn fills_of(cells: Seq<TermCell>) -> Seq<CellFill> {
    filter_map(
        cells,
        |x: TermCell|
            if x.wide_spacer || x.bg == TermColor::Named(NamedColor::Background) {
                None
            } else {
                Some(CellFill { line: x.line, col: x.col, color: term_color(x.bg) })
            },
    )
}

/// The characters that strokes draw.
pub open spec fn glyphs_of(cells: Seq<TermCell>) -> Seq<DrawnGlyph> {
    filter_map(
        cells,
        |x: TermCell|
            if x.wide_spacer || glyph_of(shown(x.c)) is None {
                None
            } else {
                Some(DrawnGlyph { line: x.line, col: x.col, c: shown(x.c), color: text_color(x) })
            },
    )
}

/// Every run of a row is a run of its text: their lengths add up, and neighbours differ in
/// colour.
pub open spec fn row_ok(r: RawRowView) -> bool {
    &&& run_total(r.runs) == utf8_len(r.text)
    &&& forall|i: int, j: int| #![trigger r.runs[i], r.runs[j]] 0 <= i && j == i + 1 && j < r.runs.len() ==> r.runs[i].1 != r.runs[j].1
}

proof fn lemma_with_run(runs: Seq<Run>, len: usize, color: u32)
    requires
        run_total(runs) + len <= usize::MAX,
    ensures
        run_total(with_run(runs, len, color)) == run_total(runs) + len,
{
    let r = with_run(runs, len, color);
    assert(r.drop_last() =~= if runs.len() > 0 && runs.last().1 == color {
        runs.drop_last()
    } else {
        runs
    });
}

proof fn lemma_utf8_push(s: Seq<char>, c: char)
    ensures
        utf8_len(s.push(c)) == utf8_len(s) + utf8_len(seq![c]),
        1 <= utf8_len(seq![c]) <= 4,
{
    assert(s.push(c) =~= s + seq![c]);
    lemma_utf8_concat(s, seq![c]);
    assert(seq![c].drop_first() =~= Seq::<char>::empty());
    assert(utf8_len(seq![c]) == vstd::utf8::encode_scalar(c as u32).len() + utf8_len(Seq::empty()));
    assert(utf8_len(Seq::<char>::empty()) == 0);
}

proof fn lemma_with_cell_ok(r: RawRowView, x: TermCell)
    requires
        row_ok(r),
        utf8_len(r.text) + 4 <= usize::MAX,
    ensures
        row_ok(with_cell(r, x)),
{
    if !x.wide_spacer {
        let c = font_char(shown(x.c));
        lemma_utf8_push(r.text, c);
        let len = utf8_len(seq![c]) as usize;
        lemma_with_run(r.runs, len, text_color(x));
        let w = with_cell(r, x);
        assert forall|i: int, j: int| #![trigger w.runs[i], w.runs[j]] 0 <= i && j == i + 1 && j
            < w.runs.len() implies w.runs[i].1 != w.runs[j].1 by {
            if j < r.runs.len() {
                assert(r.runs[i].1 != r.runs[j].1);
            }
        }
    }
}

/// Adds a cell to a row.
fn add_cell(r: &mut RawRow, x: TermCell)
    requires
        row_ok(old(r)@),
        utf8_len(old(r)@.text) + 4 <= usize::MAX,
    ensures
        final(r)@ == with_cell(old(r)@, x),
        row_ok(final(r)@),
        utf8_len(final(r)@.text) <= utf8_len(old(r)@.text) + 4,
{
    proof {
        lemma_with_cell_ok(r@, x);
    }
    if x.wide_spacer {
        return;
    }
    let c = if x.c == '\0' {
        ' '
    } else {
        x.c
    };
    let color = if x.inverse {
        color_u32(x.bg)
    } else {
        color_u32(x.fg)
    };
    let drawn = match glyph_quads(c) {
        Some(_) => ' ',
        None => c,
    };
    r.hash = r.hash.wrapping_mul(1099511628211).wrapping_add(c as u64).wrapping_mul(
        1099511628211,
    ).wrapping_add(color as u64);
    let mut one = String::new();
    one.push(drawn);
    assert(one@ =~= seq![drawn]);
    let len = byte_len(one.as_str());
    proof {
        lemma_utf8_push(r.text@, drawn);
    }
    let n: usize = r.runs.len();
    let ghost before = r.runs@;
    if n > 0 && r.runs[n - 1].1 == color {
        proof {
            assert(run_total(before) == run_total(before.drop_last()) + before.last().0);
        }
        let grown: usize = r.runs[n - 1].0 + len;
        r.runs.set(n - 1, (grown, color));
        assert(r.runs@ =~= with_run(before, len, color));
    } else {
        r.runs.push((len, color));
    }
    r.text.push(drawn);
}

/// Cells that are few enough for their text to be counted in bytes.
pub open spec fn few_cells(cells: Seq<TermCell>) -> bool {
    cells.len() * 4 + 4 <= usize::MAX
}

proof fn lemma_rows_ok(cells: Seq<TermCell>)
    requires
        few_cells(cells),
    ensures
        forall|i: int| 0 <= i < rows_of(cells).len() ==> row_ok(#[trigger] rows_of(cells)[i]),
        forall|i: int|
            0 <= i < rows_of(cells).len() ==> utf8_len((#[trigger] rows_of(cells)[i]).text) <= cells.len() * 4,
    decreases cells.len(),
{
    if cells.len() > 0 {
        let t = cells.drop_last();
        lemma_rows_ok(t);
        let s = rows_of(t);
        let r = rows_of(cells);
        let x = cells.last();
        let e = empty_row(x.line);
        assert(row_ok(e)) by {
            assert(run_total(e.runs) == 0);
            assert(utf8_len(e.text) == 0);
        }
        lemma_with_cell_ok(e, x);
        lemma_utf8_push(e.text, font_char(shown(x.c)));
        if s.len() > 0 {
            assert(s.last() == s[s.len() - 1]);
            lemma_with_cell_ok(s.last(), x);
            lemma_utf8_push(s.last().text, font_char(shown(x.c)));
        }
        assert forall|i: int| 0 <= i < r.len() implies row_ok(#[trigger] r[i]) && utf8_len(r[i].text) <= cells.len() * 4 by {
            if i < s.len() - 1 {
                assert(r[i] == s[i]);
            } else if i == s.len() - 1 && i < r.len() - 1 {
                assert(r[i] == s[i]);
            }
        }
    }
}

/// In every row the runs cover the text exactly and neighbouring runs differ in colour.
pub proof fn terminal_runs_cover_their_rows(cells: Seq<TermCell>, i: int)
    requires
        few_cells(cells),
        0 <= i < rows_of(cells).len(),
    ensures
        row_ok(rows_of(cells)[i]),
{
    lemma_rows_ok(cells);
}

/// Makes rows out of the cells.
pub fn build_rows(cells: &Vec<TermCell>) -> (r: Vec<RawRow>)
    requires
        few_cells(cells@),
    ensures
        raw_views(r@) == rows_of(cells@),
{
    let mut out: Vec<RawRow> = Vec::new();
    let mut cur: Option<RawRow> = None;
    let mut i: usize = 0;
    assert(cells@.take(0) =~= Seq::<TermCell>::empty());
    assert(raw_views(out@) =~= Seq::<RawRowView>::empty());
    while i < cells.len()
        invariant
            i <= cells.len(),
            few_cells(cells@),
            rows_of(cells@.take(i as int)) == match cur {
                Some(c) => raw_views(out@).push(c@),
                None => raw_views(out@),
            },
            cur is None ==> out.len() == 0,
        decreases cells.len() - i,
    {
        let x = cells[i];
        let ghost t = cells@.take(i as int);
        proof {
            assert(cells@.take(i + 1).drop_last() =~= t);
            assert(cells@.take(i + 1).last() == x);
            lemma_rows_ok(t);
            if cur is Some {
                assert(rows_of(t)[rows_of(t).len() - 1] == cur->0@);
                assert(rows_of(t).drop_last() =~= raw_views(out@));
            }
        }
        let same_line = match &cur {
            Some(c) => c.line == x.line,
            None => false,
        };
        if same_line {
            let mut c = match cur {
                Some(c) => c,
                None => RawRow { line: x.line, text: String::new(), runs: Vec::new(), hash: 0 },
            };
            add_cell(&mut c, x);
            cur = Some(c);
        } else {
            match cur {
                Some(c) => {
                    assert(raw_views(out@.push(c)) =~= raw_views(out@).push(c@));
                    out.push(c);
                },
                None => {},
            }
            let mut c = RawRow { line: x.line, text: String::new(), runs: Vec::new(), hash: 0 };
            proof {
                assert(c@.text =~= Seq::<char>::empty());
                assert(c@.runs =~= Seq::<Run>::empty());
                assert(c@ == empty_row(x.line));
                assert(run_total(c@.runs) == 0);
                assert(utf8_len(c@.text) == 0);
            }
            add_cell(&mut c, x);
            cur = Some(c);
        }
        i = i + 1;
    }
    assert(cells@.take(cells@.len() as int) =~= cells@);
    if let Some(c) = cur {
        assert(raw_views(out@.push(c)) =~= raw_views(out@).push(c@));
        out.push(c);
    }
    out
}

fn build_fills(cells: &Vec<TermCell>) -> (r: Vec<CellFill>)
    ensures
        r@ == fills_of(cells@),
{
    let ghost f = |x: TermCell|
        if x.wide_spacer || x.bg == TermColor::Named(NamedColor::Background) {
            None
        } else {
            Some(CellFill { line: x.line, col: x.col, color: term_color(x.bg) })
        };
    let mut out: Vec<CellFill> = Vec::new();
    let mut i: usize = 0;
    proof {
        lemma_filter_map_ends(cells@, f);
    }
    while i < cells.len()
        invariant
            i <= cells.len(),
            f == (|x: TermCell|
                if x.wide_spacer || x.bg == TermColor::Named(NamedColor::Background) {
                    None
                } else {
                    Some(CellFill { line: x.line, col: x.col, color: term_color(x.bg) })
                }),
            out@ == filter_map(cells@.take(i as int), f),
        decreases cells.len() - i,
    {
        let x = cells[i];
        proof {
            lemma_filter_map_step(cells@, f, i as int);
        }
        if !x.wide_spacer {
            let plain = match x.bg {
                TermColor::Named(n) => match n {
                    NamedColor::Background => true,
                    _ => false,
                },
                _ => false,
            };
            if !plain {
                out.push(CellFill { line: x.line, col: x.col, color: color_u32(x.bg) });
            }
        }
        i = i + 1;
    }
    out
}

fn build_glyphs(cells: &Vec<TermCell>) -> (r: Vec<DrawnGlyph>)
    ensures
        r@ == glyphs_of(cells@),
{
    let ghost f = |x: TermCell|
        if x.wide_spacer || glyph_of(shown(x.c)) is None {
            None
        } else {
            Some(DrawnGlyph { line: x.line, col: x.col, c: shown(x.c), color: text_color(x) })
        };
    let mut out: Vec<DrawnGlyph> = Vec::new();
    let mut i: usize = 0;
    proof {
        lemma_filter_map_ends(cells@, f);
    }
    while i < cells.len()
        invariant
            i <= cells.len(),
            f == (|x: TermCell|
                if x.wide_spacer || glyph_of(shown(x.c)) is None {
                    None
                } else {
                    Some(
                        DrawnGlyph { line: x.line, col: x.col, c: shown(x.c), color: text_color(x) },
                    )
                }),
            out@ == filter_map(cells@.take(i as int), f),
        decreases cells.len() - i,
    {
        let x = cells[i];
        proof {
            lemma_filter_map_step(cells@, f, i as int);
        }
        if !x.wide_spacer {
            let c = if x.c == '\0' {
                ' '
            } else {
                x.c
            };
            if let Some(_) = glyph_quads(c) {
                let color = if x.inverse {
                    color_u32(x.bg)
                } else {
                    color_u32(x.fg)
                };
                out.push(DrawnGlyph { line: x.line, col: x.col, c, color });
            }
        }
        i = i + 1;
    }
    out
}

// ── the selection and the cache ─────────────────────────────────────────────

/// The highlighted columns of one row, the last one too.
#[derive(Clone, Copy, Debug, PartialEq, Eq, Structural)]
pub struct RowSpan {
    pub row: usize,
    pub from: usize,
    pub to: usize,
}

/// The highlighted part of row `row`: none where its end lies before its beginning.
pub open spec fn span_of(s: (usize, usize), e: (usize, usize), cols: int, row: int) -> Option<RowSpan> {
    let from = if row == s.0 {
        s.1 as int
    } else {
        0
    };
    let to = if row == e.0 {
        e.1 as int
    } else if cols > 0 {
        cols - 1
    } else {
        0
    };
    if to < from {
        None
    } else {
        Some(RowSpan { row: row as usize, from: from as usize, to: to as usize })
    }
}

/// The rows from `a` up to, but not at, `b`.
pub open spec fn row_numbers(a: int, b: int) -> Seq<int> {
    Seq::new((b - a) as nat, |i: int| a + i)
}

/// The highlighted parts of all rows of a selection.
pub open spec fn spans_of(sel: Option<Sel>, cols: int) -> Seq<RowSpan> {
    match sel {
        Some(x) => {
            let (s, e) = reading_order(x.anchor, x.head);
            filter_map(row_numbers(s.0 as int, e.0 + 1), |r: int| span_of(s, e, cols, r))
        },
        None => Seq::empty(),
    }
}

fn build_spans(sel: Option<Sel>, cols: usize) -> (r: Vec<RowSpan>)
    ensures
        r@ == spans_of(sel, cols as int),
{
    let mut out: Vec<RowSpan> = Vec::new();
    match sel {
        Some(x) => {
            let (s, e) = x.ordered();
            let ghost all = row_numbers(s.0 as int, e.0 + 1);
            let ghost f = |r: int| span_of(s, e, cols as int, r);
            let mut row: usize = s.0;
            let mut done = false;
            proof {
                lemma_filter_map_ends(all, f);
            }
            while !done
                invariant
                    s.0 <= row <= e.0,
                    all == row_numbers(s.0 as int, e.0 + 1),
                    f == (|r: int| span_of(s, e, cols as int, r)),
                    !done ==> out@ == filter_map(all.take(row - s.0), f),
                    done ==> out@ == filter_map(all, f),
                decreases e.0 - row, if done { 0int } else { 1int },
            {
                proof {
                    lemma_filter_map_step(all, f, row - s.0);
                    lemma_filter_map_ends(all, f);
                }
                let from: usize = if row == s.0 {
                    s.1
                } else {
                    0
                };
                let to: usize = if row == e.0 {
                    e.1
                } else if cols > 0 {
                    cols - 1
                } else {
                    0
                };
                if from <= to {
                    out.push(RowSpan { row, from, to });
                }
                if row == e.0 {
                    done = true;
                } else {
                    row = row + 1;
                }
            }
        },
        None => {},
    }
    out
}

/// Which rows are as they were: those whose number is the same as before.
pub fn unchanged_rows(old: &Vec<u64>, rows: &Vec<RawRow>) -> (r: Vec<bool>)
    ensures
        r@.len() == rows@.len(),
        forall|i: int| 0 <= i < r@.len() ==> #[trigger] r@[i] == (i < old@.len() && old@[i] == rows@[i].hash),
{
    let mut out: Vec<bool> = Vec::new();
    let mut i: usize = 0;
    while i < rows.len()
        invariant
            i <= rows.len(),
            out.len() == i,
            forall|j: int| 0 <= j < i ==> #[trigger] out@[j] == (j < old@.len() && old@[j] == rows@[j].hash),
        decreases rows.len() - i,
    {
        let keep = i < old.len() && old[i] == rows[i].hash;
        out.push(keep);
        i = i + 1;
    }
    out
}

/// Everything that a frame of the terminal is painted from.
#[derive(Debug)]
pub struct TermPrepaint {
    pub rows: Vec<RawRow>,
    pub unchanged: Vec<bool>,
    pub bgs: Vec<CellFill>,
    pub decorations: Vec<DrawnGlyph>,
    pub selection: Vec<RowSpan>,
    pub cursor: Option<(usize, i32)>,
    pub scrollbar: bool,
}

/// The terminal as it is painted.
#[derive(Debug)]
pub struct TerminalElement {
    pub term: Terminal,
}

/// Whether a frame is that of the cells: their rows, and which of those are as they were when
/// `old` was painted; the backgrounds and drawn glyphs; the highlighted selection; the cursor
/// while it is lit; and a scroll bar where there is history.
pub open spec fn is_frame(
    t: Terminal,
    cells: Seq<TermCell>,
    old: Seq<u64>,
    cursor: (usize, i32),
    history: int,
    r: TermPrepaint,
) -> bool {
    &&& raw_views(r.rows@) == rows_of(cells)
    &&& r.unchanged@.len() == r.rows@.len()
    &&& forall|i: int|
        0 <= i < r.rows@.len() ==> #[trigger] r.unchanged@[i] == (i < old.len() && old[i] == rows_of(
            cells,
        )[i].hash)
    &&& r.bgs@ == fills_of(cells)
    &&& r.decorations@ == glyphs_of(cells)
    &&& r.selection@ == spans_of(t.selection, t.cols as int)
    &&& r.cursor == if t.cursor_on {
        Some(cursor)
    } else {
        None
    }
    &&& r.scrollbar == (history > 0 && t.rows > 0)
}

impl TerminalElement {
    /// Prepares a frame: the rows of the cells, the backgrounds and drawn glyphs, the
    /// highlighted selection, the cursor while it is lit, and a scroll bar where there is
    /// history. `old` holds the numbers of the rows painted before.
    pub fn prepaint(
        &self,
        cells: &Vec<TermCell>,
        old: &Vec<u64>,
        cursor: (usize, i32),
        history: usize,
    ) -> (r: TermPrepaint)
        requires
            few_cells(cells@),
        ensures
            is_frame(self.term, cells@, old@, cursor, history as int, r),
    {
        let rows = build_rows(cells);
        let unchanged = unchanged_rows(old, &rows);
        proof {
            assert forall|i: int| 0 <= i < rows@.len() implies #[trigger] unchanged@[i] == (i < old@.len()
                && old@[i] == rows_of(cells@)[i].hash) by {
                assert(raw_views(rows@)[i] == rows@[i]@);
            }
        }
        TermPrepaint {
            rows,
            unchanged,
            bgs: build_fills(cells),
            decorations: build_glyphs(cells),
            selection: build_spans(self.term.selection, self.term.cols),
            cursor: if self.term.cursor_on {
                Some(cursor)
            } else {
                None
            },
            scrollbar: history > 0 && self.term.rows > 0,
        }
    }
}

// ── what a frame shows of its cells ─────────────────────────────────────────

/// A cell whose colours are swapped looks like the cell with its two colours exchanged.
pub proof fn inverse_cells_exchange_their_colours(x: TermCell)
    ensures
        text_color(TermCell { inverse: true, ..x }) == text_color(TermCell { inverse: false, fg: x.bg, bg: x.fg, ..x }),
        text_color(TermCell { inverse: false, ..x }) == term_color(x.fg),
        text_color(TermCell { inverse: true, ..x }) == term_color(x.bg),
{
}

proof fn lemma_one_line(cells: Seq<TermCell>)
    requires
        cells.len() > 0,
        forall|i: int| 0 <= i < cells.len() ==> (#[trigger] cells[i]).line == cells[0].line && !cells[i].wide_spacer,
    ensures
        rows_of(cells).len() == 1,
        rows_of(cells)[0].line == cells[0].line,
        rows_of(cells)[0].text == cells.map_values(|x: TermCell| font_char(shown(x.c))),
    decreases cells.len(),
{
    let t = cells.drop_last();
    let f = |x: TermCell| font_char(shown(x.c));
    let x = cells.last();
    assert(cells[cells.len() - 1] == x);
    if t.len() > 0 {
        assert forall|i: int| 0 <= i < t.len() implies (#[trigger] t[i]).line == t[0].line && !t[i].wide_spacer by {
            assert(t[i] == cells[i] && t[0] == cells[0]);
        }
        lemma_one_line(t);
        assert(cells.map_values(f) =~= t.map_values(f).push(f(x)));
    } else {
        assert(rows_of(t) =~= Seq::<RawRowView>::empty());
        assert(cells.map_values(f) =~= Seq::<char>::empty().push(f(x)));
    }
}

/// The cells of a line make one row, whose text is their characters in their order, with a blank for
/// each that is empty or drawn by strokes.
pub proof fn a_line_is_a_row_of_its_characters(cells: Seq<TermCell>, i: int)
    requires
        0 <= i < cells.len(),
        forall|i: int| 0 <= i < cells.len() ==> (#[trigger] cells[i]).line == cells[0].line && !cells[i].wide_spacer,
    ensures
        rows_of(cells).len() == 1,
        rows_of(cells)[0].text.len() == cells.len(),
        !('\u{2500}' <= cells[i].c <= '\u{259f}') && cells[i].c != '\0' ==> rows_of(cells)[0].text[i] == cells[i].c,
        ('\u{2500}' <= cells[i].c <= '\u{259f}') || cells[i].c == '\0' ==> rows_of(cells)[0].text[i] == ' ',
{
    lemma_one_line(cells);
    lines_and_blocks_are_drawn(shown(cells[i].c));
    lines_and_blocks_are_drawn(cells[i].c);
}

/// A cell on another line than the one before it begins a row, and the rows before it stay.
pub proof fn another_line_begins_a_row(cells: Seq<TermCell>, x: TermCell)
    requires
        cells.len() > 0,
    ensures
        rows_of(cells).len() > 0,
        rows_of(cells).last().line == cells.last().line,
        x.line != cells.last().line ==> rows_of(cells.push(x)).len() == rows_of(cells).len() + 1 && rows_of(cells.push(x)).drop_last() == rows_of(cells),
        x.line == cells.last().line ==> rows_of(cells.push(x)).len() == rows_of(cells).len() && rows_of(cells.push(x)).drop_last() == rows_of(cells).drop_last(),
    decreases cells.len(),
{
    assert(cells.push(x).drop_last() =~= cells);
    let t = cells.drop_last();
    if t.len() > 0 {
        another_line_begins_a_row(t, cells.last());
        assert(t.push(cells.last()) =~= cells);
    } else {
        assert(rows_of(t) =~= Seq::<RawRowView>::empty());
    }
    let r = rows_of(cells);
    let s = rows_of(cells.push(x));
    if x.line != r.last().line {
        assert(s.drop_last() =~= r);
    } else {
        assert(s.drop_last() =~= r.drop_last());
    }
}

/// A cell is filled exactly where its background is not the terminal's own, and a character is drawn
/// by strokes exactly where it is a line or a block; neither where the cell only holds a place.
pub proof fn cells_are_filled_and_drawn(cells: Seq<TermCell>, x: TermCell)
    ensures
        x.wide_spacer ==> fills_of(cells.push(x)) == fills_of(cells) && glyphs_of(cells.push(x)) == glyphs_of(cells),
        x.bg == TermColor::Named(NamedColor::Background) ==> fills_of(cells.push(x)) == fills_of(cells),
        !x.wide_spacer && x.bg != TermColor::Named(NamedColor::Background) ==> fills_of(cells.push(x)) == fills_of(cells).push(
            CellFill { line: x.line, col: x.col, color: term_color(x.bg) },
        ),
        !x.wide_spacer && '\u{2500}' <= x.c <= '\u{259f}' ==> glyphs_of(cells.push(x)) == glyphs_of(cells).push(
            DrawnGlyph { line: x.line, col: x.col, c: x.c, color: text_color(x) },
        ),
        !('\u{2500}' <= x.c <= '\u{259f}') && x.c != '\0' ==> glyphs_of(cells.push(x)) == glyphs_of(cells),
{
    assert(cells.push(x).drop_last() =~= cells);
    assert(cells.push(x).last() == x);
    lines_and_blocks_are_drawn(x.c);
    lines_and_blocks_are_drawn(' ');
}

/// Runs grow while the colour stays and a new one begins where it changes.
pub proof fn runs_follow_the_colour(runs: Seq<Run>, len: usize, color: u32)
    ensures
        runs.len() == 0 || runs.last().1 != color ==> with_run(runs, len, color) == runs.push((len, color)),
        runs.len() > 0 && runs.last().1 == color && runs.last().0 + len <= usize::MAX ==> with_run(runs, len, color).len() == runs.len() && with_run(runs, len, color).last()
            == ((runs.last().0 + len) as usize, color) && with_run(runs, len, color).drop_last() == runs.drop_last(),
{
    if runs.len() > 0 && runs.last().1 == color {
        assert(with_run(runs, len, color).drop_last() =~= runs.drop_last());
    }
}

/// A light line, a heavy one and the ends of both are drawn alike; a full block fills the cell, the
/// lower and the upper half fill half of it each, and an eighth more is filled from one lower block
/// to the next.
pub proof fn blocks_fill_their_share(k: u32)
    requires
        1 <= k <= 8,
    ensures
        block_strokes((0x2580 + k) as u32) == Some(seq![Stroke::Block { x: 0, y: (8 - k) as u8, w: 8, h: k as u8 }]),
        k < 8 ==> block_strokes((0x2590 - k) as u32) == Some(seq![Stroke::Block { x: 0, y: 0, w: k as u8, h: 8 }]),
        block_strokes(0x2580) == Some(seq![Stroke::Block { x: 0, y: 0, w: 8, h: 4 }]),
        block_strokes(0x2590) == Some(seq![Stroke::Block { x: 4, y: 0, w: 4, h: 8 }]),
        block_strokes(0x2591) == Some(seq![Stroke::Shade(1)]) && block_strokes(0x2592) == Some(seq![Stroke::Shade(2)]) && block_strokes(0x2593) == Some(
            seq![Stroke::Shade(3)],
        ),
        block_strokes(0x2598) == Some(seq![Stroke::Block { x: 0, y: 0, w: 4, h: 4 }]) && block_strokes(0x259d) == Some(
            seq![Stroke::Block { x: 4, y: 0, w: 4, h: 4 }],
        ),
        block_strokes(0x2596) == Some(seq![Stroke::Block { x: 0, y: 4, w: 4, h: 4 }]) && block_strokes(0x2597) == Some(
            seq![Stroke::Block { x: 4, y: 4, w: 4, h: 4 }],
        ),
{
}

/// Lines reach to the sides that they are drawn to: across, down, the four corners, the four tees and
/// the cross, whether light, heavy or, at corners, rounded.
pub proof fn lines_reach_to_their_sides()
    ensures
        glyph_of('─') == Some(seq![Stroke::HFull]) && glyph_of('━') == glyph_of('─'),
        glyph_of('│') == Some(seq![Stroke::VFull]) && glyph_of('┃') == glyph_of('│'),
        glyph_of('┌') == Some(seq![Stroke::HRight, Stroke::VBottom]) && glyph_of('╭') == glyph_of('┌') && glyph_of('┏') == glyph_of('┌'),
        glyph_of('┐') == Some(seq![Stroke::HLeft, Stroke::VBottom]) && glyph_of('╮') == glyph_of('┐') && glyph_of('┓') == glyph_of('┐'),
        glyph_of('└') == Some(seq![Stroke::HRight, Stroke::VTop]) && glyph_of('╰') == glyph_of('└') && glyph_of('┗') == glyph_of('└'),
        glyph_of('┘') == Some(seq![Stroke::HLeft, Stroke::VTop]) && glyph_of('╯') == glyph_of('┘') && glyph_of('┛') == glyph_of('┘'),
        glyph_of('├') == Some(seq![Stroke::VFull, Stroke::HRight]) && glyph_of('┣') == glyph_of('├'),
        glyph_of('┤') == Some(seq![Stroke::VFull, Stroke::HLeft]) && glyph_of('┫') == glyph_of('┤'),
        glyph_of('┬') == Some(seq![Stroke::HFull, Stroke::VBottom]) && glyph_of('┳') == glyph_of('┬'),
        glyph_of('┴') == Some(seq![Stroke::HFull, Stroke::VTop]) && glyph_of('┻') == glyph_of('┴'),
        glyph_of('┼') == Some(seq![Stroke::HFull, Stroke::VFull]) && glyph_of('╋') == glyph_of('┼'),
{
    assert(arm_strokes((1, 1, 0, 0)) =~= seq![Stroke::HFull]);
    assert(arm_strokes((0, 0, 1, 1)) =~= seq![Stroke::VFull]);
    assert(arm_strokes((0, 1, 0, 1)) =~= seq![Stroke::HRight, Stroke::VBottom]);
    assert(arm_strokes((1, 0, 0, 1)) =~= seq![Stroke::HLeft, Stroke::VBottom]);
    assert(arm_strokes((0, 1, 1, 0)) =~= seq![Stroke::HRight, Stroke::VTop]);
    assert(arm_strokes((1, 0, 1, 0)) =~= seq![Stroke::HLeft, Stroke::VTop]);
    assert(arm_strokes((0, 1, 1, 1)) =~= seq![Stroke::VFull, Stroke::HRight]);
    assert(arm_strokes((1, 0, 1, 1)) =~= seq![Stroke::VFull, Stroke::HLeft]);
    assert(arm_strokes((1, 1, 0, 1)) =~= seq![Stroke::HFull, Stroke::VBottom]);
    assert(arm_strokes((1, 1, 1, 0)) =~= seq![Stroke::HFull, Stroke::VTop]);
    assert(arm_strokes((1, 1, 1, 1)) =~= seq![Stroke::HFull, Stroke::VFull]);
}

/// A cell is highlighted exactly where it lies between the ends of the selection, in the order in
/// which the screen is read.
pub proof fn the_selection_is_highlighted(x: Sel, cols: usize, row: usize, c: usize)
    requires
        0 < cols,
        c < cols,
    ensures
        ({
            let forward = x.anchor.0 < x.head.0 || (x.anchor.0 == x.head.0 && x.anchor.1 <= x.head.1);
            let s = if forward { x.anchor } else { x.head };
            let e = if forward { x.head } else { x.anchor };
            let v = spans_of(Some(x), cols as int);
            (exists|k: int| 0 <= k < v.len() && (#[trigger] v[k]).row == row && v[k].from <= c <= v[k].to) <==> {
                &&& s.0 <= row <= e.0
                &&& row == s.0 ==> c >= s.1
                &&& row == e.0 ==> c <= e.1
            }
        }),
        spans_of(None, cols as int) == Seq::<RowSpan>::empty(),
{
    let (s, e) = reading_order(x.anchor, x.head);
    let v = spans_of(Some(x), cols as int);
    let rows = row_numbers(s.0 as int, e.0 + 1);
    let f = |r: int| span_of(s, e, cols as int, r);
    assert(v == filter_map(rows, f));
    if s.0 <= row <= e.0 && (row == s.0 ==> c >= s.1) && (row == e.0 ==> c <= e.1) {
        let y = span_of(s, e, cols as int, row as int)->0;
        mapping_keeps_members(rows, f, y);
        assert(f(rows[row - s.0]) == Some(y));
        assert(v.contains(y));
        let k = choose|k: int| 0 <= k < v.len() && v[k] == y;
        assert(v[k].row == row);
    }
    if exists|k: int| 0 <= k < v.len() && (#[trigger] v[k]).row == row && v[k].from <= c <= v[k].to {
        let k = choose|k: int| 0 <= k < v.len() && (#[trigger] v[k]).row == row && v[k].from <= c <= v[k].to;
        mapping_keeps_members(rows, f, v[k]);
        assert(v.contains(v[k]));
        let i = choose|i: int| 0 <= i < rows.len() && f(#[trigger] rows[i]) == Some(v[k]);
        assert(rows[i] == s.0 + i);
    }
}

/// The cursor is in a frame while it is lit, a scroll bar where there is something above the screen,
/// and a row need not be drawn again where it is the one that was there.
pub proof fn a_frame_has_its_cursor(t: Terminal, cells: Seq<TermCell>, was: Seq<u64>, cursor: (usize, i32), history: int, r: TermPrepaint, i: int)
    requires
        is_frame(t, cells, was, cursor, history, r),
        0 <= i < r.rows@.len(),
    ensures
        t.cursor_on ==> r.cursor == Some(cursor),
        !t.cursor_on ==> r.cursor is None,
        t.rows > 0 ==> (r.scrollbar <==> history > 0),
        r.rows@.len() == rows_of(cells).len(),
        i >= was.len() ==> !r.unchanged@[i],
        i < was.len() ==> (r.unchanged@[i] <==> was[i] == rows_of(cells)[i].hash),
        t.selection is None ==> r.selection@.len() == 0,
{
}

/// The double lines and those that are double one way only reach to the sides that their characters
/// show. They come in threes: double across, double downwards, double both ways.
pub proof fn double_lines_reach_to_their_sides(n: u32)
    requires
        0x2550 <= n <= 0x256c,
    ensures
        ({
            let a = arms(n)->0;
            &&& arms(n) is Some
            &&& a.0 > 0 <==> n == 0x2550 || 0x2555 <= n <= 0x2557 || 0x255b <= n <= 0x255d || 0x2561 <= n
            &&& a.1 > 0 <==> n == 0x2550 || 0x2552 <= n <= 0x2554 || 0x2558 <= n <= 0x255a || 0x255e <= n <= 0x2560 || 0x2564 <= n
            &&& a.2 > 0 <==> n == 0x2551 || 0x2558 <= n <= 0x2563 || 0x2567 <= n
            &&& a.3 > 0 <==> 0x2551 <= n <= 0x2557 || 0x255e <= n <= 0x2566 || 0x256a <= n
            &&& n == 0x2550 ==> a == (2u8, 2u8, 0u8, 0u8)
            &&& n == 0x2551 ==> a == (0u8, 0u8, 2u8, 2u8)
            &&& n >= 0x2552 && n % 3 == 0x2552int % 3 ==> a.0 != 1 && a.1 != 1 && a.2 <= 1 && a.3 <= 1
            &&& n >= 0x2552 && n % 3 == 0x2553int % 3 ==> a.0 <= 1 && a.1 <= 1 && a.2 != 1 && a.3 != 1
            &&& n >= 0x2552 && n % 3 == 0x2554int % 3 ==> a.0 != 1 && a.1 != 1 && a.2 != 1 && a.3 != 1
            &&& a.0 <= 2 && a.1 <= 2 && a.2 <= 2 && a.3 <= 2
        }),
{
}

/// The light and heavy lines that are drawn reach to the sides that their characters show.
pub proof fn single_lines_reach_to_their_sides(n: u32)
    requires
        0x2500 <= n <= 0x2503 || 0x250c <= n <= 0x254b,
    ensures
        ({
            let a = arms(n)->0;
            &&& arms(n) is Some
            &&& a.0 == 1 <==> n <= 0x2501 || 0x2510 <= n <= 0x2513 || 0x2518 <= n <= 0x251b || 0x2524 <= n
            &&& a.1 == 1 <==> n <= 0x2501 || 0x250c <= n <= 0x250f || 0x2514 <= n <= 0x2517 || 0x251c <= n <= 0x2523 || 0x252c <= n
            &&& a.2 == 1 <==> 0x2502 <= n <= 0x2503 || 0x2514 <= n <= 0x252b || 0x2534 <= n
            &&& a.3 == 1 <==> 0x2502 <= n <= 0x2513 || 0x251c <= n <= 0x2533 || 0x253c <= n
            &&& a.0 <= 1 && a.1 <= 1 && a.2 <= 1 && a.3 <= 1
        }),
{
}

/// Dashed lines come in pairs, light and heavy: across and downwards in three dashes, in four, and in
/// two.
pub proof fn dashed_lines_have_their_dashes(n: u32)
    ensures
        dashes(n) is Some <==> 0x2504 <= n <= 0x250b || 0x254c <= n <= 0x254f,
        dashes(n) is Some ==> (dashes(n)->0).0 == (n % 4 <= 1),
        0x2504 <= n <= 0x2507 ==> (dashes(n)->0).1 == 3,
        0x2508 <= n <= 0x250b ==> (dashes(n)->0).1 == 4,
        0x254c <= n <= 0x254f ==> (dashes(n)->0).1 == 2,
{
}

} // verus!
