//! What the terminal emulator holds: the cells of its grid and its modes.
use vstd::prelude::*;
use alacritty_terminal::grid::{Dimensions, Grid, Indexed};
use alacritty_terminal::index::Line;
use alacritty_terminal::term::cell::{Cell, Flags};
use alacritty_terminal::term::TermMode;
use alacritty_terminal::vte::ansi::Color;
use crate::frame::{TermPrepaint, TerminalElement, few_cells, is_frame};
use crate::term::TermCell;
use crate::vt::{NamedColor, TermColor, WheelAction, basic_color, mouse_bytes, mouse_report, opt_bytes, paste, paste_bytes, term_color, wheel, wheel_of};

verus! {

/// The emulator's grid.
#[verifier::external_type_specification]
#[verifier::external_body]
#[verifier::reject_recursive_types(T)]
pub struct ExGrid<T>(Grid<T>);

/// A cell of the emulator's grid.
#[verifier::external_type_specification]
#[verifier::external_body]
pub struct ExCell(Cell);

/// The emulator's set of modes.
#[verifier::external_type_specification]
#[verifier::external_body]
pub struct ExTermMode(TermMode);

/// A colour as the emulator has it; a named one goes by the number of its name.
#[derive(Clone, Copy, Debug, PartialEq, Eq, Structural)]
pub enum RawColor {
    Named(usize),
    Indexed(u8),
    Spec(u8, u8, u8),
}

/// A cell as the emulator has it.
#[derive(Clone, Copy, Debug, PartialEq, Eq, Structural)]
pub struct RawCell {
    pub line: i32,
    pub col: usize,
    pub c: char,
    pub fg: RawColor,
    pub bg: RawColor,
    pub wide_spacer: bool,
    pub inverse: bool,
}

/// The cells that `Grid::display_iter` goes over, in its order.
pub uninterp spec fn displayed(g: Grid<Cell>) -> Seq<RawCell>;

/// What `Dimensions::columns` gives for a grid.
pub uninterp spec fn grid_columns(g: Grid<Cell>) -> usize;

/// What `Dimensions::total_lines` gives for a grid.
pub uninterp spec fn grid_lines(g: Grid<Cell>) -> usize;

/// What `Dimensions::screen_lines` gives for a grid.
pub uninterp spec fn grid_screen(g: Grid<Cell>) -> usize;

/// What `Grid::display_offset` gives.
pub uninterp spec fn grid_offset(g: Grid<Cell>) -> usize;

/// How many cells `Row::len` counts in a line of a grid.
pub uninterp spec fn row_length(g: Grid<Cell>, line: i32) -> usize;

/// What `Dimensions::history_size` gives for a grid.
pub uninterp spec fn grid_history(g: Grid<Cell>) -> usize;

/// What `TermMode::bits` gives.
pub uninterp spec fn mode_bits(m: TermMode) -> u32;

/// Whether the lines of a grid can be counted, and lie in its history or on the screen.
pub open spec fn countable(g: Grid<Cell>) -> bool {
    &&& grid_lines(g) < 0x7fff_ffff
    &&& grid_screen(g) + grid_history(g) == grid_lines(g)
    &&& grid_offset(g) <= grid_history(g)
}

/// Whether a line is one of those that are displayed.
pub open spec fn on_display(g: Grid<Cell>, line: i32) -> bool {
    -(grid_offset(g) as int) <= line < grid_screen(g) - grid_offset(g)
}

/// Whether the cells of a grid can be gone over: it has a column, its lines can be counted, and
/// each line on display is as long as the grid is wide.
pub open spec fn readable(g: Grid<Cell>) -> bool {
    &&& grid_columns(g) > 0
    &&& countable(g)
    &&& forall|line: i32| on_display(g, line) ==> #[trigger] row_length(g, line) >= grid_columns(g)
}

/// `Grid::display_iter` goes over the visible cells. Each is given by its place, its
/// character, its two colours and two of its flags. The iterator counts lines, up into the
/// history too, in 32 bits, it begins at the last column, and it takes a cell of every column
/// from every line on display: so there has to be a column, no more lines than can be
/// counted, and no line that was cut short.
#[verifier::external_body]
fn raw_cells(g: &Grid<Cell>) -> (r: Vec<RawCell>)
    requires
        readable(*g),
    ensures
        r@ == displayed(*g),
{
    let color = |c: Color| match c {
        Color::Named(n) => RawColor::Named(n as usize),
        Color::Indexed(i) => RawColor::Indexed(i),
        Color::Spec(s) => RawColor::Spec(s.r, s.g, s.b),
    };
    let cell = |i: Indexed<&Cell>| RawCell {
        line: i.point.line.0,
        col: i.point.column.0,
        c: i.c,
        fg: color(i.fg),
        bg: color(i.bg),
        wide_spacer: i.flags.contains(Flags::WIDE_CHAR_SPACER),
        inverse: i.flags.contains(Flags::INVERSE),
    };
    g.display_iter().map(cell).collect()
}

/// `Dimensions::columns`: the width of the grid.
#[verifier::external_body]
fn columns(g: &Grid<Cell>) -> (r: usize)
    ensures
        r == grid_columns(*g),
{
    g.columns()
}

/// `Dimensions::total_lines`: how many lines there are, with those of the history.
#[verifier::external_body]
fn total_lines(g: &Grid<Cell>) -> (r: usize)
    ensures
        r == grid_lines(*g),
{
    g.total_lines()
}

/// `Dimensions::screen_lines`: how many lines are visible at once.
#[verifier::external_body]
fn screen_lines(g: &Grid<Cell>) -> (r: usize)
    ensures
        r == grid_screen(*g),
{
    g.screen_lines()
}

/// `Grid::display_offset`: how many lines the view is scrolled up into the history.
#[verifier::external_body]
fn display_offset(g: &Grid<Cell>) -> (r: usize)
    ensures
        r == grid_offset(*g),
{
    g.display_offset()
}

/// A line of the grid by its index, and `Row::len`: how many cells it holds. There has to be such
/// a line, in the history or on the screen.
#[verifier::external_body]
fn row_len(g: &Grid<Cell>, line: i32) -> (r: usize)
    requires
        countable(*g),
        on_display(*g, line),
    ensures
        r == row_length(*g, line),
{
    g[Line(line)].len()
}

/// `Dimensions::history_size`: how many lines lie above the visible ones.
#[verifier::external_body]
fn history(g: &Grid<Cell>) -> (r: usize)
    ensures
        r == grid_history(*g),
{
    g.history_size()
}

/// `TermMode::bits`: the modes as a number with one bit for each.
#[verifier::external_body]
fn bits(m: &TermMode) -> (r: u32)
    ensures
        r == mode_bits(*m),
{
    m.bits()
}

// ── cells ───────────────────────────────────────────────────────────────────

/// The named colour with a number: the sixteen basic ones come first, the default colours of text
/// and background have numbers of their own.
pub open spec fn color_named(n: int) -> NamedColor {
    if n < 16 {
        basic_color(n)
    } else if n == 256 {
        NamedColor::Foreground
    } else if n == 257 {
        NamedColor::Background
    } else {
        NamedColor::Other
    }
}

/// A colour of the emulator as the terminal pane has it.
pub open spec fn color_from(c: RawColor) -> TermColor {
    match c {
        RawColor::Named(n) => TermColor::Named(color_named(n as int)),
        RawColor::Indexed(i) => TermColor::Indexed(i),
        RawColor::Spec(r, g, b) => TermColor::Spec(r, g, b),
    }
}

/// A cell of the emulator as the terminal pane has it.
pub open spec fn cell_from(c: RawCell) -> TermCell {
    TermCell {
        line: c.line,
        col: c.col,
        c: c.c,
        fg: color_from(c.fg),
        bg: color_from(c.bg),
        wide_spacer: c.wide_spacer,
        inverse: c.inverse,
    }
}

/// The cells of the emulator as the terminal pane has them.
pub open spec fn cells_from(v: Seq<RawCell>) -> Seq<TermCell> {
    v.map_values(|c: RawCell| cell_from(c))
}

/// The named colour with a number.
pub fn named_from(n: usize) -> (r: NamedColor)
    ensures
        r == color_named(n as int),
{
    match n {
        0 => NamedColor::Black,
        1 => NamedColor::Red,
        2 => NamedColor::Green,
        3 => NamedColor::Yellow,
        4 => NamedColor::Blue,
        5 => NamedColor::Magenta,
        6 => NamedColor::Cyan,
        7 => NamedColor::White,
        8 => NamedColor::BrightBlack,
        9 => NamedColor::BrightRed,
        10 => NamedColor::BrightGreen,
        11 => NamedColor::BrightYellow,
        12 => NamedColor::BrightBlue,
        13 => NamedColor::BrightMagenta,
        14 => NamedColor::BrightCyan,
        15 => NamedColor::BrightWhite,
        256 => NamedColor::Foreground,
        257 => NamedColor::Background,
        _ => NamedColor::Other,
    }
}

fn term_color_from(c: RawColor) -> (r: TermColor)
    ensures
        r == color_from(c),
{
    match c {
        RawColor::Named(n) => TermColor::Named(named_from(n)),
        RawColor::Indexed(i) => TermColor::Indexed(i),
        RawColor::Spec(r, g, b) => TermColor::Spec(r, g, b),
    }
}

/// The cells of the emulator as the terminal pane has them.
pub fn take_cells(v: &Vec<RawCell>) -> (r: Vec<TermCell>)
    ensures
        r@ == cells_from(v@),
{
    let mut out: Vec<TermCell> = Vec::new();
    let mut i: usize = 0;
    while i < v.len()
        invariant
            i <= v.len(),
            out.len() == i,
            forall|j: int| 0 <= j < i ==> #[trigger] out@[j] == cell_from(v@[j]),
        decreases v.len() - i,
    {
        let x = v[i];
        out.push(
            TermCell {
                line: x.line,
                col: x.col,
                c: x.c,
                fg: term_color_from(x.fg),
                bg: term_color_from(x.bg),
                wide_spacer: x.wide_spacer,
                inverse: x.inverse,
            },
        );
        i = i + 1;
    }
    assert(out@ =~= cells_from(v@));
    out
}

fn can_read(g: &Grid<Cell>) -> (r: bool)
    ensures
        r == readable(*g),
{
    let cols = columns(g);
    let lines = total_lines(g);
    let screen = screen_lines(g);
    let above = history(g);
    let offset = display_offset(g);
    if cols == 0 || lines >= 0x7fff_ffff || screen > lines || above != lines - screen || offset > above {
        return false;
    }
    let top: i32 = -(offset as i32);
    let end: i32 = screen as i32 + top;
    let mut l: i32 = top;
    while l < end
        invariant
            countable(*g),
            top == -(grid_offset(*g) as int),
            end == grid_screen(*g) - grid_offset(*g),
            cols == grid_columns(*g),
            top <= l,
            forall|k: i32| top <= k < l ==> #[trigger] row_length(*g, k) >= cols,
        decreases end - l,
    {
        if row_len(g, l) < cols {
            assert(on_display(*g, l));
            return false;
        }
        l = l + 1;
    }
    true
}

/// The visible cells of a grid; none of a grid that cannot be gone over.
pub fn screen_cells(g: &Grid<Cell>) -> (r: Option<Vec<TermCell>>)
    ensures
        match r {
            Some(v) => readable(*g) && v@ == cells_from(displayed(*g)),
            None => !readable(*g),
        },
{
    if !can_read(g) {
        return None;
    }
    let v = raw_cells(g);
    Some(take_cells(&v))
}

impl TerminalElement {
    /// Prepares a frame from the emulator's grid. `old` holds the numbers of the rows painted
    /// before; there is no frame of a grid that cannot be gone over, or whose text would not fit
    /// in memory.
    pub fn prepaint_grid(&self, g: &Grid<Cell>, old: &Vec<u64>, cursor: (usize, i32)) -> (r: Option<TermPrepaint>)
        ensures
            ({
                let cells = cells_from(displayed(*g));
                match r {
                    Some(p) => {
                        &&& readable(*g) && few_cells(cells)
                        &&& is_frame(self.term, cells, old@, cursor, grid_history(*g) as int, p)
                    },
                    None => !(readable(*g) && few_cells(cells)),
                }
            }),
    {
        let cells = match screen_cells(g) {
            Some(c) => c,
            None => return None,
        };
        if cells.len() > (usize::MAX - 4) / 4 {
            assert(!few_cells(cells@));
            return None;
        }
        assert(few_cells(cells@));
        Some(self.prepaint(&cells, old, cursor, history(g)))
    }
}

// ── modes ───────────────────────────────────────────────────────────────────

/// The modes in which a program is told of the mouse: of clicks, of motion, or of drags.
pub const MOUSE_BITS: u32 = 0x2048;

/// The mode in which it is told in the newer form.
pub const SGR_BIT: u32 = 0x20;

/// The mode in which a paste is marked.
pub const PASTE_BIT: u32 = 0x10;

/// Whether one of some modes is on.
pub open spec fn has_mode(bits: u32, mask: u32) -> bool {
    bits & mask != 0
}

/// Whether the program in the terminal is told of the mouse.
pub fn mouse_reporting(m: &TermMode) -> (r: bool)
    ensures
        r == has_mode(mode_bits(*m), MOUSE_BITS),
{
    bits(m) & MOUSE_BITS != 0
}

/// The bytes that tell the program of a mouse event, where it wants to be told. Columns and rows
/// count from 1.
pub fn forward_mouse(m: &TermMode, button: u8, pressed: bool, col: u64, row: u64) -> (r: Option<Vec<u8>>)
    ensures
        opt_bytes(r) == mouse_bytes(
            has_mode(mode_bits(*m), MOUSE_BITS),
            has_mode(mode_bits(*m), SGR_BIT),
            button,
            pressed,
            col as nat,
            row as nat,
        ),
{
    let b: u32 = bits(m);
    mouse_report(b & MOUSE_BITS != 0, b & SGR_BIT != 0, button, pressed, col, row)
}

/// The bytes of a paste, marked where the program asked for it.
pub fn paste_into(m: &TermMode, text: &str) -> (r: Vec<u8>)
    ensures
        r@ == paste_bytes(text@, has_mode(mode_bits(*m), PASTE_BIT)),
{
    paste(text, bits(m) & PASTE_BIT != 0)
}

/// What a turn of the wheel by whole lines does.
pub fn turn_wheel(m: &TermMode, lines: i32) -> (r: WheelAction)
    ensures
        r == wheel_of(lines, has_mode(mode_bits(*m), MOUSE_BITS)),
{
    wheel(lines, bits(m) & MOUSE_BITS != 0)
}

/// A cell of the emulator keeps its place, its character and its flags; colours by index and by parts
/// stay, and named ones go by their number.
pub proof fn cells_are_taken_as_they_are(v: Seq<RawCell>, i: int)
    requires
        0 <= i < v.len(),
    ensures
        ({
            let x = cells_from(v)[i];
            &&& cells_from(v).len() == v.len()
            &&& x.line == v[i].line && x.col == v[i].col && x.c == v[i].c && x.wide_spacer == v[i].wide_spacer && x.inverse == v[i].inverse
            &&& v[i].fg is Indexed ==> x.fg == TermColor::Indexed(v[i].fg->Indexed_0)
            &&& v[i].bg is Indexed ==> x.bg == TermColor::Indexed(v[i].bg->Indexed_0)
            &&& v[i].fg is Named && v[i].fg->Named_0 < 16 ==> term_color(x.fg) == term_color(TermColor::Indexed(v[i].fg->Named_0 as u8))
            &&& v[i].bg is Named && v[i].bg->Named_0 < 16 ==> term_color(x.bg) == term_color(TermColor::Indexed(v[i].bg->Named_0 as u8))
        }),
        color_named(256) == NamedColor::Foreground && color_named(257) == NamedColor::Background && color_named(258) == NamedColor::Other,
        MOUSE_BITS == 0x2048 && SGR_BIT == 0x20 && PASTE_BIT == 0x10,
{
}

} // verus!
