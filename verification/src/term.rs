//! The terminal pane: its size and selection, and the rows that are painted.
use vstd::prelude::*;
use crate::diff::{in_reading_order, least, lesser, reading_order};
use crate::keys::Keystroke;
use crate::text::{alphanumeric, cat, lemma_trimmed_end, opt_text, string_of, trim_end, trim_end_char, trimmed_end, without_trailing};
use crate::vt::{TermColor, key_bytes, keystroke_to_bytes, paste};

verus! {

// ── cells ───────────────────────────────────────────────────────────────────

/// One cell of the visible grid.
#[derive(Clone, Copy, Debug, PartialEq, Eq, Structural)]
pub struct TermCell {
    pub line: i32,
    pub col: usize,
    pub c: char,
    pub fg: TermColor,
    pub bg: TermColor,
    pub wide_spacer: bool,
    pub inverse: bool,
}

/// The character of a cell: a blank where it is empty.
pub open spec fn shown(c: char) -> char {
    if c == '\0' {
        ' '
    } else {
        c
    }
}

/// The character at row `r` and column `c`: that of the last cell there, a blank where
/// there is none.
pub open spec fn char_in(cells: Seq<TermCell>, r: int, c: int) -> char
    decreases cells.len(),
{
    if cells.len() == 0 {
        ' '
    } else if cells.last().line == r && cells.last().col == c {
        shown(cells.last().c)
    } else {
        char_in(cells.drop_last(), r, c)
    }
}

/// A grid as rows of characters.
pub open spec fn is_grid(g: Seq<Vec<char>>, cells: Seq<TermCell>, rows: int, cols: int) -> bool {
    &&& g.len() == rows
    &&& forall|r: int| 0 <= r < rows ==> (#[trigger] g[r])@.len() == cols
    &&& forall|r: int, c: int| 0 <= r < rows && 0 <= c < cols ==> #[trigger] g[r]@[c] == char_in(cells, r, c)
}

fn show(c: char) -> (r: char)
    ensures
        r == shown(c),
{
    if c == '\0' {
        ' '
    } else {
        c
    }
}

fn blank_row(cols: usize) -> (r: Vec<char>)
    ensures
        r@.len() == cols,
        forall|c: int| 0 <= c < cols ==> r@[c] == ' ',
{
    let mut v: Vec<char> = Vec::new();
    let mut i: usize = 0;
    while i < cols
        invariant
            i <= cols,
            v.len() == i,
            forall|c: int| 0 <= c < i ==> v@[c] == ' ',
        decreases cols - i,
    {
        v.push(' ');
        i = i + 1;
    }
    v
}

/// The characters of row `row`, `cols` of them.
pub fn row_chars(cells: &Vec<TermCell>, row: usize, cols: usize) -> (r: Vec<char>)
    ensures
        r@.len() == cols,
        forall|c: int| 0 <= c < cols ==> r@[c] == char_in(cells@, row as int, c),
{
    let mut v = blank_row(cols);
    let mut i: usize = 0;
    assert(cells@.take(0) =~= Seq::<TermCell>::empty());
    while i < cells.len()
        invariant
            i <= cells.len(),
            v@.len() == cols,
            forall|c: int| 0 <= c < cols ==> v@[c] == char_in(cells@.take(i as int), row as int, c),
        decreases cells.len() - i,
    {
        let x = cells[i];
        proof {
            assert(cells@.take(i + 1).drop_last() =~= cells@.take(i as int));
            assert(cells@.take(i + 1).last() == x);
        }
        if x.line >= 0 && x.line as usize == row && x.col < cols {
            v.set(x.col, show(x.c));
        }
        i = i + 1;
    }
    assert(cells@.take(cells@.len() as int) =~= cells@);
    v
}

/// The visible grid as rows of characters, blanks where cells are empty.
pub fn grid_chars(cells: &Vec<TermCell>, rows: usize, cols: usize) -> (g: Vec<Vec<char>>)
    ensures
        is_grid(g@, cells@, rows as int, cols as int),
{
    let mut g: Vec<Vec<char>> = Vec::new();
    let mut r: usize = 0;
    while r < rows
        invariant
            r <= rows,
            g.len() == r,
            forall|i: int| 0 <= i < r ==> (#[trigger] g@[i])@.len() == cols,
            forall|i: int, c: int| 0 <= i < r && 0 <= c < cols ==> #[trigger] g@[i]@[c] == char_in(
                cells@,
                i,
                c,
            ),
        decreases rows - r,
    {
        let line = row_chars(cells, r, cols);
        g.push(line);
        r = r + 1;
    }
    g
}

// ── the selection ───────────────────────────────────────────────────────────

/// A selection over the visible grid, by row and column; both ends belong to it.
#[derive(Clone, Copy, Debug, PartialEq, Eq)]
pub struct Sel {
    pub anchor: (usize, usize),
    pub head: (usize, usize),
}

impl Sel {
    /// The two ends in reading order.
    pub fn ordered(&self) -> (r: ((usize, usize), (usize, usize)))
        ensures
            r == reading_order(self.anchor, self.head),
    {
        in_reading_order(self.anchor, self.head)
    }
}

/// The columns of row `row` between two ends, the last one too.
pub open spec fn sel_cols(start: (usize, usize), end: (usize, usize), row: int, cols: int) -> (int, int) {
    (
        least(if row == start.0 { start.1 as int } else { 0 }, cols - 1),
        least(if row == end.0 { end.1 as int } else { cols - 1 }, cols - 1),
    )
}

/// The selected text of row `row`, without blanks at its end.
pub open spec fn sel_line(g: Seq<Vec<char>>, start: (usize, usize), end: (usize, usize), row: int, cols: int) -> Seq<char> {
    let p = sel_cols(start, end, row, cols);
    if p.0 <= p.1 {
        trimmed_end(g[row]@.subrange(p.0, p.1 + 1))
    } else {
        Seq::empty()
    }
}

/// The text of the rows from the start up to, but not at, row `to`: a newline behind each
/// but the last row of the selection. Rows below the grid have no text.
pub open spec fn sel_rows(g: Seq<Vec<char>>, start: (usize, usize), end: (usize, usize), cols: int, to: int) -> Seq<char>
    decreases to - start.0,
{
    if to <= start.0 {
        Seq::empty()
    } else {
        let head = sel_rows(g, start, end, cols, to - 1);
        if to - 1 >= g.len() {
            head
        } else {
            let t = head + sel_line(g, start, end, to - 1, cols);
            if to - 1 != end.0 {
                t.push('\n')
            } else {
                t
            }
        }
    }
}

/// The selected text: the rows without blanks at their ends, joined by newlines, without
/// empty rows at the end.
pub open spec fn selection_chars(g: Seq<Vec<char>>, sel: Sel, cols: int) -> Seq<char> {
    let (s, e) = reading_order(sel.anchor, sel.head);
    without_trailing(sel_rows(g, s, e, cols, e.0 + 1), '\n')
}

proof fn lemma_sel_rows_below(g: Seq<Vec<char>>, start: (usize, usize), end: (usize, usize), cols: int, from: int, to: int)
    requires
        g.len() <= from <= to,
        start.0 <= from,
    ensures
        sel_rows(g, start, end, cols, to) == sel_rows(g, start, end, cols, from),
    decreases to - from,
{
    if from < to {
        lemma_sel_rows_below(g, start, end, cols, from, to - 1);
    }
}

proof fn lemma_sel_rows_outside(g: Seq<Vec<char>>, start: (usize, usize), end: (usize, usize), cols: int, to: int)
    requires
        g.len() <= start.0,
    ensures
        sel_rows(g, start, end, cols, to) == Seq::<char>::empty(),
    decreases to - start.0,
{
    if to > start.0 {
        lemma_sel_rows_outside(g, start, end, cols, to - 1);
    }
}

/// The selected text of a grid with `cols` columns.
pub fn extract_selection(g: &Vec<Vec<char>>, sel: Sel, cols: usize) -> (r: String)
    requires
        cols > 0,
        forall|i: int| 0 <= i < g.len() ==> (#[trigger] g@[i])@.len() == cols,
    ensures
        r@ == selection_chars(g@, sel, cols as int),
{
    let (start, end) = sel.ordered();
    let mut out = String::new();
    let mut row: usize = start.0;
    while row <= end.0 && row < g.len()
        invariant
            cols > 0,
            start.0 <= row,
            row <= end.0 + 1,
            start.0 <= end.0,
            row <= g.len() || row == start.0,
            forall|i: int| 0 <= i < g.len() ==> (#[trigger] g@[i])@.len() == cols,
            out@ == sel_rows(g@, start, end, cols as int, row as int),
        decreases g.len() - row,
    {
        let line = &g[row];
        assert(g@[row as int]@.len() == cols);
        let from: usize = lesser(
            if row == start.0 {
                start.1
            } else {
                0
            },
            cols - 1,
        );
        let to: usize = lesser(
            if row == end.0 {
                end.1
            } else {
                cols - 1
            },
            cols - 1,
        );
        if from <= to {
            let s = string_of(line, from, to + 1);
            let t = trim_end(s.as_str());
            out = cat(out.as_str(), t.as_str());
        } else {
            assert(out@ + Seq::<char>::empty() =~= out@);
        }
        if row != end.0 {
            out.push('\n');
        }
        row = row + 1;
    }
    proof {
        if start.0 >= g@.len() {
            lemma_sel_rows_outside(g@, start, end, cols as int, end.0 + 1);
            lemma_sel_rows_outside(g@, start, end, cols as int, row as int);
        } else if row <= end.0 {
            lemma_sel_rows_below(g@, start, end, cols as int, row as int, end.0 + 1);
        }
    }
    trim_end_char(out.as_str(), '\n')
}

/// A selected text ends in no newline.
pub proof fn selection_ends_in_no_newline(g: Seq<Vec<char>>, sel: Sel, cols: int)
    ensures
        selection_chars(g, sel, cols).len() > 0 ==> selection_chars(g, sel, cols).last() != '\n',
{
    let (s, e) = reading_order(sel.anchor, sel.head);
    lemma_without_trailing(sel_rows(g, s, e, cols, e.0 + 1), '\n');
}

proof fn lemma_without_trailing(s: Seq<char>, c: char)
    ensures
        without_trailing(s, c).len() > 0 ==> without_trailing(s, c).last() != c,
    decreases s.len(),
{
    if s.len() > 0 && s.last() == c {
        lemma_without_trailing(s.drop_last(), c);
    }
}

/// Whether `c` belongs to a word of the terminal: letters, numbers and what paths and
/// addresses are made of.
pub open spec fn term_word_char(c: char) -> bool {
    alphanumeric(c) || c == '_' || c == '-' || c == '.' || c == '/' || c == '@' || c == ':' || c == '~'
}

fn is_term_word(c: char) -> (r: bool)
    ensures
        r == term_word_char(c),
{
    c.is_alphanumeric() || c == '_' || c == '-' || c == '.' || c == '/' || c == '@' || c == ':' || c
        == '~'
}

/// Whether `s..e` is the word at `col`: all of it word characters, and none next to it.
pub open spec fn term_word(t: Seq<char>, col: int, s: int, e: int) -> bool {
    &&& 0 <= s <= col < e <= t.len()
    &&& forall|i: int| s <= i < e ==> term_word_char(#[trigger] t[i])
    &&& s > 0 ==> !term_word_char(t[s - 1])
    &&& e < t.len() ==> !term_word_char(t[e])
}

/// A word has one beginning and one end.
pub proof fn term_word_is_unique(t: Seq<char>, col: int, s1: int, e1: int, s2: int, e2: int)
    requires
        term_word(t, col, s1, e1),
        term_word(t, col, s2, e2),
    ensures
        s1 == s2,
        e1 == e2,
{
    if s1 < s2 {
        assert(term_word_char(t[s2 - 1]));
    }
    if s2 < s1 {
        assert(term_word_char(t[s1 - 1]));
    }
    if e1 < e2 {
        assert(term_word_char(t[e1]));
    }
    if e2 < e1 {
        assert(term_word_char(t[e2]));
    }
}

/// The word at `col`, from its first character to behind its last.
pub fn word_at(t: &Vec<char>, col: usize) -> (r: Option<(usize, usize)>)
    ensures
        match r {
            Some(p) => term_word(t@, col as int, p.0 as int, p.1 as int),
            None => col >= t.len() || !term_word_char(t@[col as int]),
        },
{
    if col >= t.len() || !is_term_word(t[col]) {
        return None;
    }
    let mut start: usize = col;
    while start > 0 && is_term_word(t[start - 1])
        invariant
            start <= col < t.len(),
            forall|i: int| start <= i <= col ==> term_word_char(#[trigger] t@[i]),
        decreases start,
    {
        start = start - 1;
    }
    let mut end: usize = col + 1;
    while end < t.len() && is_term_word(t[end])
        invariant
            start <= col < end <= t.len(),
            forall|i: int| start <= i < end ==> term_word_char(#[trigger] t@[i]),
        decreases t.len() - end,
    {
        end = end + 1;
    }
    Some((start, end))
}

// ── the terminal ────────────────────────────────────────────────────────────

/// The state of a terminal pane.
#[derive(Debug)]
pub struct Terminal {
    pub cols: usize,
    pub rows: usize,
    pub defer_resize: bool,
    pub cursor_on: bool,
    pub selection: Option<Sel>,
    pub selecting: bool,
    pub sel_text: Option<String>,
}

/// The mouse buttons that the terminal tells apart.
#[derive(Clone, Copy, Debug, PartialEq, Eq, Structural)]
pub enum Button {
    Left,
    Middle,
    Right,
    Other,
}

/// The number of a button that is reported to programs.
pub open spec fn button_code(b: Button) -> Option<u8> {
    match b {
        Button::Middle => Some(1u8),
        Button::Right => Some(2u8),
        _ => None,
    }
}

/// What a key does in the terminal.
#[derive(Debug)]
pub enum KeyAction {
    /// Copy this text.
    Copy(String),
    /// Everything is selected now.
    Selected,
    /// Paste the clipboard.
    Paste,
    /// Go to the prompt and send these bytes.
    Send(Vec<u8>),
    Nothing,
}

/// What a mouse button does in the terminal.
#[derive(Clone, Copy, Debug, PartialEq, Eq, Structural)]
pub enum MouseAction {
    /// The selection changed.
    Selected,
    /// Tell the program about this button.
    Forward(u8),
    /// Tell the program about a press and a release of the left button.
    Click,
    Nothing,
}

/// Whether `after` is the terminal `t` with the word at a column and a row selected, or
/// unchanged where there is no word.
pub open spec fn word_selected(t: Terminal, cells: Seq<TermCell>, col: int, row: int, after: Terminal) -> bool {
    let line = Seq::new(t.cols as nat, |c: int| char_in(cells, row, c));
    if col < line.len() && term_word_char(line[col]) {
        &&& after.selection is Some
        &&& after.selection->0.anchor.0 == row
        &&& after.selection->0.head.0 == row
        &&& term_word(
            line,
            col,
            after.selection->0.anchor.1 as int,
            after.selection->0.head.1 + 1,
        )
        &&& opt_text(after.sel_text) == Some(
            line.subrange(after.selection->0.anchor.1 as int, after.selection->0.head.1 + 1),
        )
        &&& after == (Terminal { selection: after.selection, sel_text: after.sel_text, ..t })
    } else {
        after == t
    }
}

/// Whether `text` is the text of the selection `sel` in the grid of the terminal `t`.
pub open spec fn is_selected_text(t: Terminal, cells: Seq<TermCell>, sel: Sel, text: Option<Seq<char>>) -> bool {
    exists|g: Seq<Vec<char>>|
        is_grid(g, cells, t.rows as int, t.cols as int) && text == Some(
            #[trigger] selection_chars(g, sel, t.cols as int),
        )
}

/// The selection of the whole grid.
pub open spec fn whole_grid(t: Terminal) -> Sel {
    Sel { anchor: (0, 0), head: ((t.rows - 1) as usize, (t.cols - 1) as usize) }
}

/// Whether `after` is the terminal `t` with the whole grid selected.
pub open spec fn all_selected(t: Terminal, cells: Seq<TermCell>, after: Terminal) -> bool {
    &&& after == (Terminal {
        selection: Some(whole_grid(t)),
        selecting: false,
        sel_text: after.sel_text,
        ..t
    })
    &&& is_selected_text(t, cells, whole_grid(t), opt_text(after.sel_text))
}

impl Terminal {
    /// There is at least one cell.
    pub open spec fn wf(&self) -> bool {
        self.cols > 0 && self.rows > 0
    }

    /// A terminal of the usual size with nothing selected.
    pub fn new() -> (r: Terminal)
        ensures
            r == (Terminal {
                cols: 80,
                rows: 24,
                defer_resize: false,
                cursor_on: true,
                selection: None,
                selecting: false,
                sel_text: None,
            }),
            r.wf(),
    {
        Terminal {
            cols: 80,
            rows: 24,
            defer_resize: false,
            cursor_on: true,
            selection: None,
            selecting: false,
            sel_text: None,
        }
    }

    /// The bytes that typing a text sends to the shell.
    pub fn send_text(&self, s: &str) -> (r: Vec<u8>)
        ensures
            r@ == vstd::utf8::encode_utf8(s@),
    {
        paste(s, false)
    }

    /// Drops the selection.
    pub fn clear_selection(&mut self)
        ensures
            *final(self) == (Terminal {
                selection: None,
                selecting: false,
                sel_text: None,
                ..*old(self)
            }),
    {
        self.selection = None;
        self.selecting = false;
        self.sel_text = None;
    }

    /// Takes a new size; says whether it changed. A size without cells is refused.
    pub fn resize(&mut self, cols: usize, rows: usize) -> (r: bool)
        ensures
            r == (!(cols == old(self).cols && rows == old(self).rows) && cols > 0 && rows > 0),
            *final(self) == if r {
                Terminal { cols, rows, ..*old(self) }
            } else {
                *old(self)
            },
            old(self).wf() ==> final(self).wf(),
    {
        if cols == self.cols && rows == self.rows {
            return false;
        }
        if cols == 0 || rows == 0 {
            return false;
        }
        self.cols = cols;
        self.rows = rows;
        true
    }

    /// The cell of the grid next to a column and a row.
    pub fn sel_cell(&self, col: usize, row: usize) -> (r: (usize, usize))
        requires
            self.wf(),
        ensures
            r.0 == least(row as int, self.rows - 1),
            r.1 == least(col as int, self.cols - 1),
    {
        (lesser(row, self.rows - 1), lesser(col, self.cols - 1))
    }

    /// Selects the word at a column and a row, where there is one.
    pub fn select_word_at(&mut self, cells: &Vec<TermCell>, col: usize, row: usize)
        ensures
            word_selected(*old(self), cells@, col as int, row as int, *final(self)),
    {
        let t = row_chars(cells, row, self.cols);
        assert(t@ =~= Seq::new(self.cols as nat, |c: int| char_in(cells@, row as int, c)));
        match word_at(&t, col) {
            Some(p) => {
                self.sel_text = Some(string_of(&t, p.0, p.1));
                self.selection = Some(Sel { anchor: (row, p.0), head: (row, p.1 - 1) });
            },
            None => {},
        }
    }

    /// Selects the whole grid.
    pub fn select_all(&mut self, cells: &Vec<TermCell>)
        requires
            old(self).wf(),
        ensures
            all_selected(*old(self), cells@, *final(self)),
    {
        let sel = Sel { anchor: (0, 0), head: (self.rows - 1, self.cols - 1) };
        let g = grid_chars(cells, self.rows, self.cols);
        let text = extract_selection(&g, sel, self.cols);
        self.sel_text = Some(text);
        self.selection = Some(sel);
        self.selecting = false;
    }

    /// The text of the selection, where there is one.
    pub fn selected(&self, cells: &Vec<TermCell>) -> (r: Option<String>)
        requires
            self.wf(),
        ensures
            match self.selection {
                Some(sel) => is_selected_text(*self, cells@, sel, opt_text(r)),
                None => r is None,
            },
    {
        match self.selection {
            Some(sel) => {
                let g = grid_chars(cells, self.rows, self.cols);
                let t = extract_selection(&g, sel, self.cols);
                Some(t)
            },
            None => None,
        }
    }

    /// A key: copying, selecting all and pasting are for the editor, the rest goes to the
    /// shell and drops the selection.
    pub fn on_key(&mut self, k: &Keystroke, cells: &Vec<TermCell>) -> (r: KeyAction)
        requires
            old(self).wf(),
        ensures
            final(self).cursor_on,
            final(self).wf(),
            ({
                let k = k@;
                let before = Terminal { cursor_on: true, ..*old(self) };
                let cleared = if before.selection is Some {
                    Terminal { selection: None, selecting: false, sel_text: None, ..before }
                } else {
                    before
                };
                if k.platform && k.key == "c"@ {
                    &&& *final(self) == before
                    &&& match before.selection {
                        Some(sel) => if r is Copy {
                            r->Copy_0@.len() > 0 && is_selected_text(
                                before,
                                cells@,
                                sel,
                                Some(r->Copy_0@),
                            )
                        } else {
                            r is Nothing && is_selected_text(before, cells@, sel, Some(Seq::empty()))
                        },
                        None => r is Nothing,
                    }
                } else if k.platform && k.key == "a"@ {
                    &&& r is Selected
                    &&& all_selected(before, cells@, *final(self))
                } else if k.platform && k.key == "v"@ {
                    &&& r is Paste
                    &&& *final(self) == cleared
                } else {
                    &&& *final(self) == cleared
                    &&& match key_bytes(k) {
                        Some(b) => r is Send && r->Send_0@ == b,
                        None => r is Nothing,
                    }
                }
            }),
    {
        self.cursor_on = true;
        if k.platform && k.is("c") {
            return match self.selected(cells) {
                Some(t) => if t.as_str().is_empty() {
                    assert(t@ =~= Seq::<char>::empty());
                    KeyAction::Nothing
                } else {
                    KeyAction::Copy(t)
                },
                None => KeyAction::Nothing,
            };
        }
        if k.platform && k.is("a") {
            self.select_all(cells);
            return KeyAction::Selected;
        }
        if self.selection.is_some() {
            self.clear_selection();
        }
        if k.platform && k.is("v") {
            return KeyAction::Paste;
        }
        match keystroke_to_bytes(k) {
            Some(b) => KeyAction::Send(b),
            None => KeyAction::Nothing,
        }
    }

    /// A button goes down at a column and a row: a double click of the left button selects
    /// the word, a single one begins a selection; another button drops the selection and is
    /// told to the program.
    pub fn on_mouse_down(&mut self, b: Button, clicks: usize, cells: &Vec<TermCell>, col: usize, row: usize) -> (r: MouseAction)
        requires
            old(self).wf(),
        ensures
            final(self).cols == old(self).cols,
            final(self).rows == old(self).rows,
            ({
                let cell = (
                    least(row as int, old(self).rows - 1) as usize,
                    least(col as int, old(self).cols - 1) as usize,
                );
                if b == Button::Left && clicks >= 2 {
                    &&& r == MouseAction::Selected
                    &&& !final(self).selecting
                    &&& word_selected(
                        *old(self),
                        cells@,
                        col as int,
                        row as int,
                        Terminal { selecting: old(self).selecting, ..*final(self) },
                    )
                } else if b == Button::Left {
                    &&& r == MouseAction::Selected
                    &&& *final(self) == (Terminal {
                        selection: Some(Sel { anchor: cell, head: cell }),
                        selecting: true,
                        sel_text: None,
                        ..*old(self)
                    })
                } else {
                    &&& *final(self) == if old(self).selection is Some {
                        Terminal { selection: None, selecting: false, sel_text: None, ..*old(self) }
                    } else {
                        *old(self)
                    }
                    &&& r == match button_code(b) {
                        Some(c) => MouseAction::Forward(c),
                        None => MouseAction::Nothing,
                    }
                }
            }),
    {
        match b {
            Button::Left => {
                if clicks >= 2 {
                    self.select_word_at(cells, col, row);
                    self.selecting = false;
                    return MouseAction::Selected;
                }
                let cell = self.sel_cell(col, row);
                self.selection = Some(Sel { anchor: cell, head: cell });
                self.selecting = true;
                self.sel_text = None;
                MouseAction::Selected
            },
            _ => {
                if self.selection.is_some() {
                    self.clear_selection();
                }
                match b {
                    Button::Middle => MouseAction::Forward(1),
                    Button::Right => MouseAction::Forward(2),
                    _ => MouseAction::Nothing,
                }
            },
        }
    }

    /// A button other than the left one goes up: a program that wants the mouse is told.
    pub fn on_mouse_up(&self, b: Button, reporting: bool) -> (r: MouseAction)
        ensures
            r == match button_code(b) {
                Some(c) => if reporting {
                    MouseAction::Forward(c)
                } else {
                    MouseAction::Nothing
                },
                None => MouseAction::Nothing,
            },
    {
        if !reporting {
            return MouseAction::Nothing;
        }
        match b {
            Button::Middle => MouseAction::Forward(1),
            Button::Right => MouseAction::Forward(2),
            _ => MouseAction::Nothing,
        }
    }

    /// The mouse moves with the left button held: the selection's head follows. Says
    /// whether it moved to another cell.
    pub fn on_drag(&mut self, left_held: bool, col: usize, row: usize) -> (r: bool)
        requires
            old(self).wf(),
        ensures
            ({
                let cell = (
                    least(row as int, old(self).rows - 1) as usize,
                    least(col as int, old(self).cols - 1) as usize,
                );
                &&& r == (old(self).selecting && left_held && old(self).selection is Some && old(
                    self,
                ).selection->0.head != cell)
                &&& *final(self) == if r {
                    Terminal {
                        selection: Some(Sel { anchor: old(self).selection->0.anchor, head: cell }),
                        ..*old(self)
                    }
                } else {
                    *old(self)
                }
            }),
    {
        if !self.selecting || !left_held {
            return false;
        }
        let cell = self.sel_cell(col, row);
        match self.selection {
            Some(sel) => {
                if sel.head.0 != cell.0 || sel.head.1 != cell.1 {
                    self.selection = Some(Sel { anchor: sel.anchor, head: cell });
                    true
                } else {
                    false
                }
            },
            None => false,
        }
    }

    /// The left button goes up: a drag keeps its selection and its text; a plain click
    /// drops it and is told to a program that wants the mouse.
    pub fn on_release(&mut self, cells: &Vec<TermCell>, reporting: bool) -> (r: MouseAction)
        requires
            old(self).wf(),
        ensures
            ({
                let o = *old(self);
                let dragged = o.selection is Some && o.selection->0.anchor != o.selection->0.head;
                if !o.selecting {
                    &&& *final(self) == o
                    &&& r == MouseAction::Nothing
                } else if dragged {
                    &&& r == MouseAction::Selected
                    &&& *final(self) == (Terminal {
                        selecting: false,
                        sel_text: final(self).sel_text,
                        ..o
                    })
                    &&& is_selected_text(o, cells@, o.selection->0, opt_text(final(self).sel_text))
                } else {
                    &&& *final(self) == (Terminal {
                        selection: None,
                        selecting: false,
                        sel_text: None,
                        ..o
                    })
                    &&& r == if reporting {
                        MouseAction::Click
                    } else {
                        MouseAction::Selected
                    }
                }
            }),
    {
        if !self.selecting {
            return MouseAction::Nothing;
        }
        self.selecting = false;
        match self.selection {
            Some(sel) => {
                if sel.anchor.0 != sel.head.0 || sel.anchor.1 != sel.head.1 {
                    let g = grid_chars(cells, self.rows, self.cols);
                    let t = extract_selection(&g, sel, self.cols);
                    self.sel_text = Some(t);
                    return MouseAction::Selected;
                }
            },
            None => {},
        }
        self.clear_selection();
        if reporting {
            MouseAction::Click
        } else {
            MouseAction::Selected
        }
    }
}

/// A grid is what its cells say, so two grids of the same cells give the same text.
pub proof fn selection_depends_on_the_cells(
    a: Seq<Vec<char>>,
    b: Seq<Vec<char>>,
    cells: Seq<TermCell>,
    rows: int,
    cols: int,
    sel: Sel,
)
    requires
        0 < cols,
        is_grid(a, cells, rows, cols),
        is_grid(b, cells, rows, cols),
    ensures
        selection_chars(a, sel, cols) == selection_chars(b, sel, cols),
{
    let (s, e) = reading_order(sel.anchor, sel.head);
    lemma_same_rows(a, b, cells, rows, cols, s, e, e.0 + 1);
}

proof fn lemma_same_rows(
    a: Seq<Vec<char>>,
    b: Seq<Vec<char>>,
    cells: Seq<TermCell>,
    rows: int,
    cols: int,
    s: (usize, usize),
    e: (usize, usize),
    to: int,
)
    requires
        0 < cols,
        is_grid(a, cells, rows, cols),
        is_grid(b, cells, rows, cols),
    ensures
        sel_rows(a, s, e, cols, to) == sel_rows(b, s, e, cols, to),
    decreases to - s.0,
{
    if to > s.0 {
        lemma_same_rows(a, b, cells, rows, cols, s, e, to - 1);
        if to - 1 < rows {
            assert(a[to - 1]@ =~= b[to - 1]@) by {
                assert(a[to - 1]@.len() == cols);
                assert(b[to - 1]@.len() == cols);
                assert forall|c: int| 0 <= c < cols implies #[trigger] a[to - 1]@[c] == b[to - 1]@[c] by {
                    assert(a[to - 1]@[c] == char_in(cells, to - 1, c));
                    assert(b[to - 1]@[c] == char_in(cells, to - 1, c));
                }
            }
        }
    }
}

// ── what a selection holds ──────────────────────────────────────────────────

/// Whether a cell stands at a row and a column.
pub open spec fn stands_at(x: TermCell, r: int, c: int) -> bool {
    x.line == r && x.col == c
}

/// The screen shows at a place the character of the last cell that stands there, a blank where that
/// cell is empty and where there is none.
pub proof fn the_screen_shows_its_cells(a: Seq<TermCell>, x: TermCell, b: Seq<TermCell>, r: int, c: int)
    requires
        forall|i: int| 0 <= i < b.len() ==> !stands_at(#[trigger] b[i], r, c),
    ensures
        stands_at(x, r, c) && x.c != '\0' ==> char_in(a + seq![x] + b, r, c) == x.c,
        stands_at(x, r, c) && x.c == '\0' ==> char_in(a + seq![x] + b, r, c) == ' ',
        char_in(b, r, c) == ' ',
    decreases b.len(),
{
    let v = a + seq![x] + b;
    if b.len() == 0 {
        assert(v.last() == x);
    } else {
        assert(!stands_at(b[b.len() - 1], r, c));
        assert forall|i: int| 0 <= i < b.drop_last().len() implies !stands_at(#[trigger] b.drop_last()[i], r, c) by {
            assert(b.drop_last()[i] == b[i]);
        }
        the_screen_shows_its_cells(a, x, b.drop_last(), r, c);
        assert(v.last() == b.last());
        assert(v.drop_last() =~= a + seq![x] + b.drop_last());
    }
}

proof fn lemma_no_newline_behind(t: Seq<char>)
    ensures
        without_trailing(trimmed_end(t), '\n') == trimmed_end(t),
{
    lemma_trimmed_end(t);
}

/// A selection in one row is the text between its two ends, both of them in it, without the blanks
/// behind it, whichever way it was drawn.
pub proof fn a_row_is_selected_between_its_ends(g: Seq<Vec<char>>, r: usize, a: usize, b: usize, cols: int)
    requires
        r < g.len(),
        a <= b < cols,
        g[r as int]@.len() == cols,
    ensures
        selection_chars(g, Sel { anchor: (r, a), head: (r, b) }, cols) == trimmed_end(g[r as int]@.subrange(a as int, b + 1)),
        selection_chars(g, Sel { anchor: (r, b), head: (r, a) }, cols) == trimmed_end(g[r as int]@.subrange(a as int, b + 1)),
{
    let s = (r, a);
    let e = (r, b);
    let line = sel_line(g, s, e, r as int, cols);
    assert(sel_rows(g, s, e, cols, r as int) =~= Seq::<char>::empty());
    assert(sel_rows(g, s, e, cols, r + 1) =~= line);
    lemma_no_newline_behind(g[r as int]@.subrange(a as int, b + 1));
}

proof fn lemma_rows_from_top(g: Seq<Vec<char>>, r: usize, a: usize, e: (usize, usize), cols: int, to: int)
    requires
        r < g.len(),
        r < e.0,
        r < usize::MAX,
        r + 1 <= to <= e.0 + 1,
    ensures
        sel_rows(g, (r, a), e, cols, to) == sel_line(g, (r, a), e, r as int, cols) + seq!['\n'] + sel_rows(
            g,
            ((r + 1) as usize, 0usize),
            e,
            cols,
            to,
        ),
    decreases to,
{
    let first = sel_line(g, (r, a), e, r as int, cols) + seq!['\n'];
    let s = (r, a);
    let n = ((r + 1) as usize, 0usize);
    if to == r + 1 {
        assert(sel_rows(g, s, e, cols, r as int) =~= Seq::<char>::empty());
        assert(sel_rows(g, n, e, cols, to) =~= Seq::<char>::empty());
        assert(sel_rows(g, s, e, cols, to) =~= first);
        assert(first + Seq::<char>::empty() =~= first);
    } else {
        lemma_rows_from_top(g, r, a, e, cols, to - 1);
        assert(sel_line(g, s, e, to - 1, cols) == sel_line(g, n, e, to - 1, cols));
        assert(sel_rows(g, s, e, cols, to) =~= first + sel_rows(g, n, e, cols, to));
    }
}

proof fn lemma_behind_trailing(a: Seq<char>, b: Seq<char>)
    ensures
        without_trailing(b, '\n').len() > 0 ==> without_trailing(a + b, '\n') == a + without_trailing(b, '\n'),
        without_trailing(b, '\n').len() == 0 ==> without_trailing(a + b, '\n') == without_trailing(a, '\n'),
    decreases b.len(),
{
    if b.len() == 0 {
        assert(a + b =~= a);
    } else {
        assert((a + b).last() == b.last());
        assert((a + b).drop_last() =~= a + b.drop_last());
        if b.last() == '\n' {
            lemma_behind_trailing(a, b.drop_last());
        }
    }
}

/// A selection over several rows is the rest of its first row, without the blanks behind it, a
/// newline, and the selection from the beginning of the next row; where nothing is selected in the
/// rows below, it is the first row alone.
pub proof fn rows_are_selected_one_by_one(g: Seq<Vec<char>>, r: usize, a: usize, e: (usize, usize), cols: int)
    requires
        r < g.len(),
        r < e.0,
        a < cols,
        g[r as int]@.len() == cols,
    ensures
        ({
            let below = selection_chars(g, Sel { anchor: ((r + 1) as usize, 0), head: e }, cols);
            let first = trimmed_end(g[r as int]@.subrange(a as int, cols));
            selection_chars(g, Sel { anchor: (r, a), head: e }, cols) == if below.len() > 0 {
                first + seq!['\n'] + below
            } else {
                first
            }
        }),
        selection_chars(g, Sel { anchor: (r, a), head: e }, cols) == selection_chars(g, Sel { anchor: e, head: (r, a) }, cols),
{
    let first = trimmed_end(g[r as int]@.subrange(a as int, cols));
    let n = ((r + 1) as usize, 0usize);
    lemma_rows_from_top(g, r, a, e, cols, e.0 + 1);
    assert(sel_line(g, (r, a), e, r as int, cols) == first);
    let rest = sel_rows(g, n, e, cols, e.0 + 1);
    lemma_behind_trailing(first + seq!['\n'], rest);
    lemma_no_newline_behind(g[r as int]@.subrange(a as int, cols));
    assert((first + seq!['\n']).drop_last() =~= first);
    assert(without_trailing(first + seq!['\n'], '\n') == first);
}

/// Letters and digits and the characters of paths and addresses make up a word; a blank or a quote
/// ends it.
pub proof fn words_hold_paths_and_addresses(c: char)
    ensures
        alphanumeric(c) ==> term_word_char(c),
        c == '_' || c == '-' || c == '.' || c == '/' || c == '@' || c == ':' || c == '~' ==> term_word_char(c),
        !alphanumeric(c) && (c == ' ' || c == '"' || c == '(' || c == ',' || c == ';' || c == '|' || c == '=') ==> !term_word_char(c),
{
}

/// The middle button goes by the number 1 and the right one by 2; the left one is not passed on as
/// such.
pub proof fn buttons_have_their_numbers()
    ensures
        button_code(Button::Middle) == Some(1u8),
        button_code(Button::Right) == Some(2u8),
        button_code(Button::Left) is None,
{
}

/// A double click selects the whole word under it, in its row, and takes its text; on anything else
/// it changes nothing.
pub proof fn a_double_click_selects_a_word(t: Terminal, cells: Seq<TermCell>, col: int, row: int, after: Terminal, c: int)
    requires
        word_selected(t, cells, col, row, after),
        0 <= col < t.cols,
        0 <= c < t.cols,
    ensures
        !term_word_char(char_in(cells, row, col)) ==> after == t,
        term_word_char(char_in(cells, row, col)) ==> {
            &&& after.selection is Some && after.sel_text is Some
            &&& after.selection->0.anchor.0 == row && after.selection->0.head.0 == row
            &&& after.selection->0.anchor.1 <= col <= after.selection->0.head.1
            &&& after.selection->0.anchor.1 <= c <= after.selection->0.head.1 ==> term_word_char(char_in(cells, row, c))
            &&& after.selection->0.anchor.1 <= c <= after.selection->0.head.1 ==> (after.sel_text->0)@[c - after.selection->0.anchor.1] == char_in(
                cells,
                row,
                c,
            )
            &&& (after.sel_text->0)@.len() == after.selection->0.head.1 - after.selection->0.anchor.1 + 1
            &&& c + 1 == after.selection->0.anchor.1 || c == after.selection->0.head.1 + 1 ==> !term_word_char(char_in(cells, row, c))
        },
{
    let line = Seq::new(t.cols as nat, |k: int| char_in(cells, row, k));
    assert(line[col] == char_in(cells, row, col));
    assert(line[c] == char_in(cells, row, c));
}

/// Selecting everything selects from the first cell to the last one.
pub proof fn everything_is_selected(t: Terminal, cells: Seq<TermCell>, after: Terminal)
    requires
        all_selected(t, cells, after),
        t.rows > 0 && t.cols > 0,
    ensures
        after.selection is Some && !after.selecting,
        after.selection->0.anchor == (0usize, 0usize),
        after.selection->0.head.0 == t.rows - 1 && after.selection->0.head.1 == t.cols - 1,
        after.sel_text is Some,
{
}

} // verus!
