use alacritty_terminal::event::VoidListener;
use alacritty_terminal::grid::{Dimensions, Scroll};
use alacritty_terminal::index::Line;
use alacritty_terminal::term::{Config, Term};
use alacritty_terminal::vte::ansi::{NamedColor as Ansi, Processor, StdSyncHandler};
use tide::frame::TerminalElement;
use tide::screen::{forward_mouse, mouse_reporting, named_from, paste_into, screen_cells, turn_wheel};
use tide::term::{grid_chars, Terminal};
use tide::vt::{NamedColor, TermColor, WheelAction};

struct Size(usize, usize);

impl Dimensions for Size {
    fn total_lines(&self) -> usize {
        self.1
    }
    fn screen_lines(&self) -> usize {
        self.1
    }
    fn columns(&self) -> usize {
        self.0
    }
}

fn emulator(cols: usize, rows: usize, input: &str) -> Term<VoidListener> {
    let mut t = Term::new(Config::default(), &Size(cols, rows), VoidListener);
    let mut p: Processor<StdSyncHandler> = Processor::new();
    p.advance(&mut t, input.as_bytes());
    t
}

#[test]
fn the_emulators_cells_are_read() {
    let t = emulator(6, 2, "ab\u{1b}[31mc\u{1b}[38;5;67md\u{1b}[48;2;1;2;3me\u{1b}[7mf");
    let v = screen_cells(t.grid()).unwrap();
    assert_eq!(v.len(), 12);
    let row: String = v[..6].iter().map(|c| c.c).collect();
    assert_eq!(row, "abcdef");
    assert_eq!(v[0].fg, TermColor::Named(NamedColor::Foreground));
    assert_eq!(v[0].bg, TermColor::Named(NamedColor::Background));
    assert_eq!(v[2].fg, TermColor::Named(NamedColor::Red));
    assert_eq!(v[3].fg, TermColor::Indexed(67));
    assert_eq!(v[4].bg, TermColor::Spec(1, 2, 3));
    assert!(v[5].inverse && !v[4].inverse);
    assert_eq!((v[7].line, v[7].col), (1, 1));
    assert_eq!(grid_chars(&v, 2, 6)[0].iter().collect::<String>(), "abcdef");
}

#[test]
fn a_line_cut_short_cannot_be_read() {
    let mut t = emulator(6, 2, "one\r\ntwo\r\nthree");
    assert!(screen_cells(t.grid()).is_some());
    let _ = t.grid_mut()[Line(-1)].shrink(3);
    assert_eq!(screen_cells(t.grid()).unwrap().len(), 12);
    t.grid_mut().scroll_display(Scroll::Top);
    assert!(screen_cells(t.grid()).is_none());
    t.grid_mut().scroll_display(Scroll::Bottom);
    let _ = t.grid_mut()[Line(1)].shrink(3);
    assert!(screen_cells(t.grid()).is_none());
    let e = TerminalElement { term: Terminal::new() };
    assert!(e.prepaint_grid(t.grid(), &Vec::new(), (0, 1)).is_none());
}

#[test]
fn the_view_follows_the_scroll() {
    let mut t = emulator(5, 2, "one\r\ntwo\r\nthree");
    t.grid_mut().scroll_display(Scroll::Top);
    let v = screen_cells(t.grid()).unwrap();
    assert_eq!(v.len(), 10);
    assert_eq!((v[0].c, v[0].line, v[5].c, v[5].line), ('o', -1, 't', 0));
}

#[test]
fn wide_characters_have_a_spacer() {
    let t = emulator(4, 1, "漢x");
    let v = screen_cells(t.grid()).unwrap();
    assert!(!v[0].wide_spacer && v[1].wide_spacer);
    assert_eq!((v[0].c, v[2].c), ('漢', 'x'));
}

#[test]
fn names_of_colours_have_their_numbers() {
    for (a, n) in [
        (Ansi::Black, NamedColor::Black),
        (Ansi::Red, NamedColor::Red),
        (Ansi::Green, NamedColor::Green),
        (Ansi::Yellow, NamedColor::Yellow),
        (Ansi::Blue, NamedColor::Blue),
        (Ansi::Magenta, NamedColor::Magenta),
        (Ansi::Cyan, NamedColor::Cyan),
        (Ansi::White, NamedColor::White),
        (Ansi::BrightBlack, NamedColor::BrightBlack),
        (Ansi::BrightRed, NamedColor::BrightRed),
        (Ansi::BrightGreen, NamedColor::BrightGreen),
        (Ansi::BrightYellow, NamedColor::BrightYellow),
        (Ansi::BrightBlue, NamedColor::BrightBlue),
        (Ansi::BrightMagenta, NamedColor::BrightMagenta),
        (Ansi::BrightCyan, NamedColor::BrightCyan),
        (Ansi::BrightWhite, NamedColor::BrightWhite),
        (Ansi::Foreground, NamedColor::Foreground),
        (Ansi::Background, NamedColor::Background),
        (Ansi::Cursor, NamedColor::Other),
        (Ansi::DimForeground, NamedColor::Other),
    ] {
        assert_eq!(named_from(a as usize), n);
    }
}

#[test]
fn programs_ask_for_the_mouse() {
    let off = emulator(4, 1, "");
    assert!(!mouse_reporting(off.mode()));
    assert_eq!(forward_mouse(off.mode(), 0, true, 1, 1), None);
    assert_eq!(turn_wheel(off.mode(), 2), WheelAction::Scroll { lines: 2 });
    for ask in ["\u{1b}[?1000h", "\u{1b}[?1002h", "\u{1b}[?1003h"] {
        let t = emulator(4, 1, ask);
        assert!(mouse_reporting(t.mode()), "{:?}", ask);
        assert_eq!(forward_mouse(t.mode(), 0, true, 1, 2), Some(vec![0x1b, b'[', b'M', 32, 33, 34]));
        assert_eq!(turn_wheel(t.mode(), -1), WheelAction::Report { button: 65, times: 1 });
    }
    let sgr = emulator(4, 1, "\u{1b}[?1000h\u{1b}[?1006h");
    assert_eq!(forward_mouse(sgr.mode(), 64, true, 3, 4), Some(b"\x1b[<64;3;4M".to_vec()));
}

#[test]
fn programs_ask_for_marked_pastes() {
    assert_eq!(paste_into(emulator(4, 1, "").mode(), "x"), b"x".to_vec());
    assert_eq!(paste_into(emulator(4, 1, "\u{1b}[?2004h").mode(), "x"), b"\x1b[200~x\x1b[201~".to_vec());
}

#[test]
fn a_frame_is_made_from_the_grid() {
    let t = emulator(5, 2, "one\r\ntwo\r\nthree");
    let mut pane = Terminal::new();
    pane.resize(5, 2);
    let e = TerminalElement { term: pane };
    let f = e.prepaint_grid(t.grid(), &Vec::new(), (0, 1)).unwrap();
    assert_eq!(f.rows.len(), 2);
    assert!(f.rows[0].text.starts_with("two") && f.rows[1].text.starts_with("three"));
    assert!(f.scrollbar);
    let hashes: Vec<u64> = f.rows.iter().map(|r| r.hash).collect();
    let again = e.prepaint_grid(t.grid(), &hashes, (0, 1)).unwrap();
    assert_eq!(again.unchanged, vec![true, true]);
}
