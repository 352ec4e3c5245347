use tide::frame::{build_rows, glyph_quads, unchanged_rows, Side, Stroke, TerminalElement};
use tide::keys::Keystroke;
use tide::term::{
    extract_selection, grid_chars, word_at, Button, KeyAction, MouseAction, Sel, TermCell, Terminal,
};
use tide::vt::{
    color_u32, indexed_rgb, keystroke_to_bytes, mouse_report, named_rgb, paste, proxy_action, wheel, NamedColor,
    ProxyAction, ProxyEvent, TermColor, WheelAction,
};

fn key(name: &str, text: Option<&str>, mods: &str) -> Keystroke {
    let mut k = Keystroke::plain(name);
    k.key_char = text.map(|s| s.to_string());
    k.platform = mods.contains('p');
    k.shift = mods.contains('s');
    k.alt = mods.contains('a');
    k.control = mods.contains('c');
    k
}

fn bytes(name: &str, text: Option<&str>, mods: &str) -> Option<Vec<u8>> {
    keystroke_to_bytes(&key(name, text, mods))
}

fn cells(rows: &[&str]) -> Vec<TermCell> {
    let mut v = Vec::new();
    for (i, r) in rows.iter().enumerate() {
        for (j, c) in r.chars().enumerate() {
            v.push(TermCell {
                line: i as i32,
                col: j,
                c,
                fg: TermColor::Named(NamedColor::Foreground),
                bg: TermColor::Named(NamedColor::Background),
                wide_spacer: false,
                inverse: false,
            });
        }
    }
    v
}

#[test]
fn keys_become_the_bytes_of_a_terminal() {
    let b = |s: &str| Some(s.as_bytes().to_vec());
    assert_eq!(bytes("c", None, "c"), Some(vec![3]));
    assert_eq!(bytes("Z", None, "c"), Some(vec![26]));
    assert_eq!(bytes("left", None, "a"), b("\u{1b}b"));
    assert_eq!(bytes("right", None, "a"), b("\u{1b}f"));
    assert_eq!(bytes("up", None, ""), b("\u{1b}[A"));
    assert_eq!(bytes("left", None, "sa"), b("\u{1b}[1;4D"));
    assert_eq!(bytes("end", None, "sac"), b("\u{1b}[1;8F"));
    assert_eq!(bytes("home", None, "c"), b("\u{1b}[1;5H"));
    assert_eq!(bytes("pageup", None, ""), b("\u{1b}[5~"));
    assert_eq!(bytes("delete", None, "s"), b("\u{1b}[3;2~"));
    assert_eq!(bytes("pagedown", None, "a"), b("\u{1b}[6;3~"));
    assert_eq!(bytes("enter", None, ""), b("\r"));
    assert_eq!(bytes("backspace", None, ""), b("\u{7f}"));
    assert_eq!(bytes("tab", None, ""), b("\t"));
    assert_eq!(bytes("escape", None, ""), b("\u{1b}"));
    assert_eq!(bytes("e", Some("é"), ""), b("é"));
    assert_eq!(bytes("e", Some("é"), "a"), b("\u{1b}é"));
    assert_eq!(bytes("f5", None, ""), None);
    assert_eq!(bytes("1", Some("1"), "c"), b("1"));
}

#[test]
fn a_paste_is_marked_where_the_program_asks() {
    assert_eq!(paste("aé", false), "aé".as_bytes().to_vec());
    assert_eq!(paste("a", true), b"\x1b[200~a\x1b[201~".to_vec());
}

#[test]
fn the_mouse_is_reported_in_both_forms() {
    assert_eq!(mouse_report(false, true, 0, true, 1, 1), None);
    assert_eq!(mouse_report(true, true, 0, true, 12, 3), Some(b"\x1b[<0;12;3M".to_vec()));
    assert_eq!(mouse_report(true, true, 2, false, 12, 3), Some(b"\x1b[<2;12;3m".to_vec()));
    assert_eq!(mouse_report(true, false, 1, true, 1, 2), Some(vec![0x1b, b'[', b'M', 33, 33, 34]));
    assert_eq!(mouse_report(true, false, 1, false, 1, 2), Some(vec![0x1b, b'[', b'M', 35, 33, 34]));
    assert_eq!(mouse_report(true, false, 240, true, 1, 2), Some(vec![0x1b, b'[', b'M', 16, 33, 34]));
    assert_eq!(mouse_report(true, false, 0, true, 500, 2), Some(vec![0x1b, b'[', b'M', 32, 255, 34]));
}

#[test]
fn the_wheel_scrolls_or_reports() {
    assert_eq!(wheel(0, true), WheelAction::Nothing);
    assert_eq!(wheel(3, true), WheelAction::Report { button: 64, times: 3 });
    assert_eq!(wheel(-9, true), WheelAction::Report { button: 65, times: 5 });
    assert_eq!(wheel(-2, false), WheelAction::Scroll { lines: -2 });
    assert_eq!(wheel(i32::MIN, true), WheelAction::Report { button: 65, times: 5 });
}

#[test]
fn the_terminals_events_are_answered() {
    assert_eq!(proxy_action(ProxyEvent::PtyWrite), ProxyAction::WriteBack);
    assert_eq!(proxy_action(ProxyEvent::Wakeup), ProxyAction::MarkDirty);
    assert_eq!(proxy_action(ProxyEvent::MouseCursorDirty), ProxyAction::MarkDirty);
    assert_eq!(proxy_action(ProxyEvent::Other), ProxyAction::Ignore);
}

#[test]
fn colours_are_those_of_the_palette() {
    assert_eq!(named_rgb(NamedColor::Background), 0x1f1f1f);
    assert_eq!(named_rgb(NamedColor::BrightCyan), 0x29b8db);
    assert_eq!(named_rgb(NamedColor::Other), 0xd4d4d4);
    assert_eq!(indexed_rgb(1), 0xcd3131);
    assert_eq!(indexed_rgb(15), 0xe5e5e5);
    assert_eq!(indexed_rgb(16), 0x000000);
    assert_eq!(indexed_rgb(231), 0xffffff);
    assert_eq!(indexed_rgb(67), 0x5f87af);
    assert_eq!(indexed_rgb(232), 0x080808);
    assert_eq!(indexed_rgb(255), 0xeeeeee);
    assert_eq!(color_u32(TermColor::Spec(1, 2, 3)), 0x010203);
    for i in 0..=255u8 {
        assert!(color_u32(TermColor::Indexed(i)) <= 0xffffff);
    }
}

#[test]
fn the_grid_fills_gaps_with_blanks() {
    let g = grid_chars(&cells(&["ab", "c"]), 3, 3);
    assert_eq!(g, vec![vec!['a', 'b', ' '], vec!['c', ' ', ' '], vec![' ', ' ', ' ']]);
}

#[test]
fn a_selection_gives_its_lines() {
    let g = grid_chars(&cells(&["hello   ", "world", ""]), 3, 8);
    let sel = |a: (usize, usize), b: (usize, usize)| Sel { anchor: a, head: b };
    assert_eq!(extract_selection(&g, sel((0, 1), (0, 3)), 8), "ell");
    let down = extract_selection(&g, sel((0, 3), (1, 1)), 8);
    let up = extract_selection(&g, sel((1, 1), (0, 3)), 8);
    assert_eq!(down, "lo\nwo");
    assert_eq!(down, up);
    assert_eq!(extract_selection(&g, sel((0, 0), (2, 7)), 8), "hello\nworld");
}

#[test]
fn a_double_click_takes_a_word() {
    let t: Vec<char> = "ls src/main.rs -l".chars().collect();
    let w = word_at(&t, 5).unwrap();
    let word: String = t[w.0..w.1].iter().collect();
    assert_eq!(word, "src/main.rs");
    assert_eq!(word_at(&t, 2), None);
}

#[test]
fn keys_in_a_terminal() {
    let c = cells(&["hello"]);
    let mut t = Terminal::new();
    t.resize(5, 1);
    assert!(matches!(t.on_key(&key("c", None, "p"), &c), KeyAction::Nothing));
    assert!(matches!(t.on_key(&key("a", None, "p"), &c), KeyAction::Selected));
    match t.on_key(&key("c", None, "p"), &c) {
        KeyAction::Copy(s) => assert_eq!(s, "hello"),
        other => panic!("{:?}", other),
    }
    assert!(matches!(t.on_key(&key("v", None, "p"), &c), KeyAction::Paste));
    assert!(t.selection.is_none());
    match t.on_key(&key("x", Some("x"), ""), &c) {
        KeyAction::Send(b) => assert_eq!(b, b"x"),
        other => panic!("{:?}", other),
    }
    assert_eq!(t.send_text("ls\n"), b"ls\n".to_vec());
}

#[test]
fn a_click_is_passed_on_and_a_drag_selects() {
    let c = cells(&["hello"]);
    let mut t = Terminal::new();
    t.resize(5, 1);
    assert!(matches!(t.on_mouse_down(Button::Left, 1, &c, 1, 0), MouseAction::Selected));
    assert!(matches!(t.on_release(&c, true), MouseAction::Click));
    t.on_mouse_down(Button::Left, 1, &c, 1, 0);
    assert!(t.on_drag(true, 3, 0));
    t.on_release(&c, true);
    assert_eq!(t.sel_text.as_deref(), Some("ell"));
    assert!(matches!(t.on_mouse_down(Button::Right, 1, &c, 0, 0), MouseAction::Forward(2)));
    assert!(t.selection.is_none());
    t.on_mouse_down(Button::Left, 2, &c, 1, 0);
    assert_eq!(t.selected(&c).as_deref(), Some("hello"));
}

#[test]
fn a_size_is_taken_once() {
    let mut t = Terminal::new();
    assert!(t.resize(100, 30));
    assert!(!t.resize(100, 30));
    assert_eq!((t.cols, t.rows), (100, 30));
}

#[test]
fn boxes_are_drawn_by_strokes() {
    assert_eq!(glyph_quads('─'), Some(vec![Stroke::HFull]));
    assert_eq!(glyph_quads('╭'), Some(vec![Stroke::HRight, Stroke::VBottom]));
    assert_eq!(glyph_quads('┤'), Some(vec![Stroke::VFull, Stroke::HLeft]));
    assert_eq!(glyph_quads('a'), None);
    assert_eq!(glyph_quads('\u{24ff}'), None);
    assert_eq!(glyph_quads('\u{25a0}'), None);
    for n in 0x2500..=0x259fu32 {
        let c = char::from_u32(n).unwrap();
        assert!(!glyph_quads(c).unwrap().is_empty(), "{}", c);
    }
    let lane = |side: Side, second: bool| Stroke::Lane { side, second };
    assert_eq!(
        glyph_quads('═'),
        Some(vec![lane(Side::Left, false), lane(Side::Left, true), lane(Side::Right, false), lane(Side::Right, true)])
    );
    assert_eq!(
        glyph_quads('╒'),
        Some(vec![Stroke::VBottom, lane(Side::Right, false), lane(Side::Right, true)])
    );
    assert_eq!(glyph_quads('╫').unwrap()[0], Stroke::HFull);
    assert_eq!(glyph_quads('╿'), Some(vec![Stroke::VFull]));
    assert_eq!(glyph_quads('╸'), Some(vec![Stroke::HLeft]));
    assert_eq!(
        glyph_quads('╌'),
        Some(vec![Stroke::HPart { from: 1, to: 3, of: 8 }, Stroke::HPart { from: 5, to: 7, of: 8 }])
    );
    assert_eq!(glyph_quads('┊').unwrap().len(), 4);
    assert_eq!(glyph_quads('╳').unwrap().len(), 16);
    assert_eq!(glyph_quads('▂'), Some(vec![Stroke::Block { x: 0, y: 6, w: 8, h: 2 }]));
    assert_eq!(glyph_quads('▎'), Some(vec![Stroke::Block { x: 0, y: 0, w: 2, h: 8 }]));
    assert_eq!(glyph_quads('▐'), Some(vec![Stroke::Block { x: 4, y: 0, w: 4, h: 8 }]));
    assert_eq!(glyph_quads('▒'), Some(vec![Stroke::Shade(2)]));
}

#[test]
fn rows_are_built_and_reused() {
    let rows = build_rows(&cells(&["ab", "cd"]));
    assert_eq!(rows.len(), 2);
    assert_eq!((rows[0].line, rows[1].line), (0, 1));
    assert!(rows[0].text.starts_with("ab"));
    for r in &rows {
        let sum: usize = r.runs.iter().map(|x| x.0).sum();
        assert_eq!(sum, r.text.len());
    }
    let hashes: Vec<u64> = rows.iter().map(|r| r.hash).collect();
    let again = build_rows(&cells(&["ab", "ce"]));
    let same = unchanged_rows(&hashes, &again);
    assert!(same[0]);
}

#[test]
fn a_frame_of_a_terminal_is_prepared() {
    let mut t = Terminal::new();
    t.resize(4, 1);
    let c = cells(&["a─b"]);
    let e = TerminalElement { term: t };
    let p = e.prepaint(&c, &Vec::new(), (1, 0), 0);
    assert_eq!(p.rows.len(), 1);
    assert_eq!(p.unchanged, vec![false]);
    assert_eq!(p.decorations.len(), 1);
    assert_eq!((p.decorations[0].c, p.decorations[0].col), ('─', 1));
    assert!(!p.scrollbar);
    assert!(p.bgs.is_empty());
}
