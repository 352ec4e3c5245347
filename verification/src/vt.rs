//! What the terminal exchanges with the shell: keys, pastes and mouse events as bytes, and
//! the colours of its cells.
use vstd::prelude::*;
use vstd::utf8::encode_utf8;
use crate::keys::{KeyView, Keystroke};
use crate::syntax::{pack_rgb, packed};
use crate::text::{cat3, chars_of, dec, decimal};

verus! {

// ── colours ─────────────────────────────────────────────────────────────────

/// The named colours of a terminal; `Other` stands for all that have no colour of their
/// own here.
#[derive(Clone, Copy, Debug, PartialEq, Eq, Structural)]
pub enum NamedColor {
    Background,
    Foreground,
    Black,
    Red,
    Green,
    Yellow,
    Blue,
    Magenta,
    Cyan,
    White,
    BrightBlack,
    BrightRed,
    BrightGreen,
    BrightYellow,
    BrightBlue,
    BrightMagenta,
    BrightCyan,
    BrightWhite,
    Other,
}

/// The colour of a cell.
#[derive(Clone, Copy, Debug, PartialEq, Eq, Structural)]
pub enum TermColor {
    Named(NamedColor),
    Indexed(u8),
    Spec(u8, u8, u8),
}

/// The packed colour of a name.
pub open spec fn named_color(c: NamedColor) -> u32 {
    match c {
        NamedColor::Background => 0x1f1f1f,
        NamedColor::Foreground => 0xd4d4d4,
        NamedColor::Black => 0x000000,
        NamedColor::Red => 0xcd3131,
        NamedColor::Green => 0x0dbc79,
        NamedColor::Yellow => 0xe5e510,
        NamedColor::Blue => 0x2472c8,
        NamedColor::Magenta => 0xbc3fbc,
        NamedColor::Cyan => 0x11a8cd,
        NamedColor::White => 0xe5e5e5,
        NamedColor::BrightBlack => 0x666666,
        NamedColor::BrightRed => 0xf14c4c,
        NamedColor::BrightGreen => 0x23d18b,
        NamedColor::BrightYellow => 0xf5f543,
        NamedColor::BrightBlue => 0x3b8eea,
        NamedColor::BrightMagenta => 0xd670d6,
        NamedColor::BrightCyan => 0x29b8db,
        NamedColor::BrightWhite => 0xe5e5e5,
        NamedColor::Other => 0xd4d4d4,
    }
}

/// The name of one of the sixteen basic colours.
pub open spec fn basic_color(i: int) -> NamedColor {
    if i == 0 {
        NamedColor::Black
    } else if i == 1 {
        NamedColor::Red
    } else if i == 2 {
        NamedColor::Green
    } else if i == 3 {
        NamedColor::Yellow
    } else if i == 4 {
        NamedColor::Blue
    } else if i == 5 {
        NamedColor::Magenta
    } else if i == 6 {
        NamedColor::Cyan
    } else if i == 7 {
        NamedColor::White
    } else if i == 8 {
        NamedColor::BrightBlack
    } else if i == 9 {
        NamedColor::BrightRed
    } else if i == 10 {
        NamedColor::BrightGreen
    } else if i == 11 {
        NamedColor::BrightYellow
    } else if i == 12 {
        NamedColor::BrightBlue
    } else if i == 13 {
        NamedColor::BrightMagenta
    } else if i == 14 {
        NamedColor::BrightCyan
    } else {
        NamedColor::BrightWhite
    }
}

/// One step of the colour cube: dark, or 95 and 40 more for each step.
pub open spec fn cube_level(v: int) -> int {
    if v == 0 {
        0
    } else {
        55 + v * 40
    }
}

/// The packed colour of an index: the basic colours, then a cube of six levels each, then
/// a ramp of greys.
pub open spec fn indexed_color(i: u8) -> u32 {
    if i < 16 {
        named_color(basic_color(i as int))
    } else if i < 232 {
        let k = i - 16;
        packed(
            cube_level(k / 36) as u8,
            cube_level((k % 36) / 6) as u8,
            cube_level(k % 6) as u8,
        )
    } else {
        let v = (8 + (i - 232) * 10) as u8;
        packed(v, v, v)
    }
}

/// The packed colour of a cell's colour.
pub open spec fn term_color(c: TermColor) -> u32 {
    match c {
        TermColor::Named(n) => named_color(n),
        TermColor::Indexed(i) => indexed_color(i),
        TermColor::Spec(r, g, b) => packed(r, g, b),
    }
}

/// The packed colour of a name.
pub fn named_rgb(c: NamedColor) -> (r: u32)
    ensures
        r == named_color(c),
{
    match c {
        NamedColor::Background => 0x1f1f1f,
        NamedColor::Foreground => 0xd4d4d4,
        NamedColor::Black => 0x000000,
        NamedColor::Red => 0xcd3131,
        NamedColor::Green => 0x0dbc79,
        NamedColor::Yellow => 0xe5e510,
        NamedColor::Blue => 0x2472c8,
        NamedColor::Magenta => 0xbc3fbc,
        NamedColor::Cyan => 0x11a8cd,
        NamedColor::White => 0xe5e5e5,
        NamedColor::BrightBlack => 0x666666,
        NamedColor::BrightRed => 0xf14c4c,
        NamedColor::BrightGreen => 0x23d18b,
        NamedColor::BrightYellow => 0xf5f543,
        NamedColor::BrightBlue => 0x3b8eea,
        NamedColor::BrightMagenta => 0xd670d6,
        NamedColor::BrightCyan => 0x29b8db,
        NamedColor::BrightWhite => 0xe5e5e5,
        NamedColor::Other => 0xd4d4d4,
    }
}

/// The packed colour of an index.
pub fn indexed_rgb(i: u8) -> (r: u32)
    ensures
        r == indexed_color(i),
{
    if i < 16 {
        let n = match i {
            0 => NamedColor::Black,
            1 => NamedColor::Red,
            2 => NamedColor::Green,
            3 => NamedColor::Yellow,
            4 => NamedColor::Blue,
            5 => NamedColor::Magenta,
            6 => NamedColor::Cyan,
            7 => NamedColor::White,
            8 => NamedColor::BrightBlack,
            9 => NamedColor::BrightRed,
            10 => NamedColor::BrightGreen,
            11 => NamedColor::BrightYellow,
            12 => NamedColor::BrightBlue,
            13 => NamedColor::BrightMagenta,
            14 => NamedColor::BrightCyan,
            _ => NamedColor::BrightWhite,
        };
        named_rgb(n)
    } else if i < 232 {
        let k: u8 = i - 16;
        let r: u8 = level(k / 36);
        let g: u8 = level((k % 36) / 6);
        let b: u8 = level(k % 6);
        pack_rgb(r, g, b)
    } else {
        let v: u8 = 8 + (i - 232) * 10;
        pack_rgb(v, v, v)
    }
}

fn level(v: u8) -> (r: u8)
    requires
        v <= 5,
    ensures
        r == cube_level(v as int),
{
    if v == 0 {
        0
    } else {
        55 + v * 40
    }
}

/// The packed colour of a cell's colour.
pub fn color_u32(c: TermColor) -> (r: u32)
    ensures
        r == term_color(c),
{
    match c {
        TermColor::Named(n) => named_rgb(n),
        TermColor::Indexed(i) => indexed_rgb(i),
        TermColor::Spec(r, g, b) => pack_rgb(r, g, b),
    }
}

/// Every colour is one of three bytes.
pub proof fn colors_are_three_bytes(c: TermColor)
    ensures
        term_color(c) <= 0xffffff,
{
}

// ── keys ────────────────────────────────────────────────────────────────────

/// The modifiers as the terminal counts them: 1, and 1 for shift, 2 for alt, 4 for control.
pub open spec fn mod_code(k: KeyView) -> int {
    1 + (if k.shift { 1int } else { 0 }) + (if k.alt { 2int } else { 0 }) + (if k.control {
        4int
    } else {
        0
    })
}

/// The letter of a cursor key.
pub open spec fn cursor_letter(key: Seq<char>) -> Option<u8> {
    if key == "up"@ {
        Some(65u8)
    } else if key == "down"@ {
        Some(66u8)
    } else if key == "right"@ {
        Some(67u8)
    } else if key == "left"@ {
        Some(68u8)
    } else if key == "home"@ {
        Some(72u8)
    } else if key == "end"@ {
        Some(70u8)
    } else {
        None
    }
}

/// The digit of a key that ends in a tilde.
pub open spec fn tilde_digit(key: Seq<char>) -> Option<u8> {
    if key == "pageup"@ {
        Some(53u8)
    } else if key == "pagedown"@ {
        Some(54u8)
    } else if key == "delete"@ {
        Some(51u8)
    } else {
        None
    }
}

/// The number of a letter, upper or lower case, counted from 1.
pub open spec fn letter_number(c: char) -> Option<u8> {
    if 'a' <= c && c <= 'z' {
        Some((c as u32 - 96) as u8)
    } else if 'A' <= c && c <= 'Z' {
        Some((c as u32 - 64) as u8)
    } else {
        None
    }
}

/// The bytes that a key sends to the shell, or none.
pub open spec fn key_bytes(k: KeyView) -> Option<Seq<u8>> {
    let m = (48 + mod_code(k)) as u8;
    let modified = mod_code(k) > 1;
    if k.control && k.key.len() == 1 && letter_number(k.key[0]) is Some {
        Some(seq![letter_number(k.key[0])->0])
    } else if k.alt && !k.control && !k.shift && k.key == "left"@ {
        Some(seq![0x1bu8, 98u8])
    } else if k.alt && !k.control && !k.shift && k.key == "right"@ {
        Some(seq![0x1bu8, 102u8])
    } else if cursor_letter(k.key) is Some {
        let l = cursor_letter(k.key)->0;
        if modified {
            Some(seq![0x1bu8, 91u8, 49u8, 59u8, m, l])
        } else {
            Some(seq![0x1bu8, 91u8, l])
        }
    } else if tilde_digit(k.key) is Some {
        let d = tilde_digit(k.key)->0;
        if modified {
            Some(seq![0x1bu8, 91u8, d, 59u8, m, 126u8])
        } else {
            Some(seq![0x1bu8, 91u8, d, 126u8])
        }
    } else if k.key == "enter"@ {
        Some(seq![13u8])
    } else if k.key == "backspace"@ {
        Some(seq![0x7fu8])
    } else if k.key == "tab"@ {
        Some(seq![9u8])
    } else if k.key == "escape"@ {
        Some(seq![0x1bu8])
    } else {
        match k.key_char {
            Some(c) => if k.alt {
                Some(seq![0x1bu8] + encode_utf8(c))
            } else {
                Some(encode_utf8(c))
            },
            None => None,
        }
    }
}

/// The contents of an optional vector of bytes.
pub open spec fn opt_bytes(o: Option<Vec<u8>>) -> Option<Seq<u8>> {
    match o {
        Some(v) => Some(v@),
        None => None,
    }
}

fn push_str_bytes(v: &mut Vec<u8>, s: &str)
    ensures
        final(v)@ == old(v)@ + encode_utf8(s@),
{
    let b = s.as_bytes();
    let ghost base = v@;
    let mut i: usize = 0;
    assert(v@ =~= base + b@.take(0));
    while i < b.len()
        invariant
            i <= b.len(),
            v@ == base + b@.take(i as int),
        decreases b.len() - i,
    {
        v.push(b[i]);
        i = i + 1;
        assert(v@ =~= base + b@.take(i as int));
    }
    assert(b@.take(b@.len() as int) =~= b@);
}

fn cursor_key(k: &Keystroke) -> (r: Option<u8>)
    ensures
        r == cursor_letter(k@.key),
{
    if k.is("up") {
        Some(65)
    } else if k.is("down") {
        Some(66)
    } else if k.is("right") {
        Some(67)
    } else if k.is("left") {
        Some(68)
    } else if k.is("home") {
        Some(72)
    } else if k.is("end") {
        Some(70)
    } else {
        None
    }
}

fn tilde_key(k: &Keystroke) -> (r: Option<u8>)
    ensures
        r == tilde_digit(k@.key),
{
    if k.is("pageup") {
        Some(53)
    } else if k.is("pagedown") {
        Some(54)
    } else if k.is("delete") {
        Some(51)
    } else {
        None
    }
}

/// The bytes that a key sends to the shell.
pub fn keystroke_to_bytes(k: &Keystroke) -> (r: Option<Vec<u8>>)
    ensures
        opt_bytes(r) == key_bytes(k@),
{
    if k.control {
        let v = chars_of(k.key.as_str());
        if v.len() == 1 {
            let c = v[0];
            if 'a' <= c && c <= 'z' {
                let b: Vec<u8> = vec![(c as u32 - 96) as u8];
                assert(b@ =~= key_bytes(k@)->0);
                return Some(b);
            }
            if 'A' <= c && c <= 'Z' {
                let b: Vec<u8> = vec![(c as u32 - 64) as u8];
                assert(b@ =~= key_bytes(k@)->0);
                return Some(b);
            }
        }
    }
    if k.alt && !k.control && !k.shift {
        if k.is("left") {
            let b: Vec<u8> = vec![0x1b, 98];
            assert(b@ =~= key_bytes(k@)->0);
            return Some(b);
        }
        if k.is("right") {
            let b: Vec<u8> = vec![0x1b, 102];
            assert(b@ =~= key_bytes(k@)->0);
            return Some(b);
        }
    }
    let code: u8 = 1 + (if k.shift {
        1
    } else {
        0
    }) + (if k.alt {
        2
    } else {
        0
    }) + (if k.control {
        4
    } else {
        0
    });
    let m: u8 = 48 + code;
    let modified = code > 1;
    match cursor_key(k) {
        Some(l) => {
            let b: Vec<u8> = if modified {
                vec![0x1b, 91, 49, 59, m, l]
            } else {
                vec![0x1b, 91, l]
            };
            assert(b@ =~= key_bytes(k@)->0);
            return Some(b);
        },
        None => {},
    }
    match tilde_key(k) {
        Some(d) => {
            let b: Vec<u8> = if modified {
                vec![0x1b, 91, d, 59, m, 126]
            } else {
                vec![0x1b, 91, d, 126]
            };
            assert(b@ =~= key_bytes(k@)->0);
            return Some(b);
        },
        None => {},
    }
    let one: u8 = if k.is("enter") {
        13
    } else if k.is("backspace") {
        0x7f
    } else if k.is("tab") {
        9
    } else if k.is("escape") {
        0x1b
    } else {
        match &k.key_char {
            Some(c) => {
                let mut b: Vec<u8> = Vec::new();
                if k.alt {
                    b.push(0x1b);
                }
                push_str_bytes(&mut b, c.as_str());
                assert(b@ =~= key_bytes(k@)->0);
                return Some(b);
            },
            None => {
                return None;
            },
        }
    };
    let b: Vec<u8> = vec![one];
    assert(b@ =~= key_bytes(k@)->0);
    Some(b)
}

/// The bytes of a paste: between markers where the shell asked for them.
pub open spec fn paste_bytes(text: Seq<char>, bracketed: bool) -> Seq<u8> {
    if bracketed {
        seq![0x1bu8, 91u8, 50u8, 48u8, 48u8, 126u8] + encode_utf8(text) + seq![
            0x1bu8,
            91u8,
            50u8,
            48u8,
            49u8,
            126u8,
        ]
    } else {
        encode_utf8(text)
    }
}

/// The bytes of a paste, to be sent in one go.
pub fn paste(text: &str, bracketed: bool) -> (r: Vec<u8>)
    ensures
        r@ == paste_bytes(text@, bracketed),
{
    let mut v: Vec<u8> = Vec::new();
    if bracketed {
        v.push(0x1b);
        v.push(91);
        v.push(50);
        v.push(48);
        v.push(48);
        v.push(126);
        assert(v@ =~= seq![0x1bu8, 91u8, 50u8, 48u8, 48u8, 126u8]);
        push_str_bytes(&mut v, text);
        v.push(0x1b);
        v.push(91);
        v.push(50);
        v.push(48);
        v.push(49);
        v.push(126);
        assert(v@ =~= paste_bytes(text@, bracketed));
    } else {
        push_str_bytes(&mut v, text);
        assert(v@ =~= encode_utf8(text@));
    }
    v
}

// ── mouse reports ───────────────────────────────────────────────────────────

/// One mouse event in the form that lists its numbers.
pub open spec fn sgr_report(button: nat, col: nat, row: nat, pressed: bool) -> Seq<char> {
    "\x1b[<"@ + dec(button) + ";"@ + dec(col) + ";"@ + dec(row) + (if pressed {
        "M"@
    } else {
        "m"@
    })
}

/// A coordinate in the old form: 32 more, at most 255.
pub open spec fn x10_coord(n: nat) -> u8 {
    if n + 32 <= 255 {
        (n + 32) as u8
    } else {
        255
    }
}

/// One mouse event in the old form of six bytes; a release names no button.
pub open spec fn x10_report(button: u8, col: nat, row: nat, pressed: bool) -> Seq<u8> {
    seq![
        0x1bu8,
        91u8,
        77u8,
        if pressed {
            ((button + 32) % 256) as u8
        } else {
            35
        },
        x10_coord(col),
        x10_coord(row),
    ]
}

/// The bytes of a mouse event for a program that wants them; none for one that does not.
/// Columns and rows count from 1.
pub open spec fn mouse_bytes(
    report: bool,
    sgr: bool,
    button: u8,
    pressed: bool,
    col: nat,
    row: nat,
) -> Option<Seq<u8>> {
    if !report {
        None
    } else if sgr {
        Some(encode_utf8(sgr_report(button as nat, col, row, pressed)))
    } else {
        Some(x10_report(button, col, row, pressed))
    }
}

/// The bytes of a mouse event.
pub fn mouse_report(report: bool, sgr: bool, button: u8, pressed: bool, col: u64, row: u64) -> (r: Option<
    Vec<u8>,
>)
    ensures
        opt_bytes(r) == mouse_bytes(report, sgr, button, pressed, col as nat, row as nat),
{
    if !report {
        return None;
    }
    if sgr {
        let b = decimal(button as u64);
        let c = decimal(col);
        let w = decimal(row);
        let s = cat3("\x1b[<", b.as_str(), ";");
        let s = cat3(s.as_str(), c.as_str(), ";");
        let s = cat3(
            s.as_str(),
            w.as_str(),
            if pressed {
                "M"
            } else {
                "m"
            },
        );
        let mut v: Vec<u8> = Vec::new();
        push_str_bytes(&mut v, s.as_str());
        assert(v@ =~= encode_utf8(s@));
        Some(v)
    } else {
        let cb: u8 = if pressed {
            button.wrapping_add(32)
        } else {
            35
        };
        let cx: u8 = if col <= 223 {
            (col + 32) as u8
        } else {
            255
        };
        let cy: u8 = if row <= 223 {
            (row + 32) as u8
        } else {
            255
        };
        let v: Vec<u8> = vec![0x1b, 91, 77, cb, cx, cy];
        assert(v@ =~= x10_report(button, col as nat, row as nat, pressed));
        Some(v)
    }
}

/// What the wheel does: nothing yet, reports to the program, or scrolling the history.
#[derive(Clone, Copy, Debug, PartialEq, Eq, Structural)]
pub enum WheelAction {
    Nothing,
    Report { button: u8, times: u32 },
    Scroll { lines: i32 },
}

/// A whole number of lines up or down: a program that wants the mouse gets at most five
/// reports, else the history is scrolled.
pub open spec fn wheel_of(lines: i32, report: bool) -> WheelAction {
    if lines == 0 {
        WheelAction::Nothing
    } else if report {
        let n = if lines > 0 {
            lines as int
        } else {
            -lines
        };
        WheelAction::Report {
            button: if lines > 0 {
                64
            } else {
                65
            },
            times: if n <= 5 {
                n as u32
            } else {
                5
            },
        }
    } else {
        WheelAction::Scroll { lines }
    }
}

/// What the wheel does.
pub fn wheel(lines: i32, report: bool) -> (r: WheelAction)
    ensures
        r == wheel_of(lines, report),
{
    if lines == 0 {
        WheelAction::Nothing
    } else if report {
        if lines > 0 {
            WheelAction::Report {
                button: 64,
                times: if lines <= 5 {
                    lines as u32
                } else {
                    5
                },
            }
        } else {
            WheelAction::Report {
                button: 65,
                times: if lines >= -5 {
                    (-lines) as u32
                } else {
                    5
                },
            }
        }
    } else {
        WheelAction::Scroll { lines }
    }
}

/// The events of the terminal emulator that matter here.
#[derive(Clone, Copy, Debug, PartialEq, Eq, Structural)]
pub enum ProxyEvent {
    PtyWrite,
    Wakeup,
    MouseCursorDirty,
    Other,
}

/// What such an event leads to.
#[derive(Clone, Copy, Debug, PartialEq, Eq, Structural)]
pub enum ProxyAction {
    WriteBack,
    MarkDirty,
    Ignore,
}

/// An answer goes to the shell; what changes the screen marks it for painting.
pub fn proxy_action(e: ProxyEvent) -> (r: ProxyAction)
    ensures
        r == match e {
            ProxyEvent::PtyWrite => ProxyAction::WriteBack,
            ProxyEvent::Wakeup | ProxyEvent::MouseCursorDirty => ProxyAction::MarkDirty,
            ProxyEvent::Other => ProxyAction::Ignore,
        },
{
    match e {
        ProxyEvent::PtyWrite => ProxyAction::WriteBack,
        ProxyEvent::Wakeup | ProxyEvent::MouseCursorDirty => ProxyAction::MarkDirty,
        ProxyEvent::Other => ProxyAction::Ignore,
    }
}

// ── what keys and the mouse send ────────────────────────────────────────────

/// Whether a key comes alone: without shift, alt and control.
pub open spec fn unmodified(k: KeyView) -> bool {
    !k.shift && !k.alt && !k.control
}

/// The digit by which a terminal tells modifiers: 2 for shift, 3 for alt, 5 for control, and their
/// sums.
pub open spec fn modifier_digit(shift: bool, alt: bool, control: bool) -> u8 {
    match (shift, alt, control) {
        (true, false, false) => 50,
        (false, true, false) => 51,
        (true, true, false) => 52,
        (false, false, true) => 53,
        (true, false, true) => 54,
        (false, true, true) => 55,
        (true, true, true) => 56,
        (false, false, false) => 49,
    }
}

proof fn lemma_key_names()
    ensures
        "up"@ == seq!['u', 'p'],
        "down"@ == seq!['d', 'o', 'w', 'n'],
        "right"@ == seq!['r', 'i', 'g', 'h', 't'],
        "left"@ == seq!['l', 'e', 'f', 't'],
        "home"@ == seq!['h', 'o', 'm', 'e'],
        "end"@ == seq!['e', 'n', 'd'],
        "pageup"@ == seq!['p', 'a', 'g', 'e', 'u', 'p'],
        "pagedown"@ == seq!['p', 'a', 'g', 'e', 'd', 'o', 'w', 'n'],
        "delete"@ == seq!['d', 'e', 'l', 'e', 't', 'e'],
        "enter"@ == seq!['e', 'n', 't', 'e', 'r'],
        "backspace"@ == seq!['b', 'a', 'c', 'k', 's', 'p', 'a', 'c', 'e'],
        "tab"@ == seq!['t', 'a', 'b'],
        "escape"@ == seq!['e', 's', 'c', 'a', 'p', 'e'],
{
    reveal_strlit("up");
    reveal_strlit("down");
    reveal_strlit("right");
    reveal_strlit("left");
    reveal_strlit("home");
    reveal_strlit("end");
    reveal_strlit("pageup");
    reveal_strlit("pagedown");
    reveal_strlit("delete");
    reveal_strlit("enter");
    reveal_strlit("backspace");
    reveal_strlit("tab");
    reveal_strlit("escape");
    assert("up"@ =~= seq!['u', 'p']);
    assert("down"@ =~= seq!['d', 'o', 'w', 'n']);
    assert("right"@ =~= seq!['r', 'i', 'g', 'h', 't']);
    assert("left"@ =~= seq!['l', 'e', 'f', 't']);
    assert("home"@ =~= seq!['h', 'o', 'm', 'e']);
    assert("end"@ =~= seq!['e', 'n', 'd']);
    assert("pageup"@ =~= seq!['p', 'a', 'g', 'e', 'u', 'p']);
    assert("pagedown"@ =~= seq!['p', 'a', 'g', 'e', 'd', 'o', 'w', 'n']);
    assert("delete"@ =~= seq!['d', 'e', 'l', 'e', 't', 'e']);
    assert("enter"@ =~= seq!['e', 'n', 't', 'e', 'r']);
    assert("backspace"@ =~= seq!['b', 'a', 'c', 'k', 's', 'p', 'a', 'c', 'e']);
    assert("tab"@ =~= seq!['t', 'a', 'b']);
    assert("escape"@ =~= seq!['e', 's', 'c', 'a', 'p', 'e']);
}

/// Cursor keys and the keys beside them send the sequences that programs know from xterm: an
/// escape, a bracket and the letter of the key, or its number and a tilde; with modifiers their
/// digit stands in between.
pub proof fn cursor_keys_send_xterm_sequences(k: KeyView)
    ensures
        unmodified(k) && k.key == "up"@ ==> key_bytes(k) == Some(seq![0x1bu8, 0x5b, 0x41]),
        unmodified(k) && k.key == "down"@ ==> key_bytes(k) == Some(seq![0x1bu8, 0x5b, 0x42]),
        unmodified(k) && k.key == "right"@ ==> key_bytes(k) == Some(seq![0x1bu8, 0x5b, 0x43]),
        unmodified(k) && k.key == "left"@ ==> key_bytes(k) == Some(seq![0x1bu8, 0x5b, 0x44]),
        unmodified(k) && k.key == "home"@ ==> key_bytes(k) == Some(seq![0x1bu8, 0x5b, 0x48]),
        unmodified(k) && k.key == "end"@ ==> key_bytes(k) == Some(seq![0x1bu8, 0x5b, 0x46]),
        unmodified(k) && k.key == "pageup"@ ==> key_bytes(k) == Some(seq![0x1bu8, 0x5b, 0x35, 0x7e]),
        unmodified(k) && k.key == "pagedown"@ ==> key_bytes(k) == Some(seq![0x1bu8, 0x5b, 0x36, 0x7e]),
        unmodified(k) && k.key == "delete"@ ==> key_bytes(k) == Some(seq![0x1bu8, 0x5b, 0x33, 0x7e]),
        ({
            let m = modifier_digit(k.shift, k.alt, k.control);
            !unmodified(k) ==> {
                &&& k.key == "up"@ ==> key_bytes(k) == Some(seq![0x1bu8, 0x5b, 0x31, 0x3b, m, 0x41])
                &&& k.key == "down"@ ==> key_bytes(k) == Some(seq![0x1bu8, 0x5b, 0x31, 0x3b, m, 0x42])
                &&& k.key == "right"@ && (k.shift || k.control) ==> key_bytes(k) == Some(seq![0x1bu8, 0x5b, 0x31, 0x3b, m, 0x43])
                &&& k.key == "left"@ && (k.shift || k.control) ==> key_bytes(k) == Some(seq![0x1bu8, 0x5b, 0x31, 0x3b, m, 0x44])
                &&& k.key == "home"@ ==> key_bytes(k) == Some(seq![0x1bu8, 0x5b, 0x31, 0x3b, m, 0x48])
                &&& k.key == "end"@ ==> key_bytes(k) == Some(seq![0x1bu8, 0x5b, 0x31, 0x3b, m, 0x46])
                &&& k.key == "pageup"@ ==> key_bytes(k) == Some(seq![0x1bu8, 0x5b, 0x35, 0x3b, m, 0x7e])
                &&& k.key == "pagedown"@ ==> key_bytes(k) == Some(seq![0x1bu8, 0x5b, 0x36, 0x3b, m, 0x7e])
                &&& k.key == "delete"@ ==> key_bytes(k) == Some(seq![0x1bu8, 0x5b, 0x33, 0x3b, m, 0x7e])
            }
        }),
        k.alt && !k.shift && !k.control && k.key == "left"@ ==> key_bytes(k) == Some(seq![0x1bu8, 0x62]),
        k.alt && !k.shift && !k.control && k.key == "right"@ ==> key_bytes(k) == Some(seq![0x1bu8, 0x66]),
{
    lemma_key_names();
    assert(k.key.len() == 1 ==> k.key != "up"@);
}

/// Enter sends a carriage return, backspace a delete, tab a tab and escape an escape; control with
/// a letter sends the number of the letter, whichever case it has; what else is typed is sent as
/// UTF-8, behind an escape where alt is held, and a key that types nothing sends nothing.
pub proof fn typed_keys_send_their_text(k: KeyView)
    ensures
        k.key == "enter"@ ==> key_bytes(k) == Some(seq![0x0du8]),
        k.key == "backspace"@ ==> key_bytes(k) == Some(seq![0x7fu8]),
        k.key == "tab"@ ==> key_bytes(k) == Some(seq![0x09u8]),
        k.key == "escape"@ ==> key_bytes(k) == Some(seq![0x1bu8]),
        k.control && k.key.len() == 1 && 'a' <= k.key[0] <= 'z' ==> key_bytes(k) == Some(seq![(k.key[0] as u32 - 'a' as u32 + 1) as u8]),
        k.control && k.key.len() == 1 && 'A' <= k.key[0] <= 'Z' ==> key_bytes(k) == Some(seq![(k.key[0] as u32 - 'A' as u32 + 1) as u8]),
        k.key.len() == 1 && !k.control && k.key_char is Some && !k.alt ==> key_bytes(k) == Some(encode_utf8(k.key_char->0)),
        k.key.len() == 1 && !k.control && k.key_char is Some && k.alt ==> key_bytes(k) == Some(seq![0x1bu8] + encode_utf8(k.key_char->0)),
        k.key.len() == 1 && !k.control && k.key_char is None ==> key_bytes(k) is None,
{
    lemma_key_names();
}

/// A paste is the text as UTF-8, between the markers ESC[200~ and ESC[201~ where they were asked
/// for.
pub proof fn pastes_are_the_text(text: Seq<char>)
    ensures
        paste_bytes(text, false) == encode_utf8(text),
        paste_bytes(text, true) == seq![0x1bu8, 0x5b, 0x32, 0x30, 0x30, 0x7e] + paste_bytes(text, false) + seq![0x1bu8, 0x5b, 0x32, 0x30, 0x31, 0x7e],
{
}

/// A program is told of the mouse only where it wants to be. The newer form writes the button, the
/// column and the row in decimal and tells a press from a release by its last letter; the older one
/// adds 32 to each.
pub proof fn mouse_reports_name_button_and_place(sgr: bool, button: u8, pressed: bool, col: nat, row: nat)
    ensures
        mouse_bytes(false, sgr, button, pressed, col, row) is None,
        mouse_bytes(true, true, button, true, col, row) == Some(
            encode_utf8("\x1b[<"@ + dec(button as nat) + ";"@ + dec(col) + ";"@ + dec(row) + "M"@),
        ),
        mouse_bytes(true, true, button, false, col, row) == Some(
            encode_utf8("\x1b[<"@ + dec(button as nat) + ";"@ + dec(col) + ";"@ + dec(row) + "m"@),
        ),
        button <= 223 && col <= 223 && row <= 223 ==> mouse_bytes(true, false, button, true, col, row) == Some(
            seq![0x1bu8, 0x5b, 0x4d, (button + 32) as u8, (col + 32) as u8, (row + 32) as u8],
        ),
        button <= 223 && col <= 223 && row <= 223 ==> mouse_bytes(true, false, button, false, col, row) == Some(
            seq![0x1bu8, 0x5b, 0x4d, 35u8, (col + 32) as u8, (row + 32) as u8],
        ),
{
}

/// The wheel scrolls by as many lines as it was turned, or tells the program, upwards as button 64
/// and downwards as 65, once for each line and at most five times; unturned it does nothing.
pub proof fn the_wheel_scrolls_or_reports(lines: i32)
    ensures
        lines != 0 ==> wheel_of(lines, false) == (WheelAction::Scroll { lines }),
        1 <= lines <= 5 ==> wheel_of(lines, true) == (WheelAction::Report { button: 64, times: lines as u32 }),
        -5 <= lines <= -1 ==> wheel_of(lines, true) == (WheelAction::Report { button: 65, times: (-lines) as u32 }),
        lines > 5 ==> wheel_of(lines, true) == (WheelAction::Report { button: 64, times: 5 }),
        lines < -5 ==> wheel_of(lines, true) == (WheelAction::Report { button: 65, times: 5 }),
        wheel_of(0, true) == WheelAction::Nothing && wheel_of(0, false) == WheelAction::Nothing,
{
}

/// The red, green and blue part of a packed colour.
pub open spec fn parts_of(c: u32) -> (int, int, int) {
    (c as int / 65536, c as int / 256 % 256, c as int % 256)
}

proof fn lemma_packed_parts(r: u8, g: u8, b: u8)
    ensures
        parts_of(packed(r, g, b)) == (r as int, g as int, b as int),
{
    let c = r * 65536 + g * 256 + b;
    assert(c / 65536 == r);
    assert(c / 256 == r * 256 + g);
    assert((r * 256 + g) % 256 == g);
    assert(c % 256 == b);
}

/// A colour that is given by its parts has those parts.
pub proof fn colours_have_their_parts(r: u8, g: u8, b: u8)
    ensures
        parts_of(term_color(TermColor::Spec(r, g, b))) == (r as int, g as int, b as int),
{
    lemma_packed_parts(r, g, b);
}

/// One of the six levels of a colour cube: none, or from 95 in steps of 40.
pub open spec fn level_of(x: int) -> int {
    if x == 0 {
        0
    } else {
        95 + 40 * (x - 1)
    }
}

/// Behind the sixteen basic colours come a cube of six levels of red, green and blue, blue going
/// fastest, then greys from dark to light.
pub proof fn indexed_colours_are_a_cube_and_greys(x: int, y: int, z: int, w: int)
    requires
        0 <= x < 6,
        0 <= y < 6,
        0 <= z < 6,
        0 <= w < 24,
    ensures
        parts_of(term_color(TermColor::Indexed((16 + 36 * x + 6 * y + z) as u8))) == (level_of(x), level_of(y), level_of(z)),
        parts_of(term_color(TermColor::Indexed((232 + w) as u8))) == (8 + 10 * w, 8 + 10 * w, 8 + 10 * w),
{
    let i = (16 + 36 * x + 6 * y + z) as u8;
    let k = i - 16;
    assert(k / 36 == x && (k % 36) / 6 == y && k % 6 == z);
    lemma_packed_parts(cube_level(x) as u8, cube_level(y) as u8, cube_level(z) as u8);
    let v = (8 + 10 * w) as u8;
    lemma_packed_parts(v, v, v);
}

/// The sixteen basic colours go by their number, and a bright one is told from its plain one by 8.
pub proof fn basic_colours_go_by_number(i: u8)
    requires
        i < 16,
    ensures
        term_color(TermColor::Indexed(0)) == term_color(TermColor::Named(NamedColor::Black)),
        term_color(TermColor::Indexed(1)) == term_color(TermColor::Named(NamedColor::Red)),
        term_color(TermColor::Indexed(2)) == term_color(TermColor::Named(NamedColor::Green)),
        term_color(TermColor::Indexed(3)) == term_color(TermColor::Named(NamedColor::Yellow)),
        term_color(TermColor::Indexed(4)) == term_color(TermColor::Named(NamedColor::Blue)),
        term_color(TermColor::Indexed(5)) == term_color(TermColor::Named(NamedColor::Magenta)),
        term_color(TermColor::Indexed(6)) == term_color(TermColor::Named(NamedColor::Cyan)),
        term_color(TermColor::Indexed(7)) == term_color(TermColor::Named(NamedColor::White)),
        term_color(TermColor::Indexed(8)) == term_color(TermColor::Named(NamedColor::BrightBlack)),
        term_color(TermColor::Indexed(9)) == term_color(TermColor::Named(NamedColor::BrightRed)),
        term_color(TermColor::Indexed(10)) == term_color(TermColor::Named(NamedColor::BrightGreen)),
        term_color(TermColor::Indexed(11)) == term_color(TermColor::Named(NamedColor::BrightYellow)),
        term_color(TermColor::Indexed(12)) == term_color(TermColor::Named(NamedColor::BrightBlue)),
        term_color(TermColor::Indexed(13)) == term_color(TermColor::Named(NamedColor::BrightMagenta)),
        term_color(TermColor::Indexed(14)) == term_color(TermColor::Named(NamedColor::BrightCyan)),
        term_color(TermColor::Indexed(15)) == term_color(TermColor::Named(NamedColor::BrightWhite)),
        term_color(TermColor::Named(NamedColor::Red)) == 0xcd3131 && term_color(TermColor::Named(NamedColor::Green)) == 0x0dbc79,
        term_color(TermColor::Named(NamedColor::Blue)) == 0x2472c8 && term_color(TermColor::Named(NamedColor::Yellow)) == 0xe5e510,
        term_color(TermColor::Named(NamedColor::Magenta)) == 0xbc3fbc && term_color(TermColor::Named(NamedColor::Cyan)) == 0x11a8cd,
        term_color(TermColor::Named(NamedColor::Black)) == 0 && term_color(TermColor::Named(NamedColor::White)) == 0xe5e5e5,
        term_color(TermColor::Named(NamedColor::Foreground)) == 0xd4d4d4 && term_color(TermColor::Named(NamedColor::Background)) == 0x1f1f1f,
{
}

} // verus!
