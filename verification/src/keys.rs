//! Keystrokes as the key handlers see them.
use vstd::prelude::*;
use crate::text::{opt_text, same};

verus! {

/// A key that was pressed, the text it would type, and the modifiers held.
#[derive(Debug)]
pub struct Keystroke {
    pub key: String,
    pub key_char: Option<String>,
    pub platform: bool,
    pub shift: bool,
    pub alt: bool,
    pub control: bool,
}

/// A keystroke as plain values.
pub ghost struct KeyView {
    pub key: Seq<char>,
    pub key_char: Option<Seq<char>>,
    pub platform: bool,
    pub shift: bool,
    pub alt: bool,
    pub control: bool,
}

impl View for Keystroke {
    type V = KeyView;

    open spec fn view(&self) -> KeyView {
        KeyView {
            key: self.key@,
            key_char: opt_text(self.key_char),
            platform: self.platform,
            shift: self.shift,
            alt: self.alt,
            control: self.control,
        }
    }
}

impl Keystroke {
    /// Whether it is the key `name`.
    pub fn is(&self, name: &str) -> (r: bool)
        ensures
            r == (self@.key == name@),
    {
        same(self.key.as_str(), name)
    }

    /// A key without modifiers.
    pub fn plain(name: &str) -> (r: Keystroke)
        ensures
            r@ == (KeyView {
                key: name@,
                key_char: None,
                platform: false,
                shift: false,
                alt: false,
                control: false,
            }),
    {
        Keystroke {
            key: name.to_owned(),
            key_char: None,
            platform: false,
            shift: false,
            alt: false,
            control: false,
        }
    }
}

/// The row a list's selection moves to on a key: up and down by one, staying in the list.
pub open spec fn list_step(key: Seq<char>, sel: int, len: int) -> int {
    if key == "up"@ {
        if sel > 0 {
            sel - 1
        } else {
            0
        }
    } else if key == "down"@ {
        down_step(sel, len)
    } else {
        sel
    }
}

/// One row down, but not past the last.
pub open spec fn down_step(sel: int, len: int) -> int {
    let last = if len > 0 {
        len - 1
    } else {
        0
    };
    if sel + 1 <= last {
        sel + 1
    } else {
        last
    }
}

/// One row down, but not past the last.
pub fn step_down(sel: usize, len: usize) -> (r: usize)
    ensures
        r == down_step(sel as int, len as int),
{
    let last: usize = if len > 0 {
        len - 1
    } else {
        0
    };
    if sel < last {
        sel + 1
    } else {
        last
    }
}

/// One row up, but not above the first.
pub fn step_up(sel: usize) -> (r: usize)
    ensures
        r == if sel > 0 {
            sel - 1
        } else {
            0
        },
{
    if sel > 0 {
        sel - 1
    } else {
        0
    }
}

/// Moving keeps a selection inside a list that is not empty.
pub proof fn moving_stays_in_the_list(key: Seq<char>, sel: int, len: int)
    requires
        0 <= sel < len,
    ensures
        0 <= list_step(key, sel, len) < len,
{
}

/// The share of `part` in `whole`, in per cent, rounded down; 0 of nothing.
pub open spec fn percent_of(part: int, whole: int) -> int {
    if whole > 0 {
        part * 100 / whole
    } else {
        0
    }
}

/// The share of `part` in `whole`, in per cent.
pub fn percent(part: usize, whole: usize) -> (r: usize)
    requires
        part <= whole,
    ensures
        r == percent_of(part as int, whole as int),
        r <= 100,
{
    if whole > 0 {
        let p: u128 = part as u128 * 100;
        let q: u128 = p / (whole as u128);
        proof {
            assert(part * 100 / (whole as int) <= 100) by (nonlinear_arith)
                requires
                    0 <= part <= whole,
                    whole > 0,
            ;
        }
        q as usize
    } else {
        0
    }
}

/// An arrow moves by one row, up to the first and down to the last, and another key not at all.
pub proof fn arrows_move_by_one(sel: int, len: int, key: Seq<char>)
    requires
        0 <= sel < len,
    ensures
        sel + 1 < len ==> list_step("down"@, sel, len) == sel + 1,
        sel + 1 == len ==> list_step("down"@, sel, len) == sel,
        sel > 0 ==> list_step("up"@, sel, len) == sel - 1,
        list_step("up"@, 0, len) == 0,
        key != "up"@ && key != "down"@ ==> list_step(key, sel, len) == sel,
        down_step(sel, len) == list_step("down"@, sel, len),
        down_step(0, 0) == 0,
{
    reveal_strlit("up");
    reveal_strlit("down");
    assert("up"@.len() == 2 && "down"@.len() == 4);
}

/// A share is between none and all, and is met from below.
pub proof fn shares_are_per_cent(part: int, whole: int)
    requires
        0 <= part <= whole,
        0 < whole,
    ensures
        0 <= percent_of(part, whole) <= 100,
        percent_of(part, whole) * whole <= part * 100 < (percent_of(part, whole) + 1) * whole,
        percent_of(whole, whole) == 100 && percent_of(0, whole) == 0 && percent_of(0, 0) == 0,
{
    vstd::arithmetic::div_mod::lemma_fundamental_div_mod(part * 100, whole);
    vstd::arithmetic::div_mod::lemma_mod_bound(part * 100, whole);
    let q = part * 100 / whole;
    assert(whole * q <= part * 100 < whole * q + whole);
    assert(whole * q == q * whole) by (nonlinear_arith);
    assert((q + 1) * whole == q * whole + whole) by (nonlinear_arith);
    assert(0 <= q <= 100) by (nonlinear_arith)
        requires
            q * whole <= part * 100,
            part * 100 < q * whole + whole,
            0 <= part <= whole,
            0 < whole,
    ;
    assert(whole * 100 / whole == 100) by (nonlinear_arith)
        requires
            0 < whole,
    ;
}

} // verus!
