use vstd::prelude::*;

verus! {

/// The keys that the viewers react to.
#[derive(PartialEq, Eq, Structural, Clone, Copy, Debug)]
pub enum Key {
    Char(char),
    Up,
    Down,
    Left,
    Right,
    PageUp,
    PageDown,
    Home,
    End,
    Enter,
    Esc,
    Backspace,
    Tab,
    Other,
}

/// A key press: the key and whether Control was held.
#[derive(PartialEq, Eq, Structural, Clone, Copy, Debug)]
pub struct KeyPress {
    pub code: Key,
    pub ctrl: bool,
}

/// `q`, or `c` with Control.
pub open spec fn quits(key: KeyPress) -> bool {
    key.code == Key::Char('q') || (key.code == Key::Char('c') && key.ctrl)
}

/// Check if a key event is a quit signal (q or Ctrl-C).
pub fn is_quit(key: &KeyPress) -> (r: bool)
    ensures
        r == quits(*key),
{
    match key.code {
        Key::Char(c) => c == 'q' || (c == 'c' && key.ctrl),
        _ => false,
    }
}

/// Whether `key` is the character `c`.
pub fn is_char(key: &KeyPress, c: char) -> (r: bool)
    ensures
        r == (key.code == Key::Char(c)),
{
    match key.code {
        Key::Char(d) => d == c,
        _ => false,
    }
}

/// `a - b`, or zero when `b > a`.
pub open spec fn sat_sub(a: int, b: int) -> int {
    if a >= b {
        a - b
    } else {
        0
    }
}

/// The smaller of two integers.
pub open spec fn min_int(a: int, b: int) -> int {
    if a <= b {
        a
    } else {
        b
    }
}

} // verus!
