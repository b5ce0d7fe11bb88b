//! Terminal input as plain values: the keys and mouse actions that the
//! interactive components react to.
use vstd::prelude::*;

verus! {

/// A pressed key.
#[derive(Debug, Clone, Copy, PartialEq, Eq, Structural)]
pub enum Key {
    /// A character key.
    Char(char),
    /// `Enter`.
    Enter,
    /// `Esc`.
    Esc,
    /// `Backspace`.
    Backspace,
    /// `Tab`.
    Tab,
    /// `Shift+Tab`.
    BackTab,
    /// Arrow up.
    Up,
    /// Arrow down.
    Down,
    /// Arrow left.
    Left,
    /// Arrow right.
    Right,
    /// `PageUp`.
    PageUp,
    /// `PageDown`.
    PageDown,
    /// `Home`.
    Home,
    /// `End`.
    End,
    /// Any other key.
    Other,
}

/// What a mouse event did.
#[derive(Debug, Clone, Copy, PartialEq, Eq, Structural)]
pub enum MouseKind {
    /// The left button went down.
    LeftDown,
    /// The wheel scrolled up.
    ScrollUp,
    /// The wheel scrolled down.
    ScrollDown,
    /// Anything else (other buttons, drags, moves, releases).
    Other,
}

/// A mouse event at a cell position.
#[derive(Debug, Clone, Copy, PartialEq, Eq, Structural)]
pub struct Mouse {
    /// What happened.
    pub kind: MouseKind,
    /// Cell column.
    pub column: u16,
    /// Cell row.
    pub row: u16,
}

/// One terminal event.
#[derive(Debug, Clone, Copy, PartialEq, Eq, Structural)]
pub enum InputEvent {
    /// A key press.
    Key(Key),
    /// A mouse event.
    Mouse(Mouse),
    /// Anything else (key releases and repeats, resizes, focus, paste).
    Other,
}

/// A rectangle of terminal cells.
#[derive(Debug, Clone, Copy, PartialEq, Eq, Structural)]
pub struct Rect {
    /// Left column.
    pub x: u16,
    /// Top row.
    pub y: u16,
    /// Width in cells.
    pub width: u16,
    /// Height in cells.
    pub height: u16,
}

impl Rect {
    /// The empty rectangle at the origin.
    pub fn zero() -> (r: Rect)
        ensures
            r == (Rect { x: 0, y: 0, width: 0, height: 0 }),
    {
        Rect { x: 0, y: 0, width: 0, height: 0 }
    }
}

/// `a - b`, or 0 when `b > a`.
pub open spec fn sat_sub(a: int, b: int) -> int {
    if a > b {
        a - b
    } else {
        0
    }
}

} // verus!
