//! Key presses as the library reads them: which key, and which modifiers
//! were held with it.
use vstd::prelude::*;

verus! {

/// A key of the keyboard.
#[derive(Clone, Copy, Debug, PartialEq, Eq, Structural)]
pub enum KeyCode {
    Char(char),
    Esc,
    Enter,
    Backspace,
    Tab,
    BackTab,
    Left,
    Right,
    Up,
    Down,
    Home,
    End,
    PageUp,
    PageDown,
    /// Any key the viewer does not react to.
    Other,
}

/// The modifiers held with a key; `other` stands for super, hyper and meta.
#[derive(Clone, Copy, Debug, PartialEq, Eq, Structural)]
pub struct KeyModifiers {
    pub shift: bool,
    pub control: bool,
    pub alt: bool,
    pub other: bool,
}

impl KeyModifiers {
    /// No modifier held.
    pub open spec fn is_none(self) -> bool {
        !self.shift && !self.control && !self.alt && !self.other
    }

    /// Shift alone.
    pub open spec fn is_shift(self) -> bool {
        self.shift && !self.control && !self.alt && !self.other
    }

    /// Control alone.
    pub open spec fn is_control(self) -> bool {
        !self.shift && self.control && !self.alt && !self.other
    }

    /// No modifier.
    pub fn none() -> (r: Self)
        ensures
            r.is_none(),
    {
        KeyModifiers { shift: false, control: false, alt: false, other: false }
    }

    /// Shift alone.
    pub fn shift() -> (r: Self)
        ensures
            r.is_shift(),
    {
        KeyModifiers { shift: true, control: false, alt: false, other: false }
    }

    /// Control alone.
    pub fn control() -> (r: Self)
        ensures
            r.is_control(),
    {
        KeyModifiers { shift: false, control: true, alt: false, other: false }
    }

    /// Whether no modifier is held.
    pub fn empty(&self) -> (r: bool)
        ensures
            r == self.is_none(),
    {
        !self.shift && !self.control && !self.alt && !self.other
    }

    /// Whether shift alone is held.
    pub fn only_shift(&self) -> (r: bool)
        ensures
            r == self.is_shift(),
    {
        self.shift && !self.control && !self.alt && !self.other
    }

    /// Whether control alone is held.
    pub fn only_control(&self) -> (r: bool)
        ensures
            r == self.is_control(),
    {
        !self.shift && self.control && !self.alt && !self.other
    }
}

/// A key pressed with its modifiers.
#[derive(Clone, Copy, Debug, PartialEq, Eq, Structural)]
pub struct KeyEvent {
    pub code: KeyCode,
    pub modifiers: KeyModifiers,
}

impl KeyEvent {
    /// The key `code` pressed with `modifiers`.
    pub fn new(code: KeyCode, modifiers: KeyModifiers) -> (r: Self)
        ensures
            r.code == code,
            r.modifiers == modifiers,
    {
        KeyEvent { code, modifiers }
    }
}

} // verus!
