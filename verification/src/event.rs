use vstd::prelude::*;

verus! {

/// A mouse button, numbered as the windowing system numbers them.
#[derive(Debug, Clone, Copy, Hash, PartialEq, Eq, Structural, PartialOrd, Ord)]
pub enum MouseButton {
    Left,
    Right,
    Middle,
    Back,
    Forward,
    Other(u8),
}

/// The button with the given number: the first five are named, the rest are `Other`.
pub open spec fn button_of(value: u8) -> MouseButton {
    match value {
        0 => MouseButton::Left,
        1 => MouseButton::Right,
        2 => MouseButton::Middle,
        3 => MouseButton::Back,
        4 => MouseButton::Forward,
        v => MouseButton::Other(v),
    }
}

impl From<u8> for MouseButton {
    fn from(value: u8) -> (b: Self) {
        match value {
            0 => MouseButton::Left,
            1 => MouseButton::Right,
            2 => MouseButton::Middle,
            3 => MouseButton::Back,
            4 => MouseButton::Forward,
            v => MouseButton::Other(v),
        }
    }
}

impl vstd::std_specs::convert::FromSpecImpl<u8> for MouseButton {
    open spec fn obeys_from_spec() -> bool {
        true
    }

    open spec fn from_spec(value: u8) -> Self {
        button_of(value)
    }
}

/// The modifier keys held down.
#[derive(Debug, Clone, Copy, Hash, PartialEq, Eq, Structural, PartialOrd, Ord)]
pub struct Modifiers {
    pub shift: bool,
    pub control: bool,
    pub alt: bool,
    pub meta: bool,
}

/// What a pointer event came from.
#[derive(Debug, Clone, Copy, Hash, PartialEq, Eq, Structural, PartialOrd, Ord)]
pub enum PointerSource {
    Mouse,
    Touch(usize),
    Tablet,
    Unknown,
}

} // verus!
