//! Which presses of a button reach its handler.
use vstd::prelude::*;

verus! {

/// A mouse button.
#[derive(Clone, Copy, PartialEq, Eq, Debug)]
pub enum MouseButton {
    Left,
    Right,
    Middle,
    Back,
    Forward,
    Other,
}

/// What pressed a button: a mouse, with the button if one is known, a
/// touch, or the keyboard.
#[derive(Clone, Copy, PartialEq, Eq, Debug)]
pub enum PressSource {
    Mouse(Option<MouseButton>),
    Touch,
    Keyboard,
}

/// Whether a press reaches the button's handler: a left click, a touch or
/// a key does; any other mouse button, or a click without a known button,
/// does not.
pub fn press_reaches_handler(source: PressSource) -> (r: bool)
    ensures
        r == match source {
            PressSource::Mouse(b) => b == Some(MouseButton::Left),
            PressSource::Touch | PressSource::Keyboard => true,
        },
{
    match source {
        PressSource::Mouse(Some(MouseButton::Left)) => true,
        PressSource::Mouse(_) => false,
        PressSource::Touch | PressSource::Keyboard => true,
    }
}

} // verus!
