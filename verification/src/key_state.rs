//! The logical state of one key.
use vstd::prelude::*;

verus! {

/// Whether a key counts as pressed, as last confirmed by the debouncer.
#[derive(Clone, Copy, Debug, PartialEq, Eq, Structural)]
pub struct KeyState {
    /// True while the key is held down.
    pub pressed: bool,
}

impl KeyState {
    /// A released key.
    pub fn new() -> (state: Self)
        ensures
            !state.pressed,
    {
        KeyState { pressed: false }
    }

    /// Flips the key between pressed and released.
    pub fn toggle_pressed(&mut self)
        ensures
            final(self).pressed == !old(self).pressed,
    {
        self.pressed = !self.pressed;
    }

    /// True while the key is held down.
    pub fn is_pressing(&self) -> (held: bool)
        ensures
            held == self.pressed,
    {
        self.pressed
    }

    /// True while the key is up.
    pub fn is_releasing(&self) -> (up: bool)
        ensures
            up == !self.pressed,
    {
        !self.pressed
    }
}

impl Default for KeyState {
    fn default() -> (state: Self)
        ensures
            !state.pressed,
    {
        KeyState::new()
    }
}

} // verus!
