//! The buttons of a mouse.

use crate::env::button::{Button, ButtonState};
use vstd::prelude::*;

verus! {

/// A button of a mouse, as a window system names it.
#[derive(Clone, Copy, Debug, PartialEq, Eq, Structural)]
pub enum MouseButton {
    Left,
    Right,
    Middle,
    /// Any further button, which a mouse keeps no state for.
    Other,
}

/// What the buttons of a mouse are.
pub struct MouseState {
    pub left: ButtonState,
    pub right: ButtonState,
    pub middle: ButtonState,
}

impl MouseState {
    /// The state after `button` was reported `down` or up.
    pub open spec fn update(self, button: MouseButton, down: bool) -> MouseState {
        match button {
            MouseButton::Left => MouseState { left: self.left.update(down), ..self },
            MouseButton::Right => MouseState { right: self.right.update(down), ..self },
            MouseButton::Middle => MouseState { middle: self.middle.update(down), ..self },
            MouseButton::Other => self,
        }
    }
}

/// The three buttons that a mouse keeps state for.
pub struct Mouse {
    left_button: Button,
    right_button: Button,
    middle_button: Button,
}

impl View for Mouse {
    type V = MouseState;

    closed spec fn view(&self) -> MouseState {
        MouseState {
            left: self.left_button@,
            right: self.right_button@,
            middle: self.middle_button@,
        }
    }
}

impl Default for Mouse {
    fn default() -> (mouse: Mouse)
        ensures
            mouse@ == (MouseState {
                left: ButtonState::idle(),
                right: ButtonState::idle(),
                middle: ButtonState::idle(),
            }),
    {
        Mouse {
            left_button: Button::new(),
            right_button: Button::new(),
            middle_button: Button::new(),
        }
    }
}

impl Mouse {
    /// A mouse none of whose buttons has been touched.
    pub fn new() -> (mouse: Mouse)
        ensures
            mouse@ == (MouseState {
                left: ButtonState::idle(),
                right: ButtonState::idle(),
                middle: ButtonState::idle(),
            }),
    {
        Mouse {
            left_button: Button::new(),
            right_button: Button::new(),
            middle_button: Button::new(),
        }
    }

    pub fn left_button(&self) -> (button: Button)
        ensures
            button@ == self@.left,
    {
        self.left_button
    }

    pub fn right_button(&self) -> (button: Button)
        ensures
            button@ == self@.right,
    {
        self.right_button
    }

    pub fn middle_button(&self) -> (button: Button)
        ensures
            button@ == self@.middle,
    {
        self.middle_button
    }

    /// Reports `mouse_button` `down` or up.
    pub fn update_button(&mut self, mouse_button: MouseButton, down: bool)
        ensures
            final(self)@ == old(self)@.update(mouse_button, down),
    {
        match mouse_button {
            MouseButton::Left => {
                self.left_button = self.left_button.update(down);
            },
            MouseButton::Right => {
                self.right_button = self.right_button.update(down);
            },
            MouseButton::Middle => {
                self.middle_button = self.middle_button.update(down);
            },
            MouseButton::Other => {},
        }
    }
}

} // verus!
