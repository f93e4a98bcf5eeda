//! A two-state button with edge detection.

use vstd::prelude::*;

verus! {

/// What a button is after an update: whether it is held, and how that
/// compares with the update before.
pub struct ButtonState {
    pub down: bool,
    pub repeat: bool,
    pub pressed: bool,
    pub released: bool,
}

impl ButtonState {
    /// A button that has never been touched.
    pub open spec fn idle() -> ButtonState {
        ButtonState { down: false, repeat: false, pressed: false, released: false }
    }

    /// The state after the button was reported `down` or up: it repeats when
    /// it stays down, is pressed when it goes down, and released when it goes
    /// up.
    pub open spec fn update(self, down: bool) -> ButtonState {
        ButtonState {
            down,
            repeat: self.down && down,
            pressed: !self.down && down,
            released: self.down && !down,
        }
    }

    /// At most one of the three edges holds, and each agrees with `down`.
    pub open spec fn consistent(self) -> bool {
        &&& self.repeat ==> self.down && !self.pressed && !self.released
        &&& self.pressed ==> self.down && !self.released
        &&& self.released ==> !self.down
        &&& self.down ==> self.repeat || self.pressed
    }
}

/// Every update leaves a button consistent, whatever it was before.
pub proof fn lemma_update_consistent(state: ButtonState, down: bool)
    ensures
        state.update(down).consistent(),
{
}

/// A button reported the same way twice shows no edge the second time.
pub proof fn lemma_update_twice(state: ButtonState, down: bool)
    ensures
        !state.update(down).update(down).pressed,
        !state.update(down).update(down).released,
        state.update(down).update(down).repeat == down,
{
}

/// A button: whether it is held, and which edge its last update showed.
#[derive(Clone, Copy, Debug)]
pub struct Button {
    down: bool,
    repeat: bool,
    pressed: bool,
    released: bool,
}

impl View for Button {
    type V = ButtonState;

    closed spec fn view(&self) -> ButtonState {
        ButtonState {
            down: self.down,
            repeat: self.repeat,
            pressed: self.pressed,
            released: self.released,
        }
    }
}

impl Default for Button {
    fn default() -> (button: Button)
        ensures
            button@ == ButtonState::idle(),
    {
        Button { down: false, repeat: false, pressed: false, released: false }
    }
}

impl Button {
    pub fn new() -> (button: Button)
        ensures
            button@ == ButtonState::idle(),
    {
        Button { down: false, repeat: false, pressed: false, released: false }
    }

    /// The button after it was reported `down` or up.
    pub fn update(&self, down: bool) -> (button: Button)
        ensures
            button@ == self@.update(down),
    {
        let was_down = self.down;
        Button {
            down,
            repeat: was_down && down,
            pressed: !was_down && down,
            released: was_down && !down,
        }
    }

    pub fn down(&self) -> (down: bool)
        ensures
            down == self@.down,
    {
        self.down
    }

    pub fn repeat(&self) -> (repeat: bool)
        ensures
            repeat == self@.repeat,
    {
        self.repeat
    }

    pub fn pressed(&self) -> (pressed: bool)
        ensures
            pressed == self@.pressed,
    {
        self.pressed
    }

    pub fn released(&self) -> (released: bool)
        ensures
            released == self@.released,
    {
        self.released
    }
}

} // verus!
