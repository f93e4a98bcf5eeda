//! The buttons of a keyboard, found by scancode.

use crate::env::button::{Button, ButtonState};
use vstd::prelude::*;

verus! {

/// Number of scancodes that a keyboard keeps a button for.
pub const KEY_COUNT: usize = 512;

/// The key that a scancode stands for, if the keyboard has one for it.
pub open spec fn key_of(scancode: Option<u32>) -> Option<int> {
    match scancode {
        Some(code) => if code < KEY_COUNT {
            Some(code as int)
        } else {
            None
        },
        None => None,
    }
}

/// One button for each scancode below `KEY_COUNT`.
pub struct Keyboard {
    keys: Vec<Button>,
}

impl View for Keyboard {
    type V = Seq<ButtonState>;

    closed spec fn view(&self) -> Seq<ButtonState> {
        Seq::new(self.keys@.len(), |i: int| self.keys@[i]@)
    }
}

impl Keyboard {
    /// The keyboard has a button for every scancode below `KEY_COUNT`.
    pub closed spec fn wf(&self) -> bool {
        self.keys@.len() == KEY_COUNT
    }

    /// A well-formed keyboard has `KEY_COUNT` keys.
    pub proof fn lemma_wf(&self)
        requires
            self.wf(),
        ensures
            self@.len() == KEY_COUNT,
    {
    }

    /// A keyboard none of whose keys has been touched.
    pub fn new() -> (keyboard: Keyboard)
        ensures
            keyboard.wf(),
            keyboard@ == Seq::new(KEY_COUNT as nat, |i: int| ButtonState::idle()),
    {
        let mut keys: Vec<Button> = Vec::with_capacity(KEY_COUNT);
        let mut i: usize = 0;
        while i < KEY_COUNT
            invariant
                i <= KEY_COUNT,
                keys@.len() == i,
                forall|j: int| 0 <= j < i ==> (#[trigger] keys@[j])@ == ButtonState::idle(),
            decreases KEY_COUNT - i,
        {
            keys.push(Button::new());
            i = i + 1;
        }
        let keyboard = Keyboard { keys };
        assert(keyboard@ =~= Seq::new(KEY_COUNT as nat, |i: int| ButtonState::idle()));
        keyboard
    }

    /// Reports the key with the given scancode `down` or up. A key without a
    /// scancode, or with one that the keyboard has no button for, is
    /// ignored.
    pub fn update(&mut self, scancode: Option<u32>, down: bool)
        requires
            old(self).wf(),
        ensures
            final(self).wf(),
            final(self)@ == match key_of(scancode) {
                Some(key) => old(self)@.update(key, old(self)@[key].update(down)),
                None => old(self)@,
            },
    {
        if let Some(code) = scancode {
            if (code as usize) < KEY_COUNT {
                let button = self.keys[code as usize].update(down);
                self.keys[code as usize] = button;
                assert(self@ =~= old(self)@.update(
                    code as int,
                    old(self)@[code as int].update(down),
                ));
                return ;
            }
        }
        assert(self@ =~= old(self)@);
    }

    /// The button of the key with the given scancode.
    pub fn key(&self, scancode: Option<u32>) -> (button: Option<Button>)
        requires
            self.wf(),
        ensures
            match button {
                Some(b) => key_of(scancode) matches Some(key) && b@ == self@[key],
                None => key_of(scancode) is None,
            },
    {
        match scancode {
            Some(code) => if (code as usize) < KEY_COUNT {
                Some(self.keys[code as usize])
            } else {
                None
            },
            None => None,
        }
    }

    pub fn is_pressed(&self, scancode: Option<u32>) -> (pressed: bool)
        requires
            self.wf(),
        ensures
            pressed == (key_of(scancode) matches Some(key) && self@[key].pressed),
    {
        match self.key(scancode) {
            Some(button) => button.pressed(),
            None => false,
        }
    }

    pub fn is_released(&self, scancode: Option<u32>) -> (released: bool)
        requires
            self.wf(),
        ensures
            released == (key_of(scancode) matches Some(key) && self@[key].released),
    {
        match self.key(scancode) {
            Some(button) => button.released(),
            None => false,
        }
    }

    pub fn is_down(&self, scancode: Option<u32>) -> (down: bool)
        requires
            self.wf(),
        ensures
            down == (key_of(scancode) matches Some(key) && self@[key].down),
    {
        match self.key(scancode) {
            Some(button) => button.down(),
            None => false,
        }
    }

    pub fn is_up(&self, scancode: Option<u32>) -> (up: bool)
        requires
            self.wf(),
        ensures
            up == !(key_of(scancode) matches Some(key) && self@[key].down),
    {
        !self.is_down(scancode)
    }
}

} // verus!
