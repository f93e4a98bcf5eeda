//! Input and timing state, advanced by plain events: whether a key went
//! down, what a clock read.

pub mod builder;
pub mod button;
pub mod clock;
pub mod delta;
pub mod keyboard;
pub mod mouse;

use crate::env::button::ButtonState;
use crate::env::clock::{Clock, ClockState};
use crate::env::keyboard::{key_of, Keyboard};
use crate::env::mouse::{Mouse, MouseButton, MouseState};
use vstd::prelude::*;

verus! {

/// What a window system reports, as far as an environment reacts to it.
#[derive(Clone, Copy, Debug)]
pub enum Event {
    /// The user asked for the window to be closed.
    CloseRequested,
    /// The window is gone.
    Destroyed,
    /// A key with the given scancode, if it has one, went down or up.
    Key { scancode: Option<u32>, down: bool },
    /// A button of the mouse went down or up.
    Button { button: MouseButton, down: bool },
    /// All events of a frame were delivered. `quit` is the scancode of the
    /// key that ends the program, and `reading` what the monotonic clock
    /// reads.
    Cleared { quit: Option<u32>, reading: u64 },
    /// Anything else.
    Other,
}

/// What is left to do after an event.
#[derive(Clone, Copy, Debug, PartialEq, Eq, Structural)]
pub struct Reaction {
    /// The event loop is to end.
    pub exit: bool,
    /// The position of the mouse is to be reported.
    pub report_position: bool,
    /// The time and the resolution of the clock are to be reported.
    pub report_time: bool,
}

/// What an environment is.
pub struct EnvironmentState {
    pub keyboard: Seq<ButtonState>,
    pub mouse: MouseState,
    pub clock: ClockState,
}

impl EnvironmentState {
    /// Whether the key with the given scancode was pressed by the last
    /// update of its button.
    pub open spec fn is_pressed(self, scancode: Option<u32>) -> bool {
        key_of(scancode) matches Some(key) && self.keyboard[key].pressed
    }

    /// The state after an event.
    pub open spec fn update(self, event: Event) -> EnvironmentState {
        match event {
            Event::Key { scancode, down } => match key_of(scancode) {
                Some(key) => EnvironmentState {
                    keyboard: self.keyboard.update(key, self.keyboard[key].update(down)),
                    ..self
                },
                None => self,
            },
            Event::Button { button, down } => EnvironmentState {
                mouse: self.mouse.update(button, down),
                ..self
            },
            Event::Cleared { quit, reading } => EnvironmentState {
                clock: self.clock.update(reading as nat),
                ..self
            },
            _ => self,
        }
    }

    /// What is left to do after an event: the loop ends when the window is
    /// closed or gone, or when a frame ends with the quit key pressed; at the
    /// end of a frame the position is reported while the left button is down,
    /// and the time while the right one is.
    pub open spec fn reaction(self, event: Event) -> Reaction {
        match event {
            Event::CloseRequested => Reaction {
                exit: true,
                report_position: false,
                report_time: false,
            },
            Event::Destroyed => Reaction { exit: true, report_position: false, report_time: false },
            Event::Cleared { quit, reading } => Reaction {
                exit: self.is_pressed(quit),
                report_position: self.mouse.left.down,
                report_time: self.mouse.right.down,
            },
            _ => Reaction { exit: false, report_position: false, report_time: false },
        }
    }

    /// Whether an event can be taken: a clock reading must not lie before
    /// the last one.
    pub open spec fn accepts(self, event: Event) -> bool {
        event matches Event::Cleared { quit, reading } ==> reading >= self.clock.start
            + self.clock.elapsed
    }
}

/// The keyboard, the buttons of the mouse and the clock of a program.
pub struct Environment {
    keyboard: Keyboard,
    mouse: Mouse,
    clock: Clock,
}

impl View for Environment {
    type V = EnvironmentState;

    closed spec fn view(&self) -> EnvironmentState {
        EnvironmentState { keyboard: self.keyboard@, mouse: self.mouse@, clock: self.clock@ }
    }
}

impl Environment {
    pub closed spec fn wf(&self) -> bool {
        self.keyboard.wf()
    }

    /// An environment in which nothing has been touched, with a clock of the
    /// given resolution that was started when the monotonic clock read
    /// `start`.
    pub fn new(resolution: u64, start: u64) -> (environment: Environment)
        ensures
            environment.wf(),
            environment@.keyboard.len() == crate::env::keyboard::KEY_COUNT,
            forall|key: int|
                0 <= key < environment@.keyboard.len() ==> #[trigger] environment@.keyboard[key]
                    == ButtonState::idle(),
            environment@.mouse == (MouseState {
                left: ButtonState::idle(),
                right: ButtonState::idle(),
                middle: ButtonState::idle(),
            }),
            environment@.clock == (ClockState {
                resolution: resolution as nat,
                start: start as nat,
                elapsed: 0,
                step: 0,
            }),
    {
        Environment {
            keyboard: Keyboard::new(),
            mouse: Mouse::new(),
            clock: Clock::new(resolution, start),
        }
    }

    pub fn keyboard(&self) -> (keyboard: &Keyboard)
        ensures
            keyboard@ == self@.keyboard,
            self.wf() ==> keyboard.wf(),
    {
        &self.keyboard
    }

    pub fn mouse(&self) -> (mouse: &Mouse)
        ensures
            mouse@ == self@.mouse,
    {
        &self.mouse
    }

    pub fn clock(&self) -> (clock: &Clock)
        ensures
            clock@ == self@.clock,
    {
        &self.clock
    }

    /// Whether `event` can be taken.
    pub fn accepts(&self, event: Event) -> (accepted: bool)
        ensures
            accepted == self@.accepts(event),
    {
        match event {
            Event::Cleared { quit, reading } => {
                let last = self.clock.now().ticks();
                match self.clock.start().checked_add(last) {
                    Some(least) => reading >= least,
                    None => false,
                }
            },
            _ => true,
        }
    }

    /// Reports the key with the given scancode `down` or up.
    pub fn update_keyboard(&mut self, scancode: Option<u32>, down: bool)
        requires
            old(self).wf(),
        ensures
            final(self).wf(),
            final(self)@ == old(self)@.update(Event::Key { scancode, down }),
    {
        self.keyboard.update(scancode, down);
    }

    /// Reports a button of the mouse `down` or up.
    pub fn update_mouse_button(&mut self, button: MouseButton, down: bool)
        requires
            old(self).wf(),
        ensures
            final(self).wf(),
            final(self)@ == old(self)@.update(Event::Button { button, down }),
    {
        self.mouse.update_button(button, down);
    }

    /// Takes an event and says what is left to do.
    pub fn update(&mut self, event: Event) -> (reaction: Reaction)
        requires
            old(self).wf(),
            old(self)@.accepts(event),
        ensures
            final(self).wf(),
            final(self)@ == old(self)@.update(event),
            reaction == old(self)@.reaction(event),
    {
        let idle = Reaction { exit: false, report_position: false, report_time: false };
        match event {
            Event::CloseRequested => Reaction {
                exit: true,
                report_position: false,
                report_time: false,
            },
            Event::Destroyed => Reaction { exit: true, report_position: false, report_time: false },
            Event::Key { scancode, down } => {
                self.update_keyboard(scancode, down);
                idle
            },
            Event::Button { button, down } => {
                self.update_mouse_button(button, down);
                idle
            },
            Event::Cleared { quit, reading } => {
                let reaction = Reaction {
                    exit: self.keyboard.is_pressed(quit),
                    report_position: self.mouse.left_button().down(),
                    report_time: self.mouse.right_button().down(),
                };
                self.clock.update(reading);
                reaction
            },
            Event::Other => idle,
        }
    }
}

} // verus!
