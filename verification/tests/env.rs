use monolith::env::builder::EnvironmentBuilder;
use monolith::env::button::Button;
use monolith::env::clock::{Clock, Instant};
use monolith::env::delta::Delta;
use monolith::env::keyboard::{Keyboard, KEY_COUNT};
use monolith::env::mouse::{Mouse, MouseButton};
use monolith::env::{Environment, Event, Reaction};

fn edges(button: &Button) -> (bool, bool, bool, bool) {
    (button.down(), button.repeat(), button.pressed(), button.released())
}

#[test]
fn a_new_button_is_idle() {
    assert_eq!(edges(&Button::new()), (false, false, false, false));
    assert_eq!(edges(&Button::default()), (false, false, false, false));
}

#[test]
fn a_button_reports_its_edges() {
    let idle = Button::new();
    let pressed = idle.update(true);
    assert_eq!(edges(&pressed), (true, false, true, false));
    let held = pressed.update(true);
    assert_eq!(edges(&held), (true, true, false, false));
    let released = held.update(false);
    assert_eq!(edges(&released), (false, false, false, true));
    let rest = released.update(false);
    assert_eq!(edges(&rest), (false, false, false, false));
    // the button itself is not changed by an update
    assert_eq!(edges(&idle), (false, false, false, false));
}

#[test]
fn a_delta_remembers_its_last_step() {
    let mut delta: Delta<u64> = Delta::new(10);
    assert_eq!(delta.value(), 10);
    assert_eq!(delta.delta(), 10);
    delta.update(25);
    assert_eq!(delta.value(), 25);
    assert_eq!(delta.delta(), 15);
    delta.update(25);
    assert_eq!(delta.delta(), 0);
    let mut signed: Delta<i32> = Delta::new(0);
    signed.update(-4);
    assert_eq!(signed.delta(), -4);
    signed.update(3);
    assert_eq!(signed.delta(), 7);
    assert_eq!(signed.value(), 3);
}

#[test]
fn an_instant_converts_its_ticks() {
    let instant = Instant::new(1_234_567, 2);
    assert_eq!(instant.ticks(), 1_234_567);
    assert_eq!(instant.resolution(), 2);
    assert!(instant.is_representable());
    assert_eq!(instant.nanoseconds(), 2_469_134);
    assert_eq!(instant.microseconds(), 2_469);
    assert_eq!(instant.milliseconds(), 2);
    let zero = Instant::new(0, 1_000);
    assert_eq!(zero.nanoseconds(), 0);
    assert_eq!(zero.milliseconds(), 0);
}

#[test]
fn an_instant_that_does_not_fit_says_so() {
    assert!(!Instant::new(u64::MAX, 2).is_representable());
    assert!(Instant::new(u64::MAX, 1).is_representable());
    assert_eq!(Instant::new(u64::MAX, 1).nanoseconds(), u64::MAX);
    assert!(Instant::new(u64::MAX, 0).is_representable());
}

#[test]
fn a_clock_keeps_the_time_elapsed() {
    let mut clock = Clock::new(1, 1_000);
    assert_eq!(clock.resolution(), 1);
    assert_eq!(clock.now().ticks(), 0);
    clock.update(1_500);
    assert_eq!(clock.now().ticks(), 500);
    assert_eq!(clock.now().resolution(), 1);
    clock.update(4_000);
    assert_eq!(clock.now().ticks(), 3_000);
    assert_eq!(clock.now().nanoseconds(), 3_000);
    assert_eq!(clock.now().microseconds(), 3);
}

#[test]
fn a_keyboard_finds_keys_by_scancode() {
    let mut keyboard = Keyboard::new();
    assert_eq!(KEY_COUNT, 512);
    assert!(keyboard.is_up(Some(30)));
    assert!(!keyboard.is_down(Some(30)));
    keyboard.update(Some(30), true);
    assert!(keyboard.is_down(Some(30)));
    assert!(keyboard.is_pressed(Some(30)));
    assert!(!keyboard.is_released(Some(30)));
    assert!(!keyboard.is_down(Some(31)));
    keyboard.update(Some(30), true);
    assert!(!keyboard.is_pressed(Some(30)));
    assert!(keyboard.key(Some(30)).unwrap().repeat());
    keyboard.update(Some(30), false);
    assert!(keyboard.is_released(Some(30)));
    assert!(keyboard.is_up(Some(30)));
    keyboard.update(Some(511), true);
    assert!(keyboard.is_down(Some(511)));
}

#[test]
fn a_keyboard_ignores_keys_it_has_no_button_for() {
    let mut keyboard = Keyboard::new();
    keyboard.update(None, true);
    keyboard.update(Some(512), true);
    keyboard.update(Some(u32::MAX), true);
    assert!(keyboard.key(None).is_none());
    assert!(keyboard.key(Some(512)).is_none());
    assert!(!keyboard.is_down(None));
    assert!(!keyboard.is_pressed(Some(512)));
    assert!(!keyboard.is_released(None));
    assert!(keyboard.is_up(None));
    assert!(keyboard.is_up(Some(0)));
}

#[test]
fn a_builder_collects_windows_in_order() {
    let mut builder = EnvironmentBuilder::new();
    assert!(builder.windows().is_empty());
    builder.window("main", 800, 600, true).window("tools", 320, 200, false);
    let windows = builder.windows();
    assert_eq!(windows.len(), 2);
    assert_eq!(windows[0].title(), "main");
    assert_eq!(windows[0].width(), 800);
    assert_eq!(windows[0].height(), 600);
    assert!(windows[0].resizable());
    assert_eq!(windows[1].title(), "tools");
    assert_eq!(windows[1].width(), 320);
    assert_eq!(windows[1].height(), 200);
    assert!(!windows[1].resizable());
}

#[test]
fn a_mouse_keeps_its_three_buttons_apart() {
    let mut mouse = Mouse::new();
    assert_eq!(edges(&mouse.left_button()), (false, false, false, false));
    mouse.update_button(MouseButton::Left, true);
    assert_eq!(edges(&mouse.left_button()), (true, false, true, false));
    assert_eq!(edges(&mouse.right_button()), (false, false, false, false));
    mouse.update_button(MouseButton::Right, true);
    mouse.update_button(MouseButton::Right, true);
    assert_eq!(edges(&mouse.right_button()), (true, true, false, false));
    mouse.update_button(MouseButton::Middle, true);
    mouse.update_button(MouseButton::Middle, false);
    assert_eq!(edges(&mouse.middle_button()), (false, false, false, true));
    mouse.update_button(MouseButton::Other, true);
    assert_eq!(edges(&mouse.left_button()), (true, false, true, false));
    assert_eq!(edges(&mouse.middle_button()), (false, false, false, true));
    assert_eq!(edges(&Mouse::default().left_button()), (false, false, false, false));
}

#[test]
fn an_environment_ends_the_loop_when_the_window_goes() {
    let mut environment = Environment::new(1, 100);
    let close = environment.update(Event::CloseRequested);
    assert_eq!(close, Reaction { exit: true, report_position: false, report_time: false });
    let gone = environment.update(Event::Destroyed);
    assert!(gone.exit);
    let other = environment.update(Event::Other);
    assert_eq!(other, Reaction { exit: false, report_position: false, report_time: false });
}

#[test]
fn an_environment_ends_the_loop_on_the_quit_key() {
    let mut environment = Environment::new(1, 100);
    let quit = Some(24);
    let idle = Reaction { exit: false, report_position: false, report_time: false };
    assert_eq!(environment.update(Event::Cleared { quit, reading: 100 }), idle);
    assert_eq!(environment.update(Event::Key { scancode: Some(25), down: true }), idle);
    assert_eq!(environment.update(Event::Cleared { quit, reading: 150 }), idle);
    assert_eq!(environment.clock().now().ticks(), 50);
    assert_eq!(environment.update(Event::Key { scancode: quit, down: true }), idle);
    assert!(environment.keyboard().is_pressed(quit));
    assert!(environment.update(Event::Cleared { quit, reading: 170 }).exit);
    // held down, the key is no longer pressed
    environment.update(Event::Key { scancode: quit, down: true });
    assert!(!environment.update(Event::Cleared { quit, reading: 170 }).exit);
    // a key without a scancode never ends the loop
    assert!(!environment.update(Event::Cleared { quit: None, reading: 171 }).exit);
    assert_eq!(environment.clock().now().ticks(), 71);
}

#[test]
fn an_environment_reports_while_a_mouse_button_is_down() {
    let mut environment = Environment::new(1, 0);
    environment.update(Event::Button { button: MouseButton::Left, down: true });
    let frame = environment.update(Event::Cleared { quit: None, reading: 5 });
    assert_eq!(frame, Reaction { exit: false, report_position: true, report_time: false });
    environment.update(Event::Button { button: MouseButton::Right, down: true });
    environment.update(Event::Button { button: MouseButton::Left, down: false });
    let frame = environment.update(Event::Cleared { quit: None, reading: 5 });
    assert_eq!(frame, Reaction { exit: false, report_position: false, report_time: true });
    assert!(environment.mouse().right_button().down());
    environment.update_mouse_button(MouseButton::Right, false);
    environment.update_keyboard(Some(3), true);
    assert!(environment.keyboard().is_down(Some(3)));
    assert!(environment.mouse().right_button().released());
}

#[test]
fn an_environment_takes_no_reading_from_the_past() {
    let mut environment = Environment::new(1, 100);
    assert!(environment.accepts(Event::Cleared { quit: None, reading: 100 }));
    assert!(!environment.accepts(Event::Cleared { quit: None, reading: 99 }));
    environment.update(Event::Cleared { quit: None, reading: 130 });
    assert!(!environment.accepts(Event::Cleared { quit: None, reading: 129 }));
    assert!(environment.accepts(Event::Cleared { quit: None, reading: 130 }));
    assert!(environment.accepts(Event::CloseRequested));
    assert!(environment.accepts(Event::Key { scancode: None, down: true }));
    assert_eq!(environment.clock().start(), 100);
}
