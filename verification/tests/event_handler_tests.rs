use basis::{EventHandler, InputEvent, KeyAction, MOD_CONTROL, MOD_NONE, MOD_SHIFT};

const KEY_W: i32 = 87;
const KEY_S: i32 = 83;

#[test]
fn press_marks_the_exact_pair_held() {
    let mut handler = EventHandler::new();
    handler.update(vec![InputEvent::Key(KEY_W, KeyAction::Press, MOD_NONE)]);
    handler.process();
    assert!(handler.hold(KEY_W, MOD_NONE));
    assert!(!handler.hold(KEY_W, MOD_CONTROL));
    assert!(!handler.hold(KEY_S, MOD_NONE));
}

#[test]
fn release_clears_the_key_under_every_modifier() {
    let mut handler = EventHandler::new();
    handler.update(vec![
        InputEvent::Key(KEY_W, KeyAction::Press, MOD_NONE),
        InputEvent::Key(KEY_W, KeyAction::Press, MOD_CONTROL),
    ]);
    handler.process();
    assert!(handler.hold(KEY_W, MOD_NONE));
    assert!(handler.hold(KEY_W, MOD_CONTROL));

    // releasing without the modifier still clears the modified hold
    handler.update(vec![InputEvent::Key(KEY_W, KeyAction::Release, MOD_NONE)]);
    handler.process();
    assert!(!handler.hold(KEY_W, MOD_NONE));
    assert!(!handler.hold(KEY_W, MOD_CONTROL));
}

#[test]
fn the_last_event_of_a_frame_wins() {
    let mut handler = EventHandler::new();
    handler.update(vec![
        InputEvent::Key(KEY_W, KeyAction::Press, MOD_NONE),
        InputEvent::Key(KEY_W, KeyAction::Release, MOD_NONE),
        InputEvent::Key(KEY_W, KeyAction::Press, MOD_NONE),
    ]);
    handler.process();
    assert!(handler.hold(KEY_W, MOD_NONE));
}

#[test]
fn repeats_and_other_events_change_no_hold_state() {
    let mut handler = EventHandler::new();
    handler.update(vec![InputEvent::Key(KEY_W, KeyAction::Press, MOD_SHIFT)]);
    handler.process();
    handler.update(vec![InputEvent::Key(KEY_W, KeyAction::Repeat, MOD_SHIFT), InputEvent::Other]);
    handler.process();
    assert!(handler.hold(KEY_W, MOD_SHIFT));
}

#[test]
fn pressed_and_released_read_the_current_frame_only() {
    let mut handler = EventHandler::new();
    handler.update(vec![InputEvent::Key(KEY_W, KeyAction::Press, MOD_NONE)]);
    handler.process();
    assert!(handler.pressed(KEY_W, MOD_NONE));
    assert!(!handler.pressed(KEY_W, MOD_CONTROL));
    assert!(!handler.released(KEY_W, MOD_NONE));

    handler.update(vec![InputEvent::Key(KEY_W, KeyAction::Release, MOD_NONE)]);
    handler.process();
    assert!(!handler.pressed(KEY_W, MOD_NONE));
    assert!(handler.released(KEY_W, MOD_NONE));
}

#[test]
fn update_replaces_the_frame_events() {
    let mut handler = EventHandler::new();
    handler.update(vec![InputEvent::Key(KEY_S, KeyAction::Press, MOD_NONE)]);
    handler.update(vec![InputEvent::Key(KEY_W, KeyAction::Press, MOD_NONE)]);
    handler.process();
    assert!(!handler.hold(KEY_S, MOD_NONE));
    assert!(handler.hold(KEY_W, MOD_NONE));
}
