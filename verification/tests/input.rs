use xemanh::imaging::Rot;
use xemanh::input::{key_commands, KeyCommand, KeyFlow, KeyInput};

fn none() -> KeyInput {
    KeyInput {
        escape: false,
        enter: false,
        c: false,
        space: false,
        right: false,
        page_down: false,
        down: false,
        left: false,
        page_up: false,
        up: false,
        home: false,
        end: false,
        i: false,
        r: false,
        s: false,
        v: false,
        delete: false,
        key0: false,
        keypad0: false,
        ctrl: false,
        shift: false,
    }
}

#[test]
fn no_keys_no_commands() {
    assert_eq!(key_commands(&none(), false, false, 3), (vec![], KeyFlow::Continue));
}

#[test]
fn escape_leaves_crop_mode_first() {
    let k = KeyInput { escape: true, space: true, ..none() };
    assert_eq!(key_commands(&k, true, true, 3), (vec![KeyCommand::CancelCrop], KeyFlow::Stop));
}

#[test]
fn escape_leaves_fullscreen_then_goes_on() {
    let k = KeyInput { escape: true, right: true, ..none() };
    assert_eq!(
        key_commands(&k, false, true, 3),
        (vec![KeyCommand::ToggleFullscreen, KeyCommand::Next], KeyFlow::Continue)
    );
}

#[test]
fn escape_in_window_quits() {
    let k = KeyInput { escape: true, right: true, ..none() };
    assert_eq!(key_commands(&k, false, false, 3), (vec![], KeyFlow::Quit));
}

#[test]
fn enter_in_crop_mode_crops_and_stops() {
    let k = KeyInput { enter: true, delete: true, ..none() };
    assert_eq!(key_commands(&k, true, false, 3), (vec![KeyCommand::ApplyCrop], KeyFlow::Stop));
    assert_eq!(key_commands(&k, false, false, 3), (vec![KeyCommand::Delete], KeyFlow::Continue));
}

#[test]
fn c_toggles_crop_and_ctrl_c_copies() {
    let k = KeyInput { c: true, ..none() };
    assert_eq!(key_commands(&k, false, false, 3).0, vec![KeyCommand::ToggleCrop]);
    let k = KeyInput { c: true, ctrl: true, ..none() };
    assert_eq!(key_commands(&k, false, false, 3).0, vec![KeyCommand::Copy]);
}

#[test]
fn navigation_keys() {
    for k in [KeyInput { down: true, ..none() }, KeyInput { page_down: true, ..none() }] {
        assert_eq!(key_commands(&k, false, false, 3).0, vec![KeyCommand::Next]);
    }
    for k in [KeyInput { up: true, ..none() }, KeyInput { left: true, ..none() }] {
        assert_eq!(key_commands(&k, false, false, 3).0, vec![KeyCommand::Prev]);
    }
    let k = KeyInput { home: true, end: true, ..none() };
    assert_eq!(key_commands(&k, false, false, 3).0, vec![KeyCommand::Open(0), KeyCommand::Open(2)]);
    assert_eq!(key_commands(&k, false, false, 0).0, vec![]);
}

#[test]
fn rotate_save_copy_paste_in_order() {
    let k = KeyInput { r: true, s: true, v: true, ctrl: true, key0: true, i: true, ..none() };
    assert_eq!(
        key_commands(&k, false, false, 3).0,
        vec![
            KeyCommand::ToggleInfo,
            KeyCommand::RotateAndSave(Rot::Cw),
            KeyCommand::RotateAndSave(Rot::Keep),
            KeyCommand::Paste,
            KeyCommand::ResetView,
        ]
    );
    let k = KeyInput { r: true, shift: true, keypad0: true, ..none() };
    assert_eq!(
        key_commands(&k, false, false, 3).0,
        vec![KeyCommand::RotateAndSave(Rot::Ccw), KeyCommand::ResetView]
    );
    let k = KeyInput { s: true, v: true, ..none() };
    assert_eq!(key_commands(&k, false, false, 3).0, vec![]);
}

#[test]
fn space_toggles_fullscreen() {
    let k = KeyInput { space: true, ..none() };
    assert_eq!(key_commands(&k, false, true, 3).0, vec![KeyCommand::ToggleFullscreen]);
}
