use oryxis_terminal::mouse::{encode, Mods, MouseButton, MouseEventKind, MouseMode};

fn sgr() -> MouseMode {
    MouseMode { click: true, drag: false, motion: false, sgr: true }
}

fn click() -> MouseMode {
    MouseMode { click: true, drag: false, motion: false, sgr: false }
}

fn s(bytes: Option<Vec<u8>>) -> String {
    String::from_utf8(bytes.unwrap()).unwrap()
}

#[test]
fn sgr_left_press_release_is_one_based() {
    let press = encode(sgr(), MouseEventKind::Press, MouseButton::Left, 0, 0, Mods::default());
    assert_eq!(s(press), "\x1b[<0;1;1M");
    let release = encode(sgr(), MouseEventKind::Release, MouseButton::Left, 0, 0, Mods::default());
    assert_eq!(s(release), "\x1b[<0;1;1m");
}

#[test]
fn sgr_right_button_and_modifiers() {
    let mods = Mods { shift: false, alt: false, ctrl: true };
    let press = encode(sgr(), MouseEventKind::Press, MouseButton::Right, 9, 4, mods);
    assert_eq!(s(press), "\x1b[<18;10;5M");
}

#[test]
fn sgr_wheel_uses_64_65() {
    let up = encode(sgr(), MouseEventKind::Press, MouseButton::WheelUp, 0, 0, Mods::default());
    assert_eq!(s(up), "\x1b[<64;1;1M");
    let down = encode(sgr(), MouseEventKind::Press, MouseButton::WheelDown, 0, 0, Mods::default());
    assert_eq!(s(down), "\x1b[<65;1;1M");
}

#[test]
fn motion_gated_on_drag_or_motion_modes() {
    let none = encode(sgr(), MouseEventKind::Motion, MouseButton::Left, 0, 0, Mods::default());
    assert!(none.is_none());
    let drag_mode = MouseMode { drag: true, ..sgr() };
    let moved = encode(drag_mode, MouseEventKind::Motion, MouseButton::Left, 0, 0, Mods::default());
    assert_eq!(s(moved), "\x1b[<32;1;1M");
}

#[test]
fn legacy_release_loses_button_and_offsets_by_32() {
    let press = encode(click(), MouseEventKind::Press, MouseButton::Left, 0, 0, Mods::default());
    assert_eq!(press.unwrap(), vec![0x1b, b'[', b'M', 32, 33, 33]);
    let release = encode(click(), MouseEventKind::Release, MouseButton::Left, 0, 0, Mods::default());
    assert_eq!(release.unwrap(), vec![0x1b, b'[', b'M', 35, 33, 33]);
}

#[test]
fn legacy_drops_coords_past_single_byte_ceiling() {
    let over = encode(click(), MouseEventKind::Press, MouseButton::Left, 224, 0, Mods::default());
    assert!(over.is_none());
}

#[test]
fn all_modifiers_and_large_sgr_coordinates() {
    let mods = Mods { shift: true, alt: true, ctrl: true };
    let out = encode(sgr(), MouseEventKind::Press, MouseButton::Middle, 299, 1023, mods);
    assert_eq!(s(out), "\x1b[<29;300;1024M");
    let any = MouseMode { motion: true, ..sgr() };
    let hover = encode(any, MouseEventKind::Motion, MouseButton::NoButton, 4, 2, Mods::default());
    assert_eq!(s(hover), "\x1b[<35;5;3M");
}

#[test]
fn legacy_last_encodable_cell() {
    let edge = encode(click(), MouseEventKind::Press, MouseButton::Left, 222, 222, Mods::default());
    assert_eq!(edge.unwrap(), vec![0x1b, b'[', b'M', 32, 255, 255]);
}

#[test]
fn button_codes() {
    assert_eq!(MouseButton::Left.code(), 0);
    assert_eq!(MouseButton::Right.code(), 2);
    assert_eq!(MouseButton::WheelDown.code(), 65);
    assert_eq!(MouseButton::NoButton.code(), 3);
}
