use chip8_lib::input::{InputController, KeyStatus};

#[test]
fn key_pressed() {
    let ict = InputController::from_bits(0xAAAA);
    assert!(!ict.key_pressed(0x0));
    assert!(ict.key_pressed(0x1));
    assert!(!ict.key_pressed(0x2));
    assert!(ict.key_pressed(0x3));
    assert!(!ict.key_pressed(0x4));
    assert!(ict.key_pressed(0x5));
    assert!(!ict.key_pressed(0x6));
    assert!(ict.key_pressed(0x7));
    assert!(!ict.key_pressed(0x8));
    assert!(ict.key_pressed(0x9));
    assert!(!ict.key_pressed(0xA));
    assert!(ict.key_pressed(0xB));
    assert!(!ict.key_pressed(0xC));
    assert!(ict.key_pressed(0xD));
    assert!(!ict.key_pressed(0xE));
    assert!(ict.key_pressed(0xF));
}

#[test]
fn press_unpress_key() {
    let mut ict = InputController::default();
    ict.press_key(0xA);
    assert!(ict.key_pressed(0xA));
    ict.unpress_key(0xA);
    assert!(!ict.key_pressed(0xA));
}

#[test]
fn release_is_idempotent() {
    let mut ict = InputController::from_bits(0x0101);
    ict.unpress_key(0xA);
    assert_eq!(ict.keys(), 0x0101);
    ict.unpress_key(0x8);
    ict.unpress_key(0x8);
    assert_eq!(ict.keys(), 0x0001);
    assert!(!ict.key_pressed(0x8));
}

#[test]
fn update_key_dispatches() {
    let mut ict = InputController::default();
    ict.update_key(0x3, &KeyStatus::Pressed);
    ict.update_key(0xF, &KeyStatus::Pressed);
    assert_eq!(ict.keys(), 0x8008);
    ict.update_key(0x3, &KeyStatus::Unpressed);
    assert_eq!(ict.keys(), 0x8000);
}

#[test]
fn keys_outside_range_are_ignored() {
    let mut ict = InputController::from_bits(0x1234);
    ict.press_key(16);
    ict.press_key(200);
    ict.unpress_key(17);
    assert_eq!(ict.keys(), 0x1234);
    assert!(!ict.key_pressed(16));
    assert!(!ict.key_pressed(255));
}
