use purple::hook_manager::{handle_key, KeyAction, TargetKeys};

#[test]
fn macos_key_codes() {
    assert_eq!(TargetKeys::from_macos(126), TargetKeys::UpArrow);
    assert_eq!(TargetKeys::from_macos(125), TargetKeys::DownArrow);
    assert_eq!(TargetKeys::from_macos(123), TargetKeys::LeftArrow);
    assert_eq!(TargetKeys::from_macos(124), TargetKeys::RightArrow);
    assert_eq!(TargetKeys::from_macos(36), TargetKeys::Enter);
    assert_eq!(TargetKeys::from_macos(9), TargetKeys::Other);
    assert_eq!(TargetKeys::from_macos(-1), TargetKeys::Other);
}

#[test]
fn windows_key_codes() {
    assert_eq!(TargetKeys::from_windows(0x0D), TargetKeys::Enter);
    assert_eq!(TargetKeys::from_windows(0x25), TargetKeys::LeftArrow);
    assert_eq!(TargetKeys::from_windows(0x26), TargetKeys::UpArrow);
    assert_eq!(TargetKeys::from_windows(0x27), TargetKeys::RightArrow);
    assert_eq!(TargetKeys::from_windows(0x28), TargetKeys::DownArrow);
    assert_eq!(TargetKeys::from_windows(0x56), TargetKeys::Other);
}

#[test]
fn only_other_keys_pass_through_and_hide() {
    assert!(TargetKeys::Enter.is_captured());
    assert!(TargetKeys::UpArrow.is_captured());
    assert!(!TargetKeys::Other.is_captured());
    assert_eq!(handle_key(TargetKeys::Other), KeyAction::Hide);
    assert_eq!(handle_key(TargetKeys::Enter), KeyAction::Emit(TargetKeys::Enter));
    assert_eq!(handle_key(TargetKeys::LeftArrow), KeyAction::Emit(TargetKeys::LeftArrow));
}
