//! The keys that the picker takes for itself while it is shown, and what
//! each of them does.

use vstd::prelude::*;

verus! {

/// A key as the picker tells them apart.
#[derive(Clone, Copy, Debug, PartialEq, Eq, Structural)]
pub enum TargetKeys {
    UpArrow,
    DownArrow,
    LeftArrow,
    RightArrow,
    Enter,
    Other,
}

/// What a key press leads to.
#[derive(Clone, Copy, Debug, PartialEq, Eq, Structural)]
pub enum KeyAction {
    /// The picker is hidden.
    Hide,
    /// The picker is told of the key.
    Emit(TargetKeys),
}

impl TargetKeys {
    /// The key with the macOS virtual key code `keycode`.
    pub open spec fn of_macos(keycode: i64) -> TargetKeys {
        if keycode == 126 {
            TargetKeys::UpArrow
        } else if keycode == 125 {
            TargetKeys::DownArrow
        } else if keycode == 123 {
            TargetKeys::LeftArrow
        } else if keycode == 124 {
            TargetKeys::RightArrow
        } else if keycode == 36 {
            TargetKeys::Enter
        } else {
            TargetKeys::Other
        }
    }

    /// The key with the Windows virtual key code `code`.
    pub open spec fn of_windows(code: u16) -> TargetKeys {
        if code == 0x0D {
            TargetKeys::Enter
        } else if code == 0x25 {
            TargetKeys::LeftArrow
        } else if code == 0x27 {
            TargetKeys::RightArrow
        } else if code == 0x26 {
            TargetKeys::UpArrow
        } else if code == 0x28 {
            TargetKeys::DownArrow
        } else {
            TargetKeys::Other
        }
    }

    /// The key with the macOS virtual key code `keycode`.
    pub fn from_macos(keycode: i64) -> (key: TargetKeys)
        ensures
            key == TargetKeys::of_macos(keycode),
    {
        match keycode {
            126 => TargetKeys::UpArrow,
            125 => TargetKeys::DownArrow,
            123 => TargetKeys::LeftArrow,
            124 => TargetKeys::RightArrow,
            36 => TargetKeys::Enter,
            _ => TargetKeys::Other,
        }
    }

    /// The key with the Windows virtual key code `code`.
    pub fn from_windows(code: u16) -> (key: TargetKeys)
        ensures
            key == TargetKeys::of_windows(code),
    {
        match code {
            0x0D => TargetKeys::Enter,
            0x25 => TargetKeys::LeftArrow,
            0x27 => TargetKeys::RightArrow,
            0x26 => TargetKeys::UpArrow,
            0x28 => TargetKeys::DownArrow,
            _ => TargetKeys::Other,
        }
    }

    /// Whether the picker keeps the key from the application below it:
    /// it keeps every key that it tells apart.
    pub fn is_captured(&self) -> (captured: bool)
        ensures
            captured == !(self is Other),
    {
        match self {
            TargetKeys::Other => false,
            _ => true,
        }
    }
}

/// What pressing `key` leads to: any key that the picker does not take for
/// itself hides it, and the picker is told of each of the others.
pub fn handle_key(key: TargetKeys) -> (action: KeyAction)
    ensures
        action == if key is Other {
            KeyAction::Hide
        } else {
            KeyAction::Emit(key)
        },
{
    match key {
        TargetKeys::Other => KeyAction::Hide,
        _ => KeyAction::Emit(key),
    }
}

} // verus!
