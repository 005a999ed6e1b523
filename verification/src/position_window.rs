//! Where the picker goes: near the caret or the cursor, and within the
//! monitor that shows it.

use vstd::prelude::*;

verus! {

/// A point in logical pixels.
#[derive(Clone, Copy, Debug, PartialEq, Eq, Structural)]
pub struct LogicalPosition {
    pub x: i32,
    pub y: i32,
}

/// The size of a window in logical pixels.
#[derive(Clone, Copy, Debug, PartialEq, Eq, Structural)]
pub struct LogicalSize {
    pub width: u32,
    pub height: u32,
}

/// The place and size of a monitor in logical pixels.
#[derive(Clone, Copy, Debug, PartialEq, Eq, Structural)]
pub struct MonitorArea {
    pub position: LogicalPosition,
    pub width: i32,
    pub height: i32,
}

/// `at`, moved back by `back` where it lies beyond `limit`.
pub open spec fn flipped(at: int, limit: int, back: int) -> int {
    if at > limit {
        at - back
    } else {
        at
    }
}

/// `at`, or the nearest of `low` and `high` where it lies outside them.
pub open spec fn clamped(at: int, low: int, high: int) -> int {
    if at < low {
        low
    } else if at > high {
        high
    } else {
        at
    }
}

/// Whether a number is one that 32 signed bits hold.
pub open spec fn in_range(n: int) -> bool {
    i32::MIN <= n <= i32::MAX
}

/// Whether, along one axis, a window of `size` can be placed on a monitor
/// that starts at `start` and is `extent` long: the window is no longer
/// than the monitor, and no step of the placing leaves the range of the
/// coordinates.
pub open spec fn placeable(at: int, size: int, start: int, extent: int, back: int) -> bool {
    &&& in_range(start + extent)
    &&& in_range(start + extent - size)
    &&& start <= start + extent - size
    &&& at > start + extent - size ==> in_range(at - back)
}

/// The place along one axis of a window of `size` that is wanted at `at`,
/// on a monitor that starts at `start` and is `extent` long. A window that
/// would reach beyond the monitor's end is moved back by `back`, and is
/// then kept within the monitor.
pub open spec fn placed(at: int, size: int, start: int, extent: int, back: int) -> int {
    clamped(flipped(at, start + extent - size, back), start, start + extent - size)
}

fn place(at: i32, size: i32, start: i32, extent: i32, back: i32) -> (out: Option<i32>)
    ensures
        out is Some == placeable(at as int, size as int, start as int, extent as int, back as int),
        out matches Some(p) ==> p == placed(
            at as int,
            size as int,
            start as int,
            extent as int,
            back as int,
        ),
{
    let end: i64 = start as i64 + extent as i64;
    let limit: i64 = end - size as i64;
    if end < i32::MIN as i64 || end > i32::MAX as i64 || limit < i32::MIN as i64 || limit
        > i32::MAX as i64 || limit < start as i64 {
        return None;
    }
    let moved: i64 = if at as i64 > limit {
        at as i64 - back as i64
    } else {
        at as i64
    };
    if moved < i32::MIN as i64 || moved > i32::MAX as i64 {
        return None;
    }
    if moved < start as i64 {
        Some(start)
    } else if moved > limit {
        Some(limit as i32)
    } else {
        Some(moved as i32)
    }
}

/// The width or height `n` of a window as a signed number, as a cast
/// gives it.
pub open spec fn signed(n: u32) -> int {
    n as i32 as int
}

/// Whether a window of `window_size` that is wanted at `window_position`
/// can be placed on `monitor`: along both axes, and with a `flip_height`
/// that can be added to the window's height.
pub open spec fn fits_monitor(
    window_position: LogicalPosition,
    window_size: LogicalSize,
    monitor: MonitorArea,
    flip_height: u32,
) -> bool {
    &&& flip_height + window_size.height <= u32::MAX
    &&& placeable(
        window_position.x as int,
        signed(window_size.width),
        monitor.position.x as int,
        monitor.width as int,
        signed(window_size.width),
    )
    &&& placeable(
        window_position.y as int,
        signed(window_size.height),
        monitor.position.y as int,
        monitor.height as int,
        signed((flip_height + window_size.height) as u32),
    )
}

/// The position for a window of `window_size` that is wanted at
/// `window_position`, on `monitor`. A window that would reach beyond the
/// right edge is moved left by its width; one that would reach beyond the
/// bottom is moved up by its height and by `flip_height`, the height of
/// what it is placed beside. Then the window is kept within the monitor.
/// There is no position for a window that does not fit the monitor.
pub fn clamp_position_to_monitor(
    window_position: LogicalPosition,
    window_size: LogicalSize,
    monitor: MonitorArea,
    flip_height: u32,
) -> (position: Option<LogicalPosition>)
    ensures
        position is Some == fits_monitor(window_position, window_size, monitor, flip_height),
        position matches Some(p) ==> p.x == placed(
            window_position.x as int,
            signed(window_size.width),
            monitor.position.x as int,
            monitor.width as int,
            signed(window_size.width),
        ) && p.y == placed(
            window_position.y as int,
            signed(window_size.height),
            monitor.position.y as int,
            monitor.height as int,
            signed((flip_height + window_size.height) as u32),
        ),
{
    if flip_height > u32::MAX - window_size.height {
        return None;
    }
    let width = #[verifier::truncate]
    (window_size.width as i32);
    let height = #[verifier::truncate]
    (window_size.height as i32);
    let back = #[verifier::truncate]
    ((flip_height + window_size.height) as i32);
    let x = place(window_position.x, width, monitor.position.x, monitor.width, width);
    let y = place(window_position.y, height, monitor.position.y, monitor.height, back);
    match (x, y) {
        (Some(x), Some(y)) => Some(LogicalPosition { x, y }),
        _ => None,
    }
}

/// Whether a caret reported at `position` is one that can be seen: a
/// caret at the origin stands for none.
pub fn caret_is_visible(position: LogicalPosition) -> (visible: bool)
    ensures
        visible == !(position.x == 0 && position.y == 0),
{
    !(position.x == 0 && position.y == 0)
}

} // verus!
