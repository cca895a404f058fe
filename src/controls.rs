//! Keyboard input.
use vstd::prelude::*;

use crate::board::Direction;

verus! {

/// The direction that the X11 keycode `key` asks for: the arrow keys of a
/// standard keyboard, 111 up, 113 left, 114 right and 116 down.
pub open spec fn key_direction(key: u8) -> Option<Direction> {
    if key == 111 {
        Some(Direction::Up)
    } else if key == 113 {
        Some(Direction::Left)
    } else if key == 114 {
        Some(Direction::Right)
    } else if key == 116 {
        Some(Direction::Down)
    } else {
        None
    }
}

/// The direction that the keycode `key` asks for, or `None` for a key that
/// steers nothing.
pub fn direction_for_key(key: u8) -> (d: Option<Direction>)
    ensures
        d == key_direction(key),
{
    match key {
        111 => Some(Direction::Up),
        113 => Some(Direction::Left),
        114 => Some(Direction::Right),
        116 => Some(Direction::Down),
        _ => None,
    }
}

} // verus!
