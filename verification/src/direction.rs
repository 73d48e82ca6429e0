//! Directions of travel and the keys bound to them.

use vstd::prelude::*;

verus! {

/// A requested direction of travel.
#[derive(Clone, Copy, Debug, PartialEq, Eq, Structural)]
pub enum Direction {
    Up,
    Left,
    Down,
    Right,
}

impl Direction {
    /// The direction bound to a key: `w`, `a`, `s`, `d` steer up, left, down
    /// and right; every other key steers nowhere.
    pub open spec fn for_key(key: char) -> Option<Direction> {
        if key == 'w' {
            Some(Direction::Up)
        } else if key == 'a' {
            Some(Direction::Left)
        } else if key == 's' {
            Some(Direction::Down)
        } else if key == 'd' {
            Some(Direction::Right)
        } else {
            None
        }
    }

    /// Turns a pressed key into a direction request; keys without a
    /// binding yield `None` and are to be dropped by the caller.
    pub fn from_key(key: char) -> (r: Option<Direction>)
        ensures
            r == Direction::for_key(key),
    {
        match key {
            'w' => Some(Direction::Up),
            'a' => Some(Direction::Left),
            's' => Some(Direction::Down),
            'd' => Some(Direction::Right),
            _ => None,
        }
    }
}

} // verus!
