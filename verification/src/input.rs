//! What the player pressed, as far as the game distinguishes keys.

use crate::hex_coordinates::Direction;
use vstd::prelude::*;

verus! {

/// A key of the keyboard.
#[derive(Clone, Copy, Debug, PartialEq, Eq, Structural)]
pub enum Key {
    /// A letter by its place in the alphabet, `A` being 0.
    Letter(u8),
    Tab,
    Space,
    Return,
    Escape,
    Other,
}

/// The key that was pressed, if any, and the modifiers held with it.
#[derive(Clone, Copy, Debug, PartialEq, Eq, Structural)]
pub struct Input {
    pub key: Option<Key>,
    pub control: bool,
    pub shift: bool,
}

pub const KEY_A: u8 = 0;

pub const KEY_D: u8 = 3;

pub const KEY_E: u8 = 4;

pub const KEY_G: u8 = 6;

pub const KEY_Q: u8 = 16;

pub const KEY_S: u8 = 18;

pub const KEY_W: u8 = 22;

pub const KEY_X: u8 = 23;

/// The direction that a movement key stands for: `Q W E` point north-west,
/// north and north-east, `A S D` south-west, south and south-east.
pub open spec fn direction_of(key: Key) -> Option<Direction> {
    match key {
        Key::Letter(letter) => if letter == KEY_Q {
            Some(Direction::NorthWest)
        } else if letter == KEY_W {
            Some(Direction::North)
        } else if letter == KEY_E {
            Some(Direction::NorthEast)
        } else if letter == KEY_A {
            Some(Direction::SouthWest)
        } else if letter == KEY_S {
            Some(Direction::South)
        } else if letter == KEY_D {
            Some(Direction::SouthEast)
        } else {
            None
        },
        _ => None,
    }
}

/// The inventory slot that a letter stands for: its place in the
/// alphabet. Other keys stand for none.
pub open spec fn slot_of_key(key: Key) -> Option<int> {
    match key {
        Key::Letter(letter) => if letter < 26 {
            Some(letter as int)
        } else {
            None
        },
        _ => None,
    }
}

impl Key {
    /// The direction that the key stands for, if it is a movement key.
    pub fn direction(self) -> (d: Option<Direction>)
        ensures
            d == direction_of(self),
    {
        match self {
            Key::Letter(letter) => {
                if letter == KEY_Q {
                    Some(Direction::NorthWest)
                } else if letter == KEY_W {
                    Some(Direction::North)
                } else if letter == KEY_E {
                    Some(Direction::NorthEast)
                } else if letter == KEY_A {
                    Some(Direction::SouthWest)
                } else if letter == KEY_S {
                    Some(Direction::South)
                } else if letter == KEY_D {
                    Some(Direction::SouthEast)
                } else {
                    None
                }
            },
            _ => None,
        }
    }

    /// The inventory slot that the key stands for, if it is a letter.
    pub fn letter_to_option(self) -> (slot: Option<usize>)
        ensures
            slot is Some <==> slot_of_key(self) is Some,
            slot is Some ==> slot.unwrap() == slot_of_key(self).unwrap(),
    {
        match self {
            Key::Letter(letter) => {
                if letter < 26 {
                    Some(letter as usize)
                } else {
                    None
                }
            },
            _ => None,
        }
    }
}

} // verus!
