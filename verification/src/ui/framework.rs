//! What the views share: the keys they are sent, and the moves that some keys
//! stand for.

use vstd::prelude::*;

verus! {

/// A key of the terminal, as far as the views tell keys apart.
#[derive(Clone, Copy, Debug, PartialEq, Eq, Structural)]
pub enum Key {
    /// The left arrow.
    Left,
    /// The right arrow.
    Right,
    /// The up arrow.
    Up,
    /// The down arrow.
    Down,
    /// The escape key.
    Esc,
    /// The key of a character; the return key is that of the newline.
    Char(char),
    /// Any other key.
    Other,
}

/// A move to the left or to the right.
#[derive(Clone, Copy, Debug, PartialEq, Eq, Structural)]
pub enum HorizontalMove {
    /// To the left.
    Left,
    /// To the right.
    Right,
}

/// A move up or down.
#[derive(Clone, Copy, Debug, PartialEq, Eq, Structural)]
pub enum VerticalMove {
    /// Up.
    Up,
    /// Down.
    Down,
}

impl HorizontalMove {
    /// The move that `key` stands for: the two horizontal arrows do.
    pub open spec fn of_key(key: Key) -> Option<HorizontalMove> {
        match key {
            Key::Left => Some(HorizontalMove::Left),
            Key::Right => Some(HorizontalMove::Right),
            _ => None,
        }
    }

    /// The move that `key` stands for, if it stands for one.
    pub fn from(key: &Key) -> (step: Option<HorizontalMove>)
        ensures
            step == HorizontalMove::of_key(*key),
    {
        match key {
            Key::Left => Some(HorizontalMove::Left),
            Key::Right => Some(HorizontalMove::Right),
            _ => None,
        }
    }
}

impl VerticalMove {
    /// The move that `key` stands for: the two vertical arrows do.
    pub open spec fn of_key(key: Key) -> Option<VerticalMove> {
        match key {
            Key::Up => Some(VerticalMove::Up),
            Key::Down => Some(VerticalMove::Down),
            _ => None,
        }
    }

    /// The move that `key` stands for, if it stands for one.
    pub fn from(key: &Key) -> (step: Option<VerticalMove>)
        ensures
            step == VerticalMove::of_key(*key),
    {
        match key {
            Key::Up => Some(VerticalMove::Up),
            Key::Down => Some(VerticalMove::Down),
            _ => None,
        }
    }
}

} // verus!
