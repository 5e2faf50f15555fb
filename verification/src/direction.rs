use vstd::prelude::*;

verus! {

/// ANSI escape sequences used when a direction is displayed.
pub const RESET: &'static str = "\u{001B}[0m";
pub const RED: &'static str = "\u{001B}[31m";
pub const BLUE: &'static str = "\u{001B}[36m";

/// The motor a message is meant for. On the air a direction travels as a
/// single byte: `Left` is 0, `Right` 1.
#[derive(Clone, Copy, Debug, PartialEq, Eq, Structural)]
pub enum Direction {
    Left,
    Right,
}

/// The byte that stands for a direction.
pub open spec fn direction_code(d: Direction) -> u8 {
    match d {
        Direction::Left => 0,
        Direction::Right => 1,
    }
}

/// The direction a byte stands for, if any.
pub open spec fn direction_of_code(value: u8) -> Option<Direction> {
    if value == 0 {
        Some(Direction::Left)
    } else if value == 1 {
        Some(Direction::Right)
    } else {
        None
    }
}

/// The text a direction is displayed as: `Left` in red, `Right` in blue.
pub open spec fn direction_text(d: Direction) -> Seq<char> {
    match d {
        Direction::Left => RED@ + "Left"@ + RESET@,
        Direction::Right => BLUE@ + "Right"@ + RESET@,
    }
}

impl Direction {
    /// Decodes a message byte; bytes other than 0 and 1 name no direction.
    pub fn from_u8(value: u8) -> (r: Option<Direction>)
        ensures
            r == direction_of_code(value),
            r is Some <==> value < 2,
    {
        match value {
            0 => Some(Direction::Left),
            1 => Some(Direction::Right),
            _ => None,
        }
    }

    /// Encodes the direction as its message byte.
    pub fn to_u8(&self) -> (r: u8)
        ensures
            r == direction_code(*self),
            r < 2,
    {
        match self {
            Direction::Left => 0,
            Direction::Right => 1,
        }
    }

    /// The direction's display text: its name between its ANSI colour and a reset.
    pub fn to_string(&self) -> (s: String)
        ensures
            s@ == direction_text(*self),
    {
        let (code, name) = match self {
            Direction::Left => (RED, "Left"),
            Direction::Right => (BLUE, "Right"),
        };
        let mut s = String::from_str(code);
        s.append(name);
        s.append(RESET);
        s
    }
}

/// Decoding undoes encoding: every direction comes back from its own byte.
pub proof fn lemma_direction_round_trip(d: Direction)
    ensures
        direction_of_code(direction_code(d)) == Some(d),
{
}

/// Encoding undoes decoding: a byte that names a direction is that direction's byte.
pub proof fn lemma_direction_code_round_trip(value: u8)
    ensures
        direction_of_code(value) matches Some(d) ==> direction_code(d) == value,
{
}

} // verus!
