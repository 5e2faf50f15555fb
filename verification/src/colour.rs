use vstd::prelude::*;

verus! {

/// ANSI escape sequences used when a colour is displayed.
pub const RESET: &'static str = "\u{001B}[0m";
pub const RED: &'static str = "\u{001B}[31m";
pub const YELLOW: &'static str = "\u{001B}[33m";
pub const BLUE: &'static str = "\u{001B}[36m";

/// The colour of an LED and of the button that toggles it. On the air a
/// colour travels as a single byte: `Red` is 0, `Yellow` 1, `Blue` 2.
#[derive(Clone, Copy, Debug, PartialEq, Eq, Structural)]
pub enum Colour {
    Red,
    Yellow,
    Blue,
}

/// The byte that stands for a colour.
pub open spec fn colour_code(c: Colour) -> u8 {
    match c {
        Colour::Red => 0,
        Colour::Yellow => 1,
        Colour::Blue => 2,
    }
}

/// The colour a byte stands for, if any.
pub open spec fn colour_of_code(value: u8) -> Option<Colour> {
    if value == 0 {
        Some(Colour::Red)
    } else if value == 1 {
        Some(Colour::Yellow)
    } else if value == 2 {
        Some(Colour::Blue)
    } else {
        None
    }
}

/// The text a colour is displayed as: its name wrapped in its own ANSI colour.
pub open spec fn colour_text(c: Colour) -> Seq<char> {
    match c {
        Colour::Red => RED@ + "Red"@ + RESET@,
        Colour::Yellow => YELLOW@ + "Yellow"@ + RESET@,
        Colour::Blue => BLUE@ + "Blue"@ + RESET@,
    }
}

impl Colour {
    /// Every colour, in the order in which the buttons are laid out.
    pub const ALL: [Colour; 3] = [Colour::Red, Colour::Blue, Colour::Yellow];

    /// Decodes a message byte; bytes other than 0, 1 and 2 name no colour.
    pub fn from_u8(value: u8) -> (r: Option<Colour>)
        ensures
            r == colour_of_code(value),
            r is Some <==> value < 3,
    {
        match value {
            0 => Some(Colour::Red),
            1 => Some(Colour::Yellow),
            2 => Some(Colour::Blue),
            _ => None,
        }
    }

    /// Encodes the colour as its message byte.
    pub fn to_u8(&self) -> (r: u8)
        ensures
            r == colour_code(*self),
            r < 3,
    {
        match self {
            Colour::Red => 0,
            Colour::Yellow => 1,
            Colour::Blue => 2,
        }
    }

    /// The colour's display text: its name between its ANSI colour and a reset.
    pub fn to_string(&self) -> (s: String)
        ensures
            s@ == colour_text(*self),
    {
        let (code, name) = match self {
            Colour::Red => (RED, "Red"),
            Colour::Yellow => (YELLOW, "Yellow"),
            Colour::Blue => (BLUE, "Blue"),
        };
        let mut s = String::from_str(code);
        s.append(name);
        s.append(RESET);
        s
    }
}

/// Decoding undoes encoding: every colour comes back from its own byte.
pub proof fn lemma_colour_round_trip(c: Colour)
    ensures
        colour_of_code(colour_code(c)) == Some(c),
{
}

/// Encoding undoes decoding: a byte that names a colour is that colour's byte.
pub proof fn lemma_colour_code_round_trip(value: u8)
    ensures
        colour_of_code(value) matches Some(c) ==> colour_code(c) == value,
{
}

/// `Colour::ALL` lists every colour exactly once.
pub proof fn lemma_all_colours_listed(c: Colour)
    ensures
        exists|i: int| 0 <= i < 3 && Colour::ALL@[i] == c,
        forall|i: int, j: int| 0 <= i < j < 3 ==> Colour::ALL@[i] != Colour::ALL@[j],
{
    match c {
        Colour::Red => assert(Colour::ALL@[0] == c),
        Colour::Blue => assert(Colour::ALL@[1] == c),
        Colour::Yellow => assert(Colour::ALL@[2] == c),
    }
}

} // verus!
