use vstd::prelude::*;

use crate::direction::{direction_of_code, Direction};

verus! {

/// A motor driven from an output pin, with the direction it answers to.
pub struct Motor<Pin> {
    pub pin: Pin,
    pub direction: Direction,
}

impl<Pin> Motor<Pin> {
    pub fn new(pin: Pin, direction: Direction) -> (motor: Self)
        ensures
            motor.pin == pin,
            motor.direction == direction,
    {
        Self { pin, direction }
    }
}

/// A push button on an input pin, with the direction whose byte it sends.
pub struct Button<Pin> {
    pub pin: Pin,
    pub direction: Direction,
}

impl<Pin> Button<Pin> {
    pub fn new(pin: Pin, direction: Direction) -> (button: Self)
        ensures
            button.pin == pin,
            button.direction == direction,
    {
        Self { pin, direction }
    }
}

/// Which of the motors a received message byte toggles: those whose
/// direction the byte names. A byte that names no direction toggles none.
pub fn motors_to_toggle<Pin>(motors: &[Motor<Pin>], message: u8) -> (toggle: Vec<bool>)
    ensures
        toggle@.len() == motors@.len(),
        forall|i: int|
            0 <= i < motors@.len() ==> toggle@[i] == (direction_of_code(message) == Some(
                motors@[i].direction,
            )),
{
    let decoded = Direction::from_u8(message);
    let mut toggle: Vec<bool> = Vec::new();
    for i in 0..motors.len()
        invariant
            decoded == direction_of_code(message),
            toggle@.len() == i,
            forall|j: int|
                0 <= j < i ==> toggle@[j] == (direction_of_code(message) == Some(
                    motors@[j].direction,
                )),
    {
        let hit = match decoded {
            Some(d) => d == motors[i].direction,
            None => false,
        };
        toggle.push(hit);
    }
    toggle
}

} // verus!
