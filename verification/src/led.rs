use vstd::prelude::*;

use crate::colour::{colour_of_code, Colour};

verus! {

/// An LED on an output pin, with the colour it answers to.
pub struct Led<Pin> {
    pub pin: Pin,
    pub colour: Colour,
}

impl<Pin> Led<Pin> {
    pub fn new(pin: Pin, colour: Colour) -> (led: Self)
        ensures
            led.pin == pin,
            led.colour == colour,
    {
        Self { pin, colour }
    }
}

/// A push button on an input pin, with the colour whose byte it sends.
pub struct Button<Pin> {
    pub pin: Pin,
    pub colour: Colour,
}

impl<Pin> Button<Pin> {
    pub fn new(pin: Pin, colour: Colour) -> (button: Self)
        ensures
            button.pin == pin,
            button.colour == colour,
    {
        Self { pin, colour }
    }
}

/// Which of the LEDs a received message byte toggles: those whose colour the
/// byte names. A byte that names no colour toggles none.
pub fn leds_to_toggle<Pin>(leds: &[Led<Pin>], message: u8) -> (toggle: Vec<bool>)
    ensures
        toggle@.len() == leds@.len(),
        forall|i: int|
            0 <= i < leds@.len() ==> toggle@[i] == (colour_of_code(message) == Some(
                leds@[i].colour,
            )),
{
    let decoded = Colour::from_u8(message);
    let mut toggle: Vec<bool> = Vec::new();
    for i in 0..leds.len()
        invariant
            decoded == colour_of_code(message),
            toggle@.len() == i,
            forall|j: int|
                0 <= j < i ==> toggle@[j] == (colour_of_code(message) == Some(leds@[j].colour)),
    {
        let hit = match decoded {
            Some(c) => c == leds[i].colour,
            None => false,
        };
        toggle.push(hit);
    }
    toggle
}

} // verus!
