use linear_wireless::colour::Colour;
use linear_wireless::direction::Direction;
use linear_wireless::led::{leds_to_toggle, Button, Led};
use linear_wireless::motor::{motors_to_toggle, Motor};
use linear_wireless::peer::{should_add_peer, BROADCAST_ADDRESS};

#[test]
fn led_message_toggles_matching_leds() {
    let leds = [Led::new(4u8, Colour::Red), Led::new(3u8, Colour::Yellow), Led::new(2u8, Colour::Blue)];
    assert_eq!(leds_to_toggle(&leds, 0), vec![true, false, false]);
    assert_eq!(leds_to_toggle(&leds, 1), vec![false, true, false]);
    assert_eq!(leds_to_toggle(&leds, 2), vec![false, false, true]);
    assert_eq!(leds_to_toggle(&leds, 3), vec![false, false, false]);
    assert_eq!(leds_to_toggle(&leds, 255), vec![false, false, false]);
}

#[test]
fn led_message_toggles_every_led_of_the_colour() {
    let leds = [Led::new((), Colour::Blue), Led::new((), Colour::Red), Led::new((), Colour::Blue)];
    assert_eq!(leds_to_toggle(&leds, 2), vec![true, false, true]);
    let none: [Led<()>; 0] = [];
    assert!(leds_to_toggle(&none, 2).is_empty());
}

#[test]
fn constructors_keep_their_arguments() {
    let led = Led::new(7u8, Colour::Yellow);
    assert_eq!(led.pin, 7);
    assert_eq!(led.colour, Colour::Yellow);
    let button = Button::new(6u8, Colour::Red);
    assert_eq!(button.pin, 6);
    assert_eq!(button.colour.to_u8(), 0);
    let motor = Motor::new(10u8, Direction::Right);
    assert_eq!(motor.pin, 10);
    assert_eq!(motor.direction, Direction::Right);
    let button = linear_wireless::motor::Button::new(3u8, Direction::Left);
    assert_eq!(button.direction, Direction::Left);
}

#[test]
fn motor_message_toggles_matching_motor() {
    let motors = [Motor::new(10u8, Direction::Left), Motor::new(3u8, Direction::Right)];
    assert_eq!(motors_to_toggle(&motors, 0), vec![true, false]);
    assert_eq!(motors_to_toggle(&motors, 1), vec![false, true]);
    assert_eq!(motors_to_toggle(&motors, 2), vec![false, false]);
}

#[test]
fn broadcast_from_unknown_sender_adds_peer() {
    assert!(should_add_peer(&BROADCAST_ADDRESS, false));
    assert!(!should_add_peer(&BROADCAST_ADDRESS, true));
    assert!(!should_add_peer(&[0xff, 0xff, 0xff, 0xff, 0xff, 0xfe], false));
    assert!(!should_add_peer(&[0x24, 0x0a, 0xc4, 0x01, 0x02, 0x03], false));
    assert_eq!(BROADCAST_ADDRESS, [0xff; 6]);
}
