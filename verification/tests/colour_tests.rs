use linear_wireless::colour::Colour;
use linear_wireless::direction::Direction;

#[test]
fn test_colours() {
    assert_eq!(Colour::Red.to_u8(), 0);
    assert_eq!(Colour::Yellow.to_u8(), 1);
    assert_eq!(Colour::Blue.to_u8(), 2);
    assert_eq!(Colour::from_u8(0), Some(Colour::Red));
    assert_eq!(Colour::from_u8(1), Some(Colour::Yellow));
    assert_eq!(Colour::from_u8(2), Some(Colour::Blue));
    assert_eq!(Colour::from_u8(3), None);
}

#[test]
fn test_input() {
    assert_eq!(Direction::from_u8(0), Some(Direction::Left));
    assert_eq!(Direction::from_u8(1), Some(Direction::Right));
    assert_eq!(Direction::from_u8(2), None);
    assert_eq!(Direction::Left.to_u8(), 0);
    assert_eq!(Direction::Right.to_u8(), 1);
}

#[test]
fn colour_bytes_round_trip() {
    for c in Colour::ALL {
        assert_eq!(Colour::from_u8(c.to_u8()), Some(c));
    }
    for b in 0..=255u8 {
        match Colour::from_u8(b) {
            Some(c) => assert_eq!(c.to_u8(), b),
            None => assert!(b >= 3),
        }
    }
}

#[test]
fn colour_list_holds_each_colour_once() {
    assert_eq!(Colour::ALL, [Colour::Red, Colour::Blue, Colour::Yellow]);
}

#[test]
fn colour_display_text() {
    assert_eq!(Colour::Red.to_string(), "\u{1b}[31mRed\u{1b}[0m");
    assert_eq!(Colour::Yellow.to_string(), "\u{1b}[33mYellow\u{1b}[0m");
    assert_eq!(Colour::Blue.to_string(), "\u{1b}[36mBlue\u{1b}[0m");
}

#[test]
fn direction_bytes_round_trip() {
    for d in [Direction::Left, Direction::Right] {
        assert_eq!(Direction::from_u8(d.to_u8()), Some(d));
    }
    for b in 0..=255u8 {
        match Direction::from_u8(b) {
            Some(d) => assert_eq!(d.to_u8(), b),
            None => assert!(b >= 2),
        }
    }
}

#[test]
fn direction_display_text() {
    assert_eq!(Direction::Left.to_string(), "\u{1b}[31mLeft\u{1b}[0m");
    assert_eq!(Direction::Right.to_string(), "\u{1b}[36mRight\u{1b}[0m");
}
