use linear_wireless::direction::Direction;
use linear_wireless::encoder::{Encoder, EncoderState, Rotation};
use linear_wireless::errors::NeaError;

const ALL_STATES: [EncoderState; 8] = [
    EncoderState::Locked,
    EncoderState::TurnRightStart,
    EncoderState::TurnRightMiddle,
    EncoderState::TurnRightEnd,
    EncoderState::TurnLeftStart,
    EncoderState::TurnLeftMiddle,
    EncoderState::TurnLeftEnd,
    EncoderState::Undecided,
];

const READINGS: [(bool, bool); 4] = [(false, false), (true, false), (false, true), (true, true)];

fn mirror(s: EncoderState) -> EncoderState {
    match s {
        EncoderState::Locked => EncoderState::Locked,
        EncoderState::TurnRightStart => EncoderState::TurnLeftStart,
        EncoderState::TurnRightMiddle => EncoderState::TurnLeftMiddle,
        EncoderState::TurnRightEnd => EncoderState::TurnLeftEnd,
        EncoderState::TurnLeftStart => EncoderState::TurnRightStart,
        EncoderState::TurnLeftMiddle => EncoderState::TurnRightMiddle,
        EncoderState::TurnLeftEnd => EncoderState::TurnRightEnd,
        EncoderState::Undecided => EncoderState::Undecided,
    }
}

fn feed(e: &mut Encoder, readings: &[(bool, bool)]) -> Vec<Rotation> {
    e.feed(readings).into_iter().flatten().collect()
}

#[test]
fn a_led_cycle_counts_one_counter_clockwise_click() {
    let mut e = Encoder::new();
    let clicks = feed(&mut e, &[(true, false), (true, true), (false, true), (false, false)]);
    assert_eq!(clicks, vec![Rotation::CounterClockwise]);
    assert_eq!(e.state, EncoderState::Locked);
    assert_eq!(e.count, -1);
}

#[test]
fn b_led_cycle_counts_one_clockwise_click() {
    let mut e = Encoder::new();
    let clicks = feed(&mut e, &[(false, true), (true, true), (true, false), (false, false)]);
    assert_eq!(clicks, vec![Rotation::Clockwise]);
    assert_eq!(e.count, 1);
}

#[test]
fn intermediate_steps_report_nothing() {
    let mut e = Encoder::new();
    assert_eq!(e.update(true, false), None);
    assert_eq!(e.state, EncoderState::TurnRightStart);
    assert_eq!(e.update(true, true), None);
    assert_eq!(e.state, EncoderState::TurnRightMiddle);
    assert_eq!(e.update(false, true), None);
    assert_eq!(e.state, EncoderState::TurnRightEnd);
    assert_eq!(e.count, 0);
}

#[test]
fn aborted_turn_reports_nothing() {
    let mut e = Encoder::new();
    let clicks = feed(&mut e, &[(true, false), (false, false)]);
    assert!(clicks.is_empty());
    assert_eq!(e.count, 0);
}

#[test]
fn bouncing_back_and_forth_counts_net_clicks() {
    let mut e = Encoder::new();
    let cw = [(false, true), (true, true), (true, false), (false, false)];
    let ccw = [(true, false), (true, true), (false, true), (false, false)];
    feed(&mut e, &cw);
    feed(&mut e, &cw);
    feed(&mut e, &ccw);
    feed(&mut e, &cw);
    assert_eq!(e.count, 2);
}

#[test]
fn rests_exactly_when_released() {
    for s in ALL_STATES {
        for (a, b) in READINGS {
            let (next, _) = s.step(a, b);
            assert_eq!(next == EncoderState::Locked, !a && !b);
        }
    }
}

#[test]
fn swapping_pins_mirrors_the_decoder() {
    for s in ALL_STATES {
        for (a, b) in READINGS {
            let (next, click) = s.step(a, b);
            let (m_next, m_click) = mirror(s).step(b, a);
            assert_eq!(m_next, mirror(next));
            let reversed = click.map(|r| match r {
                Rotation::Clockwise => Rotation::CounterClockwise,
                Rotation::CounterClockwise => Rotation::Clockwise,
            });
            assert_eq!(m_click, reversed);
        }
    }
}

#[test]
fn undecided_resolves_by_the_pin_released_first() {
    assert_eq!(EncoderState::Undecided.step(false, true), (EncoderState::TurnRightEnd, None));
    assert_eq!(EncoderState::Undecided.step(true, false), (EncoderState::TurnLeftEnd, None));
    assert_eq!(EncoderState::Locked.step(true, true), (EncoderState::Undecided, None));
}

#[test]
fn clicks_map_to_motor_directions() {
    assert_eq!(Rotation::Clockwise.direction(), Direction::Right);
    assert_eq!(Rotation::CounterClockwise.direction(), Direction::Left);
}

#[test]
fn checked_update_refuses_overflow() {
    let mut e = Encoder { state: EncoderState::TurnLeftEnd, count: i32::MAX };
    assert!(matches!(e.checked_update(false, false), Err(NeaError::IntegerOverflow)));
    assert_eq!(e.state, EncoderState::TurnLeftEnd);
    assert_eq!(e.count, i32::MAX);

    let mut e = Encoder { state: EncoderState::TurnRightMiddle, count: i32::MIN };
    assert!(matches!(e.checked_update(false, false), Err(NeaError::IntegerOverflow)));
    assert_eq!(e.count, i32::MIN);

    let mut e = Encoder { state: EncoderState::TurnRightMiddle, count: i32::MAX };
    assert_eq!(e.checked_update(false, false).ok(), Some(Some(Rotation::CounterClockwise)));
    assert_eq!(e.count, i32::MAX - 1);
    assert_eq!(e.state, EncoderState::Locked);
}

#[test]
fn feed_reports_each_click_at_its_reading() {
    let mut e = Encoder::new();
    let clicks = e.feed(&[(true, false), (true, true), (false, true), (false, false), (false, true)]);
    assert_eq!(clicks, vec![None, None, None, Some(Rotation::CounterClockwise), None]);
    assert_eq!(e.state, EncoderState::TurnLeftStart);
    assert_eq!(e.count, -1);
}

#[test]
fn release_resets_the_decoder() {
    let after = [(false, true), (true, true), (true, false), (false, false), (true, false)];
    let mut fresh = Encoder::new();
    let fresh_clicks = fresh.feed(&after);
    for start in [EncoderState::TurnRightMiddle, EncoderState::TurnLeftEnd, EncoderState::Undecided] {
        let mut e = Encoder { state: start, count: 0 };
        let mut readings = vec![(true, true), (false, true)];
        readings.push((false, false));
        readings.extend_from_slice(&after);
        let clicks = e.feed(&readings);
        assert_eq!(&clicks[3..], &fresh_clicks[..]);
        assert_eq!(e.state, fresh.state);
    }
}

#[test]
fn swapping_pins_mirrors_a_whole_run() {
    let readings = [(true, false), (true, true), (false, true), (false, false), (false, true), (true, true), (true, false), (false, false), (true, true), (false, false)];
    let swapped: Vec<(bool, bool)> = readings.iter().map(|&(a, b)| (b, a)).collect();
    for s in ALL_STATES {
        let mut e = Encoder { state: s, count: 0 };
        let mut m = Encoder { state: mirror(s), count: 0 };
        for (r, w) in readings.iter().zip(swapped.iter()) {
            let c = e.update(r.0, r.1);
            let mc = m.update(w.0, w.1);
            let reversed = c.map(|r| match r {
                Rotation::Clockwise => Rotation::CounterClockwise,
                Rotation::CounterClockwise => Rotation::Clockwise,
            });
            assert_eq!(mc, reversed);
            assert_eq!(m.count, -e.count);
            assert_eq!(m.state, mirror(e.state));
        }
    }
}

#[test]
fn decode_reports_each_click_at_its_reading() {
    let (end, clicks) = EncoderState::Locked.decode(&[(false, true), (true, true), (true, false), (false, false), (true, false), (false, false)]);
    assert_eq!(clicks, vec![None, None, None, Some(Rotation::Clockwise), None, None]);
    assert_eq!(end, EncoderState::Locked);
    let (end, clicks) = EncoderState::TurnLeftMiddle.decode(&[(false, false)]);
    assert_eq!(clicks, vec![Some(Rotation::Clockwise)]);
    assert_eq!(end, EncoderState::Locked);
    let (end, clicks) = EncoderState::Undecided.decode(&[]);
    assert!(clicks.is_empty());
    assert_eq!(end, EncoderState::Undecided);
}

#[test]
fn one_pin_pressed_alone_sends_nothing() {
    let mut e = Encoder::new();
    assert_eq!(e.feed(&[(true, false), (false, false)]), vec![None, None]);
    assert_eq!(e.feed(&[(false, true), (false, false), (false, true), (false, false)]), vec![None, None, None, None]);
    assert_eq!(e.count, 0);
    assert_eq!(e.state, EncoderState::Locked);
}

#[test]
fn clicks_only_after_a_turn_under_way() {
    let readings = [(false, false), (false, false), (true, false), (true, true), (false, true), (false, false), (false, false), (true, true), (false, false)];
    let (_, clicks) = EncoderState::Locked.decode(&readings);
    for (i, c) in clicks.iter().enumerate() {
        if c.is_some() {
            assert_eq!(readings[i], (false, false));
            assert!(i > 0);
            assert_ne!(readings[i - 1], (false, false));
        }
    }
    assert_eq!(clicks.iter().filter(|c| c.is_some()).count(), 1);
}
