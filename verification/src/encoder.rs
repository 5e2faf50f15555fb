use vstd::prelude::*;

use crate::direction::Direction;
use crate::errors::NeaError;

verus! {

/// One click of a rotary encoder, as the transmitter reports it.
#[derive(Clone, Copy, Debug, PartialEq, Eq, Structural)]
pub enum Rotation {
    Clockwise,
    CounterClockwise,
}

/// Where the quadrature decoder stands between two detents. Both pins of
/// the encoder are pulled up, so at rest neither reads low (`Locked`). The
/// `TurnRight*` states follow pin A going low first, the `TurnLeft*` states
/// pin B; `Undecided` follows both going low at once.
#[derive(Clone, Copy, Debug, PartialEq, Eq, Structural)]
pub enum EncoderState {
    Locked,
    TurnRightStart,
    TurnRightMiddle,
    TurnRightEnd,
    TurnLeftStart,
    TurnLeftMiddle,
    TurnLeftEnd,
    Undecided,
}

/// The state is one of the three that follow pin A going low first.
pub open spec fn on_right_side(s: EncoderState) -> bool {
    s is TurnRightStart || s is TurnRightMiddle || s is TurnRightEnd
}

/// The state is one of the three that follow pin B going low first.
pub open spec fn on_left_side(s: EncoderState) -> bool {
    s is TurnLeftStart || s is TurnLeftMiddle || s is TurnLeftEnd
}

/// The state the decoder moves to when the pins read `a_low` and `b_low`.
///
/// Both pins high always locks. Both low keeps to the side already taken
/// (its middle), or is undecided. A alone low is the start of a right turn,
/// or the end of a left one (also out of `Undecided`); B alone low is the
/// mirror image.
pub open spec fn next_state(s: EncoderState, a_low: bool, b_low: bool) -> EncoderState {
    if !a_low && !b_low {
        EncoderState::Locked
    } else if a_low && b_low {
        if on_right_side(s) {
            EncoderState::TurnRightMiddle
        } else if on_left_side(s) {
            EncoderState::TurnLeftMiddle
        } else {
            EncoderState::Undecided
        }
    } else if a_low {
        if on_right_side(s) || s is Locked {
            EncoderState::TurnRightStart
        } else {
            EncoderState::TurnLeftEnd
        }
    } else {
        if on_left_side(s) || s is Locked {
            EncoderState::TurnLeftStart
        } else {
            EncoderState::TurnRightEnd
        }
    }
}

/// The click reported when the pins read `a_low` and `b_low` in state `s`:
/// one only on the return to rest from the middle or end of a turn. A turn
/// that began with pin A counts counter-clockwise, one that began with pin B
/// clockwise.
pub open spec fn click(s: EncoderState, a_low: bool, b_low: bool) -> Option<Rotation> {
    if !a_low && !b_low {
        match s {
            EncoderState::TurnRightMiddle | EncoderState::TurnRightEnd => Some(
                Rotation::CounterClockwise,
            ),
            EncoderState::TurnLeftMiddle | EncoderState::TurnLeftEnd => Some(Rotation::Clockwise),
            _ => None,
        }
    } else {
        None
    }
}

/// What a click adds to the running count.
pub open spec fn click_delta(r: Option<Rotation>) -> int {
    match r {
        Some(Rotation::Clockwise) => 1,
        Some(Rotation::CounterClockwise) => -1,
        None => 0,
    }
}

/// The motor direction a click is sent as: clockwise turns right.
pub open spec fn rotation_direction(r: Rotation) -> Direction {
    match r {
        Rotation::Clockwise => Direction::Right,
        Rotation::CounterClockwise => Direction::Left,
    }
}

impl Rotation {
    /// The motor direction this click is sent as.
    pub fn direction(&self) -> (d: Direction)
        ensures
            d == rotation_direction(*self),
    {
        match self {
            Rotation::Clockwise => Direction::Right,
            Rotation::CounterClockwise => Direction::Left,
        }
    }
}

impl EncoderState {
    /// The decoder run from this state over a sequence of readings, with no
    /// count kept: the state it ends in and, for each reading, the click it
    /// reports there, if any.
    pub fn decode(self, readings: &[(bool, bool)]) -> (r: (EncoderState, Vec<Option<Rotation>>))
        ensures
            r.0 == run(self, readings@).0,
            r.1@ == run(self, readings@).1,
    {
        let mut state = self;
        let mut clicks: Vec<Option<Rotation>> = Vec::new();
        proof {
            assert(readings@.take(0) =~= Seq::<(bool, bool)>::empty());
            assert(clicks@ =~= run(self, readings@.take(0)).1);
        }
        for i in 0..readings.len()
            invariant
                state == run(self, readings@.take(i as int)).0,
                clicks@ == run(self, readings@.take(i as int)).1,
        {
            let (a_low, b_low) = readings[i];
            proof {
                lemma_run_push(self, readings@.take(i as int), a_low, b_low);
                assert(readings@.take(i as int).push((a_low, b_low)) =~= readings@.take(i + 1));
            }
            let (next, click) = state.step(a_low, b_low);
            state = next;
            clicks.push(click);
        }
        proof {
            assert(readings@.take(readings@.len() as int) =~= readings@);
        }
        (state, clicks)
    }

    /// One step of the decoder on a fresh reading of the two pins (`true`
    /// where the pin reads low): the next state and the click, if any.
    pub fn step(self, a_low: bool, b_low: bool) -> (r: (EncoderState, Option<Rotation>))
        ensures
            r.0 == next_state(self, a_low, b_low),
            r.1 == click(self, a_low, b_low),
    {
        let mut click: Option<Rotation> = None;
        let next = match self {
            EncoderState::Locked => {
                if a_low && b_low {
                    EncoderState::Undecided
                } else if a_low && !b_low {
                    EncoderState::TurnRightStart
                } else if !a_low && b_low {
                    EncoderState::TurnLeftStart
                } else {
                    EncoderState::Locked
                }
            },
            EncoderState::TurnRightStart => {
                if a_low && b_low {
                    EncoderState::TurnRightMiddle
                } else if !a_low && b_low {
                    EncoderState::TurnRightEnd
                } else if a_low && !b_low {
                    EncoderState::TurnRightStart
                } else {
                    EncoderState::Locked
                }
            },
            EncoderState::TurnRightMiddle | EncoderState::TurnRightEnd => {
                if a_low && b_low {
                    EncoderState::TurnRightMiddle
                } else if !a_low && b_low {
                    EncoderState::TurnRightEnd
                } else if a_low && !b_low {
                    EncoderState::TurnRightStart
                } else {
                    click = Some(Rotation::CounterClockwise);
                    EncoderState::Locked
                }
            },
            EncoderState::TurnLeftStart => {
                if a_low && b_low {
                    EncoderState::TurnLeftMiddle
                } else if !a_low && b_low {
                    EncoderState::TurnLeftStart
                } else if a_low && !b_low {
                    EncoderState::TurnLeftEnd
                } else {
                    EncoderState::Locked
                }
            },
            EncoderState::TurnLeftMiddle | EncoderState::TurnLeftEnd => {
                if a_low && b_low {
                    EncoderState::TurnLeftMiddle
                } else if !a_low && b_low {
                    EncoderState::TurnLeftStart
                } else if a_low && !b_low {
                    EncoderState::TurnLeftEnd
                } else {
                    click = Some(Rotation::Clockwise);
                    EncoderState::Locked
                }
            },
            EncoderState::Undecided => {
                if a_low && b_low {
                    EncoderState::Undecided
                } else if !a_low && b_low {
                    EncoderState::TurnRightEnd
                } else if a_low && !b_low {
                    EncoderState::TurnLeftEnd
                } else {
                    EncoderState::Locked
                }
            },
        };
        (next, click)
    }
}

/// A rotary encoder's decoder together with the running count of clicks
/// (clockwise adds one, counter-clockwise takes one away).
///
/// The encoder's two pins are quadrature outputs, not buttons: a click is a
/// full detent, one pin going low, then both, then the other, then both
/// high again. One pin going low and back on its own is a turn abandoned
/// and reports nothing.
#[derive(Clone, Copy, Debug)]
pub struct Encoder {
    pub state: EncoderState,
    pub count: i32,
}

/// The count after a reading fits in an `i32`.
pub open spec fn count_fits(e: Encoder, a_low: bool, b_low: bool) -> bool {
    i32::MIN <= e.count + click_delta(click(e.state, a_low, b_low)) <= i32::MAX
}

impl Encoder {
    /// A decoder at rest with a count of zero.
    pub fn new() -> (e: Encoder)
        ensures
            e.state == EncoderState::Locked,
            e.count == 0,
    {
        Encoder { state: EncoderState::Locked, count: 0 }
    }

    /// Takes a reading of the two pins (`true` where the pin reads low):
    /// moves the decoder on, counts the click and returns it.
    pub fn update(&mut self, a_low: bool, b_low: bool) -> (r: Option<Rotation>)
        requires
            count_fits(*old(self), a_low, b_low),
        ensures
            r == click(old(self).state, a_low, b_low),
            final(self).state == next_state(old(self).state, a_low, b_low),
            final(self).count == old(self).count + click_delta(r),
    {
        let (next, click) = self.state.step(a_low, b_low);
        self.state = next;
        match click {
            Some(Rotation::Clockwise) => self.count = self.count + 1,
            Some(Rotation::CounterClockwise) => self.count = self.count - 1,
            None => {},
        }
        click
    }

    /// Takes a sequence of readings in order, one `update` each: the decoder
    /// ends where the run over them ends, each reading's click comes back at
    /// that reading's place, and the count moves by the clicks' net.
    pub fn feed(&mut self, readings: &[(bool, bool)]) -> (clicks: Vec<Option<Rotation>>)
        requires
            counts_fit(old(self).count as int, run(old(self).state, readings@).1),
        ensures
            final(self).state == run(old(self).state, readings@).0,
            clicks@ == run(old(self).state, readings@).1,
            final(self).count == old(self).count + net(clicks@),
    {
        let ghost s0 = self.state;
        let ghost c0 = self.count as int;
        let mut clicks: Vec<Option<Rotation>> = Vec::new();
        proof {
            assert(readings@.take(0) =~= Seq::<(bool, bool)>::empty());
            assert(clicks@ =~= run(s0, readings@.take(0)).1);
        }
        for i in 0..readings.len()
            invariant
                counts_fit(c0, run(s0, readings@).1),
                self.state == run(s0, readings@.take(i as int)).0,
                clicks@ == run(s0, readings@.take(i as int)).1,
                self.count == c0 + net(clicks@),
        {
            let (a_low, b_low) = readings[i];
            proof {
                let before = readings@.take(i as int);
                lemma_run_push(s0, before, a_low, b_low);
                assert(before.push((a_low, b_low)) =~= readings@.take(i + 1));
                lemma_run_prefix(s0, readings@, i + 1);
                lemma_run_len(s0, readings@);
                let out = run(s0, readings@).1;
                assert(out.take(i + 1).drop_last() =~= clicks@);
                assert(i32::MIN <= c0 + net(out.take(i + 1)) <= i32::MAX);
            }
            let r = self.update(a_low, b_low);
            clicks.push(r);
            proof {
                assert(clicks@.drop_last() =~= run(s0, readings@.take(i as int)).1);
            }
        }
        proof {
            assert(readings@.take(readings@.len() as int) =~= readings@);
        }
        clicks
    }

    /// As `update`, but where the count would leave the range of an `i32`
    /// the encoder is left as it was and `IntegerOverflow` comes back.
    pub fn checked_update(&mut self, a_low: bool, b_low: bool) -> (r: Result<
        Option<Rotation>,
        NeaError,
    >)
        ensures
            count_fits(*old(self), a_low, b_low) ==> r == Ok::<Option<Rotation>, NeaError>(
                click(old(self).state, a_low, b_low),
            ) && final(self).state == next_state(old(self).state, a_low, b_low)
                && final(self).count == old(self).count + click_delta(
                click(old(self).state, a_low, b_low),
            ),
            !count_fits(*old(self), a_low, b_low) ==> (r matches Err(NeaError::IntegerOverflow))
                && *final(self) == *old(self),
    {
        let (_, click) = self.state.step(a_low, b_low);
        let fits = match click {
            Some(Rotation::Clockwise) => self.count < i32::MAX,
            Some(Rotation::CounterClockwise) => self.count > i32::MIN,
            None => true,
        };
        if fits {
            Ok(self.update(a_low, b_low))
        } else {
            Err(NeaError::IntegerOverflow)
        }
    }
}

/// The same progress through a turn, begun with the other pin.
pub open spec fn mirror(s: EncoderState) -> EncoderState {
    match s {
        EncoderState::Locked => EncoderState::Locked,
        EncoderState::TurnRightStart => EncoderState::TurnLeftStart,
        EncoderState::TurnRightMiddle => EncoderState::TurnLeftMiddle,
        EncoderState::TurnRightEnd => EncoderState::TurnLeftEnd,
        EncoderState::TurnLeftStart => EncoderState::TurnRightStart,
        EncoderState::TurnLeftMiddle => EncoderState::TurnRightMiddle,
        EncoderState::TurnLeftEnd => EncoderState::TurnRightEnd,
        EncoderState::Undecided => EncoderState::Undecided,
    }
}

/// The click turned the other way.
pub open spec fn reversed(r: Option<Rotation>) -> Option<Rotation> {
    match r {
        Some(Rotation::Clockwise) => Some(Rotation::CounterClockwise),
        Some(Rotation::CounterClockwise) => Some(Rotation::Clockwise),
        None => None,
    }
}

/// The decoder run over a sequence of pin readings `(a_low, b_low)`: the
/// state it ends in, and for each reading the click it reports there, if any.
pub open spec fn run(s: EncoderState, readings: Seq<(bool, bool)>) -> (
    EncoderState,
    Seq<Option<Rotation>>,
)
    decreases readings.len(),
{
    if readings.len() == 0 {
        (s, Seq::empty())
    } else {
        let (a_low, b_low) = readings[0];
        let rest = run(next_state(s, a_low, b_low), readings.drop_first());
        (rest.0, seq![click(s, a_low, b_low)] + rest.1)
    }
}

/// What a sequence of clicks adds to the running count.
pub open spec fn net(clicks: Seq<Option<Rotation>>) -> int
    decreases clicks.len(),
{
    if clicks.len() == 0 {
        0
    } else {
        net(clicks.drop_last()) + click_delta(clicks.last())
    }
}

/// The readings with pins A and B exchanged.
pub open spec fn swapped(readings: Seq<(bool, bool)>) -> Seq<(bool, bool)> {
    readings.map_values(|r: (bool, bool)| (r.1, r.0))
}

/// Each click turned the other way.
pub open spec fn all_reversed(clicks: Seq<Option<Rotation>>) -> Seq<Option<Rotation>> {
    clicks.map_values(|c: Option<Rotation>| reversed(c))
}

/// Every running count along the clicks, from the given start, fits in an `i32`.
pub open spec fn counts_fit(count: int, clicks: Seq<Option<Rotation>>) -> bool {
    forall|k: int| 0 <= k <= clicks.len() ==> i32::MIN <= count + net(#[trigger] clicks.take(k)) <= i32::MAX
}

/// One detent's worth of quadrature led by pin A: A low, both low, B low, both high.
pub open spec fn a_led_cycle() -> Seq<(bool, bool)> {
    seq![(true, false), (true, true), (false, true), (false, false)]
}

/// One detent's worth of quadrature led by pin B: B low, both low, A low, both high.
pub open spec fn b_led_cycle() -> Seq<(bool, bool)> {
    seq![(false, true), (true, true), (true, false), (false, false)]
}

/// The decoder comes to rest exactly when both pins read high, whatever
/// state it was in.
pub proof fn lemma_rests_iff_released(s: EncoderState, a_low: bool, b_low: bool)
    ensures
        (next_state(s, a_low, b_low) == EncoderState::Locked) <==> (!a_low && !b_low),
{
}

/// A click is reported exactly when both pins read high after the middle or
/// the end of a turn, and the decoder is then at rest.
pub proof fn lemma_click_only_on_release(s: EncoderState, a_low: bool, b_low: bool)
    ensures
        click(s, a_low, b_low) is Some <==> (!a_low && !b_low && (s is TurnRightMiddle
            || s is TurnRightEnd || s is TurnLeftMiddle || s is TurnLeftEnd)),
        click(s, a_low, b_low) is Some ==> next_state(s, a_low, b_low) == EncoderState::Locked,
{
}

/// Swapping the two pins mirrors the decoder: each state moves to the mirror
/// of where it moved before, and each click is reported the other way round.
pub proof fn lemma_pin_swap_mirrors(s: EncoderState, a_low: bool, b_low: bool)
    ensures
        next_state(mirror(s), b_low, a_low) == mirror(next_state(s, a_low, b_low)),
        click(mirror(s), b_low, a_low) == reversed(click(s, a_low, b_low)),
{
}

/// A run reports one entry per reading.
pub proof fn lemma_run_len(s: EncoderState, readings: Seq<(bool, bool)>)
    ensures
        run(s, readings).1.len() == readings.len(),
    decreases readings.len(),
{
    if readings.len() > 0 {
        let (a_low, b_low) = readings[0];
        lemma_run_len(next_state(s, a_low, b_low), readings.drop_first());
    }
}

/// Running over two sequences one after the other is running over both:
/// the second starts where the first ended, and the reports follow on.
pub proof fn lemma_run_concat(s: EncoderState, first: Seq<(bool, bool)>, second: Seq<(bool, bool)>)
    ensures
        run(s, first + second) == (
            run(run(s, first).0, second).0,
            run(s, first).1 + run(run(s, first).0, second).1,
        ),
    decreases first.len(),
{
    if first.len() == 0 {
        assert(first + second =~= second);
        assert(run(s, first).1 + run(s, second).1 =~= run(s, second).1);
    } else {
        let (a_low, b_low) = first[0];
        let t = next_state(s, a_low, b_low);
        assert((first + second).drop_first() =~= first.drop_first() + second);
        lemma_run_concat(t, first.drop_first(), second);
        assert(seq![click(s, a_low, b_low)] + (run(t, first.drop_first()).1 + run(
            run(t, first.drop_first()).0,
            second,
        ).1) =~= (seq![click(s, a_low, b_low)] + run(t, first.drop_first()).1) + run(
            run(t, first.drop_first()).0,
            second,
        ).1);
    }
}

/// The reports of a run over the first `k` readings are the first `k`
/// reports of the run over all of them.
pub proof fn lemma_run_prefix(s: EncoderState, readings: Seq<(bool, bool)>, k: int)
    requires
        0 <= k <= readings.len(),
    ensures
        run(s, readings.take(k)).1 == run(s, readings).1.take(k),
{
    assert(readings =~= readings.take(k) + readings.skip(k));
    lemma_run_concat(s, readings.take(k), readings.skip(k));
    lemma_run_len(s, readings.take(k));
    assert(run(s, readings).1.take(k) =~= run(s, readings.take(k)).1);
}

/// Taking one more reading moves the run on by one step.
pub proof fn lemma_run_push(s: EncoderState, readings: Seq<(bool, bool)>, a_low: bool, b_low: bool)
    ensures
        run(s, readings.push((a_low, b_low))) == (
            next_state(run(s, readings).0, a_low, b_low),
            run(s, readings).1.push(click(run(s, readings).0, a_low, b_low)),
        ),
{
    reveal_with_fuel(run, 2);
    let last = seq![(a_low, b_low)];
    assert(readings.push((a_low, b_low)) =~= readings + last);
    lemma_run_concat(s, readings, last);
    let t = run(s, readings).0;
    assert(last.drop_first() =~= Seq::<(bool, bool)>::empty());
    assert(run(t, last).1 =~= seq![click(t, a_low, b_low)]);
    assert(run(s, readings).1 + run(t, last).1 =~= run(s, readings).1.push(click(t, a_low, b_low)));
}

/// Both pins reading high resets the decoder: whatever came before, the
/// run over the readings that follow ends where a fresh decoder's run ends
/// and reports, reading by reading, exactly what a fresh decoder reports.
pub proof fn lemma_release_resets(s: EncoderState, before: Seq<(bool, bool)>, after: Seq<(bool, bool)>)
    ensures
        ({
            let whole = run(s, before + seq![(false, false)] + after);
            &&& whole.0 == run(EncoderState::Locked, after).0
            &&& whole.1.subrange(before.len() as int + 1, whole.1.len() as int) == run(
                EncoderState::Locked,
                after,
            ).1
        }),
{
    reveal_with_fuel(run, 2);
    let head = before + seq![(false, false)];
    lemma_run_concat(s, head, after);
    lemma_run_concat(s, before, seq![(false, false)]);
    let t = run(s, before).0;
    assert(seq![(false, false)].drop_first() =~= Seq::<(bool, bool)>::empty());
    assert(run(t, seq![(false, false)]).0 == EncoderState::Locked);
    lemma_run_len(s, head);
    lemma_run_len(s, before);
    lemma_run_len(t, seq![(false, false)]);
    let whole = run(s, head + after);
    assert(whole.1.subrange(before.len() as int + 1, whole.1.len() as int) =~= run(
        EncoderState::Locked,
        after,
    ).1);
}

/// Turning every click the other way negates what the clicks add to the count.
pub proof fn lemma_net_reversed(clicks: Seq<Option<Rotation>>)
    ensures
        net(all_reversed(clicks)) == -net(clicks),
    decreases clicks.len(),
{
    if clicks.len() > 0 {
        assert(all_reversed(clicks).drop_last() =~= all_reversed(clicks.drop_last()));
        lemma_net_reversed(clicks.drop_last());
    }
}

/// Exchanging pins A and B for a whole run mirrors it: the mirrored start
/// ends in the mirror of the end state, reports a click at exactly the same
/// readings but turned the other way, and its count at every point is the
/// negation of the original run's.
pub proof fn lemma_run_pin_swap_mirrors(s: EncoderState, readings: Seq<(bool, bool)>)
    ensures
        run(mirror(s), swapped(readings)) == (mirror(run(s, readings).0), all_reversed(
            run(s, readings).1,
        )),
        forall|k: int|
            0 <= k <= readings.len() ==> net(#[trigger] run(mirror(s), swapped(readings)).1.take(k))
                == -net(run(s, readings).1.take(k)),
    decreases readings.len(),
{
    if readings.len() > 0 {
        let (a_low, b_low) = readings[0];
        let t = next_state(s, a_low, b_low);
        lemma_pin_swap_mirrors(s, a_low, b_low);
        assert(swapped(readings).drop_first() =~= swapped(readings.drop_first()));
        assert(swapped(readings)[0] == (b_low, a_low));
        lemma_run_pin_swap_mirrors(t, readings.drop_first());
        assert(all_reversed(run(s, readings).1) =~= seq![reversed(click(s, a_low, b_low))]
            + all_reversed(run(t, readings.drop_first()).1));
    } else {
        assert(swapped(readings) =~= Seq::<(bool, bool)>::empty());
        assert(all_reversed(run(s, readings).1) =~= Seq::<Option<Rotation>>::empty());
    }
    let m = run(mirror(s), swapped(readings)).1;
    let o = run(s, readings).1;
    assert forall|k: int| 0 <= k <= readings.len() implies net(#[trigger] m.take(k)) == -net(
        o.take(k),
    ) by {
        lemma_run_len(s, readings);
        assert(m.take(k) =~= all_reversed(o.take(k)));
        lemma_net_reversed(o.take(k));
    }
}

/// Where a run reports a click: at a reading with both pins high, and either
/// it is the first reading and the run started in the middle or at the end
/// of a turn, or the reading before it had a pin low.
pub proof fn lemma_click_positions_from(s: EncoderState, readings: Seq<(bool, bool)>, i: int)
    requires
        0 <= i < readings.len(),
        run(s, readings).1[i] is Some,
    ensures
        readings[i] == (false, false),
        i == 0 ==> (s is TurnRightMiddle || s is TurnRightEnd || s is TurnLeftMiddle
            || s is TurnLeftEnd),
        i > 0 ==> readings[i - 1] != (false, false),
    decreases readings.len(),
{
    let (a_low, b_low) = readings[0];
    let t = next_state(s, a_low, b_low);
    lemma_run_len(t, readings.drop_first());
    if i > 0 {
        assert(run(s, readings).1[i] == run(t, readings.drop_first()).1[i - 1]);
        lemma_click_positions_from(t, readings.drop_first(), i - 1);
        assert(readings.drop_first()[i - 1] == readings[i]);
        if i > 1 {
            assert(readings.drop_first()[i - 2] == readings[i - 1]);
        }
    }
}

/// From rest, a click is reported only at a reading with both pins high,
/// never at the first reading, and never right after another reading with
/// both pins high: at most one click per reading, and only once a turn has
/// been under way.
pub proof fn lemma_click_positions(readings: Seq<(bool, bool)>, i: int)
    requires
        0 <= i < readings.len(),
        run(EncoderState::Locked, readings).1[i] is Some,
    ensures
        readings[i] == (false, false),
        i > 0,
        readings[i - 1] != (false, false),
{
    lemma_click_positions_from(EncoderState::Locked, readings, i);
}

/// Pressing and releasing pin A alone, any number of times, is no click:
/// from rest (or the start of a turn begun with pin A), readings in which
/// pin B never reads low report nothing.
pub proof fn lemma_pin_a_alone_reports_nothing(s: EncoderState, readings: Seq<(bool, bool)>)
    requires
        s is Locked || s is TurnRightStart,
        forall|i: int| 0 <= i < readings.len() ==> !(#[trigger] readings[i]).1,
    ensures
        forall|i: int| 0 <= i < readings.len() ==> (#[trigger] run(s, readings).1[i]) is None,
    decreases readings.len(),
{
    if readings.len() > 0 {
        let (a_low, b_low) = readings[0];
        let t = next_state(s, a_low, b_low);
        assert(!readings[0].1);
        assert forall|i: int| 0 <= i < readings.drop_first().len() implies !(
        #[trigger] readings.drop_first()[i]).1 by {
            assert(readings.drop_first()[i] == readings[i + 1]);
        }
        lemma_pin_a_alone_reports_nothing(t, readings.drop_first());
        lemma_run_len(t, readings.drop_first());
        assert forall|i: int| 0 <= i < readings.len() implies (#[trigger] run(s, readings).1[i]) is None by {
            if i > 0 {
                assert(run(s, readings).1[i] == run(t, readings.drop_first()).1[i - 1]);
            }
        }
    }
}

/// Pressing and releasing pin B alone, any number of times, is no click:
/// from rest (or the start of a turn begun with pin B), readings in which
/// pin A never reads low report nothing.
pub proof fn lemma_pin_b_alone_reports_nothing(s: EncoderState, readings: Seq<(bool, bool)>)
    requires
        s is Locked || s is TurnLeftStart,
        forall|i: int| 0 <= i < readings.len() ==> !(#[trigger] readings[i]).0,
    ensures
        forall|i: int| 0 <= i < readings.len() ==> (#[trigger] run(s, readings).1[i]) is None,
    decreases readings.len(),
{
    if readings.len() > 0 {
        let (a_low, b_low) = readings[0];
        let t = next_state(s, a_low, b_low);
        assert(!readings[0].0);
        assert forall|i: int| 0 <= i < readings.drop_first().len() implies !(
        #[trigger] readings.drop_first()[i]).0 by {
            assert(readings.drop_first()[i] == readings[i + 1]);
        }
        lemma_pin_b_alone_reports_nothing(t, readings.drop_first());
        lemma_run_len(t, readings.drop_first());
        assert forall|i: int| 0 <= i < readings.len() implies (#[trigger] run(s, readings).1[i]) is None by {
            if i > 0 {
                assert(run(s, readings).1[i] == run(t, readings.drop_first()).1[i - 1]);
            }
        }
    }
}

/// What a run reports at a reading is the click of the state the readings
/// before it left the decoder in.
pub proof fn lemma_run_report_at(s: EncoderState, readings: Seq<(bool, bool)>, i: int)
    requires
        0 <= i < readings.len(),
    ensures
        run(s, readings).1[i] == click(run(s, readings.take(i)).0, readings[i].0, readings[i].1),
        i > 0 ==> run(s, readings.take(i)).0 == next_state(
            run(s, readings.take(i - 1)).0,
            readings[i - 1].0,
            readings[i - 1].1,
        ),
{
    lemma_run_prefix(s, readings, i + 1);
    lemma_run_push(s, readings.take(i), readings[i].0, readings[i].1);
    assert(readings.take(i).push((readings[i].0, readings[i].1)) =~= readings.take(i + 1));
    lemma_run_len(s, readings.take(i));
    lemma_run_len(s, readings);
    let c = click(run(s, readings.take(i)).0, readings[i].0, readings[i].1);
    assert(run(s, readings.take(i + 1)).1 == run(s, readings.take(i)).1.push(c));
    assert(run(s, readings).1.take(i + 1)[i] == run(s, readings).1[i]);
    assert(run(s, readings.take(i)).1.push(c)[i] == c);
    if i > 0 {
        lemma_run_push(s, readings.take(i - 1), readings[i - 1].0, readings[i - 1].1);
        assert(readings.take(i - 1).push((readings[i - 1].0, readings[i - 1].1)) =~= readings.take(
            i,
        ));
    }
}

/// A click needs the pin that went low second to be the last one low before
/// release: from rest, a counter-clockwise click (a turn led by pin A) comes
/// right after a reading with pin B low, and a clockwise click (led by pin
/// B) right after a reading with pin A low. So backing out of a turn, the
/// leading pin alone low again before release, reports nothing.
pub proof fn lemma_click_needs_second_pin_last(readings: Seq<(bool, bool)>, i: int)
    requires
        0 <= i < readings.len(),
        run(EncoderState::Locked, readings).1[i] is Some,
    ensures
        i > 0,
        run(EncoderState::Locked, readings).1[i] == Some(Rotation::CounterClockwise)
            ==> readings[i - 1].1,
        run(EncoderState::Locked, readings).1[i] == Some(Rotation::Clockwise) ==> readings[i
            - 1].0,
{
    lemma_click_positions(readings, i);
    lemma_run_report_at(EncoderState::Locked, readings, i);
}

/// How a turn under way ends. From inside a turn led by pin A, or a turn
/// begun with both pins together, releasing after pin B alone was low
/// reports a counter-clockwise click; from inside a turn led by A, so does
/// releasing after both were low, while releasing after A alone was low
/// again (backing out) reports nothing. Turns led by pin B are the mirror
/// image, with clockwise clicks.
pub proof fn lemma_turn_endings(s: EncoderState)
    ensures
        on_right_side(s) || s is Undecided ==> run(s, seq![(false, true), (false, false)]) == (
            EncoderState::Locked,
            seq![None, Some(Rotation::CounterClockwise)],
        ),
        on_left_side(s) || s is Undecided ==> run(s, seq![(true, false), (false, false)]) == (
            EncoderState::Locked,
            seq![None, Some(Rotation::Clockwise)],
        ),
        on_right_side(s) ==> run(s, seq![(true, true), (false, false)]) == (
            EncoderState::Locked,
            seq![None, Some(Rotation::CounterClockwise)],
        ),
        on_left_side(s) ==> run(s, seq![(true, true), (false, false)]) == (
            EncoderState::Locked,
            seq![None, Some(Rotation::Clockwise)],
        ),
        on_right_side(s) ==> run(s, seq![(true, false), (false, false)]) == (
            EncoderState::Locked,
            seq![None::<Rotation>, None],
        ),
        on_left_side(s) ==> run(s, seq![(false, true), (false, false)]) == (
            EncoderState::Locked,
            seq![None::<Rotation>, None],
        ),
{
    reveal_with_fuel(run, 3);
    let x: Seq<(bool, bool)> = seq![(false, true), (false, false)];
    let y: Seq<(bool, bool)> = seq![(true, false), (false, false)];
    let z: Seq<(bool, bool)> = seq![(true, true), (false, false)];
    assert(x.drop_first() =~= seq![(false, false)]);
    assert(y.drop_first() =~= seq![(false, false)]);
    assert(z.drop_first() =~= seq![(false, false)]);
    assert(seq![(false, false)].drop_first() =~= Seq::<(bool, bool)>::empty());
    assert(seq![None::<Rotation>] + (seq![Some(Rotation::CounterClockwise)] + Seq::empty()) =~= seq![None, Some(Rotation::CounterClockwise)]);
    assert(seq![None::<Rotation>] + (seq![Some(Rotation::Clockwise)] + Seq::empty()) =~= seq![None, Some(Rotation::Clockwise)]);
    assert(seq![None::<Rotation>] + (seq![None::<Rotation>] + Seq::empty()) =~= seq![None, None]);
}

/// A full cycle led by pin A ends at rest; at its last reading it reports
/// one counter-clockwise click when it starts at rest or inside a turn
/// begun with pin A, and it reports nothing anywhere else.
pub proof fn lemma_a_led_cycle(s: EncoderState)
    ensures
        run(s, a_led_cycle()) == (EncoderState::Locked, seq![None, None, None, if s is Locked || on_right_side(s) {
            Some(Rotation::CounterClockwise)
        } else {
            None
        }]),
{
    reveal_with_fuel(run, 5);
    let c = a_led_cycle();
    assert(c.drop_first() =~= seq![(true, true), (false, true), (false, false)]);
    assert(c.drop_first().drop_first() =~= seq![(false, true), (false, false)]);
    assert(c.drop_first().drop_first().drop_first() =~= seq![(false, false)]);
    assert(c.drop_first().drop_first().drop_first().drop_first() =~= Seq::<(bool, bool)>::empty());
    assert(run(s, c).1 =~= seq![None, None, None, if s is Locked || on_right_side(s) {
        Some(Rotation::CounterClockwise)
    } else {
        None
    }]);
}

/// A full cycle led by pin B ends at rest; at its last reading it reports
/// one clockwise click when it starts at rest or inside a turn begun with
/// pin B, and it reports nothing anywhere else.
pub proof fn lemma_b_led_cycle(s: EncoderState)
    ensures
        run(s, b_led_cycle()) == (EncoderState::Locked, seq![None, None, None, if s is Locked || on_left_side(s) {
            Some(Rotation::Clockwise)
        } else {
            None
        }]),
{
    reveal_with_fuel(run, 5);
    let c = b_led_cycle();
    assert(c.drop_first() =~= seq![(true, true), (true, false), (false, false)]);
    assert(c.drop_first().drop_first() =~= seq![(true, false), (false, false)]);
    assert(c.drop_first().drop_first().drop_first() =~= seq![(false, false)]);
    assert(c.drop_first().drop_first().drop_first().drop_first() =~= Seq::<(bool, bool)>::empty());
    assert(run(s, c).1 =~= seq![None, None, None, if s is Locked || on_left_side(s) {
        Some(Rotation::Clockwise)
    } else {
        None
    }]);
}

} // verus!
