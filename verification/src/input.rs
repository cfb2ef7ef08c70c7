//! Pedals, wheel and keyboard.

use crate::overlay::OverlayApp;
use crate::overlay::DEBUG_LINES;
use crate::overlay::MAX_HISTORY_SECONDS;
use crate::overlay::MIN_HISTORY_SECONDS;
use crate::single::Single;
use crate::single::HIDDEN;
use crate::single::INFINITY;
use crate::single::ONE;
use crate::single::ONE_HALF;
use crate::single::SIGN;
use std::collections::VecDeque;
use vstd::prelude::*;

verus! {

/// An axis of a device.
#[derive(Clone, Copy, PartialEq, Eq, Structural, Debug)]
pub enum Axis {
    LeftStickX,
    LeftStickY,
    LeftZ,
    RightStickX,
    RightStickY,
    RightZ,
    DPadX,
    DPadY,
    Unknown,
}

/// Something that a device reports.
#[derive(Debug)]
pub enum DeviceEvent {
    /// An axis has moved to `value`; `line` says so in the debug log.
    AxisChanged { axis: Axis, value: Single, line: String },
    /// Anything else.
    Other,
}

/// The keys that the overlay looks at. The first three count when they go down, the others
/// as long as they are held.
#[derive(Clone, Copy, PartialEq, Eq, Structural, Debug)]
pub struct Keys {
    /// `D` went down.
    pub debug: bool,
    /// `[` went down.
    pub shrink: bool,
    /// `]` went down.
    pub grow: bool,
    /// The arrow up is held.
    pub throttle: bool,
    /// The arrow down is held.
    pub brake: bool,
    /// The space bar is held.
    pub clutch: bool,
    /// The arrow to the left is held.
    pub left: bool,
    /// The arrow to the right is held.
    pub right: bool,
}

/// How far a pedal is pressed, from 0 to 1, when its axis runs from -1 at rest to 1.
pub open spec fn pedal(value: Single) -> Single {
    value.sum(Single::of(ONE)).product(Single::of(ONE_HALF)).clamped(
        Single::of(0),
        Single::of(ONE),
    )
}

/// How far a pedal is pressed, from 0 to 1, when its axis runs from 1 at rest to -1.
pub open spec fn pedal_inv(value: Single) -> Single {
    Single::of(ONE).difference(value).product(Single::of(ONE_HALF)).clamped(
        Single::of(0),
        Single::of(ONE),
    )
}

/// How far a pedal is pressed, whichever way its axis runs.
pub open spec fn pedal_on(value: Single, inverted: bool) -> Single {
    if inverted {
        pedal_inv(value)
    } else {
        pedal(value)
    }
}

/// What a key stands for as a pedal: fully pressed or not at all.
pub open spec fn key_pedal(held: bool) -> Single {
    if held {
        Single { bits: ONE }
    } else {
        Single { bits: 0 }
    }
}

/// A log with one more line, of which only the newest lines are kept.
pub open spec fn logged(log: Seq<Seq<char>>, line: Seq<char>) -> Seq<Seq<char>> {
    let longer = log.push(line);
    if longer.len() > DEBUG_LINES {
        longer.skip(longer.len() - DEBUG_LINES)
    } else {
        longer
    }
}

impl crate::overlay::Overlay {
    /// The overlay after the keys that count when they go down.
    pub open spec fn keyed(self, keys: Keys) -> crate::overlay::Overlay {
        let shrunk: u64 = if !keys.shrink {
            self.history_seconds
        } else if self.history_seconds - 1 > MIN_HISTORY_SECONDS {
            (self.history_seconds - 1) as u64
        } else {
            MIN_HISTORY_SECONDS
        };
        let grown: u64 = if !keys.grow {
            shrunk
        } else if shrunk + 1 < MAX_HISTORY_SECONDS {
            (shrunk + 1) as u64
        } else {
            MAX_HISTORY_SECONDS
        };
        crate::overlay::Overlay {
            debug_mode: self.debug_mode != keys.debug,
            history_seconds: grown,
            ..self
        }
    }

    /// The overlay after an axis has moved.
    pub open spec fn moved(
        self,
        axis: Axis,
        value: Single,
        line: Seq<char>,
    ) -> crate::overlay::Overlay {
        let noted = crate::overlay::Overlay {
            debug_log: if self.debug_mode {
                logged(self.debug_log, line)
            } else {
                self.debug_log
            },
            ..self
        };
        match axis {
            Axis::LeftZ | Axis::LeftStickY => crate::overlay::Overlay {
                throttle: pedal_on(value, self.invert_throttle),
                ..noted
            },
            Axis::RightZ | Axis::RightStickY => crate::overlay::Overlay {
                brake: pedal_on(value, self.invert_brake),
                ..noted
            },
            Axis::RightStickX => crate::overlay::Overlay {
                clutch: pedal_on(value, self.invert_clutch),
                ..noted
            },
            _ => crate::overlay::Overlay { steering: value, ..noted },
        }
    }

    /// The overlay after a device has reported something.
    pub open spec fn reported(self, event: DeviceEvent) -> crate::overlay::Overlay {
        match event {
            DeviceEvent::AxisChanged { axis, value, line } => self.moved(axis, value, line@),
            DeviceEvent::Other => self,
        }
    }

    /// The overlay after the devices have reported one thing after another.
    pub open spec fn reported_all(self, events: Seq<DeviceEvent>) -> crate::overlay::Overlay
        decreases events.len(),
    {
        if events.len() == 0 {
            self
        } else {
            self.reported_all(events.drop_last()).reported(events.last())
        }
    }

    /// The overlay after the keys that stand for pedals and wheel.
    pub open spec fn driven(self, keys: Keys) -> crate::overlay::Overlay {
        crate::overlay::Overlay {
            throttle: self.throttle.larger(key_pedal(keys.throttle)),
            brake: self.brake.larger(key_pedal(keys.brake)),
            clutch: self.clutch.larger(key_pedal(keys.clutch)),
            steering: if keys.left {
                Single { bits: (SIGN + ONE) as u32 }
            } else if keys.right {
                Single { bits: ONE }
            } else {
                self.steering
            },
            ..self
        }
    }

    /// The overlay after all of its inputs were read.
    pub open spec fn with_inputs(
        self,
        keys: Keys,
        events: Seq<DeviceEvent>,
    ) -> crate::overlay::Overlay {
        self.keyed(keys).reported_all(events).driven(keys)
    }
}

/// Turns an axis that runs from 1 at rest to -1 into how far the pedal is pressed.
pub fn axis_to_pedal_inv(value: Single) -> (r: Single)
    ensures
        r == pedal_inv(value),
{
    let one: Single = Single { bits: ONE };
    one.minus(value).times(Single { bits: ONE_HALF }).clamp(Single { bits: 0 }, one)
}

/// Turns an axis that runs from -1 at rest to 1 into how far the pedal is pressed.
pub fn axis_to_pedal(value: Single) -> (r: Single)
    ensures
        r == pedal(value),
{
    let one: Single = Single { bits: ONE };
    value.plus(one).times(Single { bits: ONE_HALF }).clamp(Single { bits: 0 }, one)
}

/// Turns an axis into how far the pedal is pressed, whichever way it runs.
fn axis_to_pedal_on(value: Single, inverted: bool) -> (r: Single)
    ensures
        r == pedal_on(value, inverted),
{
    if inverted {
        axis_to_pedal_inv(value)
    } else {
        axis_to_pedal(value)
    }
}

/// What a key stands for as a pedal.
fn key_to_pedal(held: bool) -> (r: Single)
    ensures
        r == key_pedal(held),
{
    if held {
        Single { bits: ONE }
    } else {
        Single { bits: 0 }
    }
}

/// Adds a line to a log, and drops the oldest lines that no longer fit.
fn log_line(log: &mut VecDeque<String>, line: String)
    ensures
        final(log)@.map_values(|l: String| l@) == logged(
            old(log)@.map_values(|l: String| l@),
            line@,
        ),
{
    let ghost before = log@.map_values(|l: String| l@);
    let ghost longer = before.push(line@);
    log.push_back(line);
    assert(log@.map_values(|l: String| l@) =~= longer);
    let ghost mut dropped: int = 0;
    assert(longer.skip(0) =~= longer);
    while log.len() > DEBUG_LINES
        invariant
            0 <= dropped <= longer.len(),
            dropped > 0 ==> dropped <= longer.len() - DEBUG_LINES,
            log@.map_values(|l: String| l@) == longer.skip(dropped),
        decreases log@.len(),
    {
        let ghost here = log@;
        log.pop_front();
        proof {
            assert(here.map_values(|l: String| l@).len() == here.len());
            assert(log@.map_values(|l: String| l@) =~= here.map_values(|l: String| l@).skip(1));
            assert(longer.skip(dropped).skip(1) =~= longer.skip(dropped + 1));
            dropped = dropped + 1;
        }
    }
    proof {
        assert(log@.map_values(|l: String| l@).len() == log@.len());
    }
}

/// Reads the keys and what the devices have reported since the last call.
pub fn read_inputs(app: &mut OverlayApp, keys: &Keys, events: &Vec<DeviceEvent>)
    ensures
        final(app)@ == old(app)@.with_inputs(*keys, events@),
        old(app)@.inv() ==> final(app)@.inv(),
{
    proof {
        if app@.inv() {
            crate::steady::law_inputs_keep(app@, *keys, events@);
        }
    }
    read_keys(app, keys);
    read_events(app, events);
    drive(app, keys);
}

/// Reads the keys that count when they go down.
fn read_keys(app: &mut OverlayApp, keys: &Keys)
    ensures
        final(app)@ == old(app)@.keyed(*keys),
{
    let shrunk: u64 = if !keys.shrink {
        app.history_seconds
    } else if app.history_seconds > MIN_HISTORY_SECONDS + 1 {
        app.history_seconds - 1
    } else {
        MIN_HISTORY_SECONDS
    };
    let grown: u64 = if !keys.grow {
        shrunk
    } else if shrunk < MAX_HISTORY_SECONDS - 1 {
        shrunk + 1
    } else {
        MAX_HISTORY_SECONDS
    };
    app.debug_mode = app.debug_mode != keys.debug;
    app.history_seconds = grown;
}

/// Reads the keys that stand for pedals and wheel.
fn drive(app: &mut OverlayApp, keys: &Keys)
    ensures
        final(app)@ == old(app)@.driven(*keys),
{
    let steering: Single = if keys.left {
        Single { bits: SIGN + ONE }
    } else if keys.right {
        Single { bits: ONE }
    } else {
        app.steering
    };
    app.throttle = app.throttle.max(key_to_pedal(keys.throttle));
    app.brake = app.brake.max(key_to_pedal(keys.brake));
    app.clutch = app.clutch.max(key_to_pedal(keys.clutch));
    app.steering = steering;
}

/// Reads what the devices have reported, one thing after another.
fn read_events(app: &mut OverlayApp, events: &Vec<DeviceEvent>)
    ensures
        final(app)@ == old(app)@.reported_all(events@),
{
    let ghost start = app@;
    let mut i: usize = 0;
    while i < events.len()
        invariant
            i <= events.len(),
            app@ == start.reported_all(events@.take(i as int)),
        decreases events.len() - i,
    {
        assert(events@.take(i + 1).drop_last() =~= events@.take(i as int));
        read_event(app, &events[i]);
        i = i + 1;
    }
    assert(events@.take(events@.len() as int) =~= events@);
}

/// Reads one thing that a device has reported.
fn read_event(app: &mut OverlayApp, event: &DeviceEvent)
    ensures
        final(app)@ == old(app)@.reported(*event),
{
    match event {
        DeviceEvent::AxisChanged { axis, value, line } => {
            if app.debug_mode {
                log_line(&mut app.debug_log, line.clone());
            }
            match axis {
                Axis::LeftZ | Axis::LeftStickY => {
                    app.throttle = axis_to_pedal_on(*value, app.invert_throttle);
                },
                Axis::RightZ | Axis::RightStickY => {
                    app.brake = axis_to_pedal_on(*value, app.invert_brake);
                },
                Axis::RightStickX => {
                    app.clutch = axis_to_pedal_on(*value, app.invert_clutch);
                },
                _ => {
                    app.steering = *value;
                },
            }
        },
        DeviceEvent::Other => {},
    }
}

// ---------------------------------------------------------------------------------------
// Laws
// ---------------------------------------------------------------------------------------

/// The same number with the other sign is as far from zero.
proof fn lemma_negated(value: Single)
    ensures
        value.negated().units() == -value.units(),
        value.negated().nan() == value.nan(),
{
}

/// The pattern of the pedal whose axis stands `z` units above -1.
#[verifier::opaque]
spec fn pressed(z: int) -> nat {
    if z <= 0 {
        0
    } else {
        let p: nat = crate::single::nearest(
            crate::single::magnitude(crate::single::nearest(z as nat, 1)),
            2,
        );
        if p < ONE {
            p
        } else {
            ONE as nat
        }
    }
}

/// A pedal depends only on how far its axis stands from -1.
proof fn lemma_pedal_pattern(value: Single)
    requires
        !value.nan(),
    ensures
        pedal(value).bits == pressed(value.units() + crate::single::units_in_one()),
{
    reveal(pressed);
    let one: Single = Single::of(ONE);
    let z: int = value.units() + crate::single::units_in_one();
    let sum: Single = value.sum(one);
    let half: Single = sum.product(Single::of(ONE_HALF));
    let size: nat = crate::single::abs_int(z);
    let p: nat = crate::single::nearest(size, 1);
    let q: nat = crate::single::nearest(crate::single::magnitude(p), 2);
    crate::arithmetic::lemma_one();
    assert(one.negated() == Single::of((SIGN + ONE) as u32));
    crate::arithmetic::law_half(sum);
    crate::rounding::lemma_nearest_exists(size, 1);
    crate::rounding::lemma_nearest_exists(crate::single::magnitude(p), 2);
    crate::single::lemma_magnitude_iff(value.pattern(), ONE as nat);
    crate::single::lemma_magnitude_iff(q, ONE as nat);
    crate::single::lemma_magnitude_iff(q, 0);
    lemma_infinity_exceeds();
    if value.finite() {
        if z < 0 {
            // Below -1 the sum is at least two units away from zero.
            assert(value.negative() && value.pattern() > ONE);
            crate::single::lemma_magnitude_monotone((ONE + 1) as nat, value.pattern());
            crate::rounding::lemma_nearest_exact(2, 1);
            crate::rounding::lemma_nearest_exact(1, 2);
            crate::rounding::lemma_nearest_monotone(2, size, 1);
            crate::single::lemma_magnitude_monotone(2, p);
            crate::rounding::lemma_nearest_monotone(2, crate::single::magnitude(p), 2);
            assert(q >= 1);
            assert(sum.negative() && sum.pattern() == p);
            if p < INFINITY {
                assert(half.negative() && half.pattern() == q);
            }
        } else if z > 0 {
            assert(sum.bits == p);
            if p < INFINITY {
                assert(half.bits == q);
            }
        } else {
            assert(sum == Single::of(0));
            crate::rounding::lemma_nearest_exact(0, 2);
            assert(half == Single::of(0));
        }
    } else {
        assert(sum == value && half == value);
        if !value.negative() {
            crate::single::lemma_magnitude_monotone(ONE as nat, INFINITY as nat);
            crate::rounding::lemma_nearest_exact(INFINITY as nat, 1);
            crate::rounding::lemma_nearest_monotone(
                crate::single::magnitude(INFINITY as nat),
                size,
                1,
            );
            assert(p == INFINITY);
        }
    }
}

/// Infinity, and even half of what it counts as, lies above 1.
proof fn lemma_infinity_exceeds()
    ensures
        crate::single::magnitude(INFINITY as nat) > crate::single::magnitude(ONE as nat),
        crate::single::nearest(crate::single::magnitude(INFINITY as nat), 2) > ONE,
{
    let above: nat = (ONE + 1) as nat;
    crate::single::lemma_magnitude_iff(ONE as nat, INFINITY as nat);
    crate::single::lemma_magnitude_double(above);
    crate::single::lemma_magnitude_monotone(above + HIDDEN as nat, INFINITY as nat);
    crate::rounding::lemma_nearest_exact(above, 2);
    crate::rounding::lemma_nearest_monotone(
        crate::single::magnitude(above) * 2,
        crate::single::magnitude(INFINITY as nat),
        2,
    );
}

/// A pedal is always between 0 and 1, whatever number the device reports; where it reports
/// none, the pedal is none either.
pub proof fn law_pedal_range(value: Single)
    ensures
        !value.nan() ==> pedal(value).bits <= ONE && pedal_inv(value).bits <= ONE,
        value.nan() ==> pedal(value).nan() && pedal_inv(value).nan(),
{
    law_pedal_mirror(value);
    lemma_negated(value);
    if !value.nan() {
        let one: int = crate::single::units_in_one() as int;
        lemma_pedal_pattern(value);
        lemma_pedal_pattern(value.negated());
        lemma_pressed_monotone(value.units() + one, value.units() + one);
        lemma_pressed_monotone(value.negated().units() + one, value.negated().units() + one);
    }
}

/// An inverted pedal is a direct one on the mirrored axis.
pub proof fn law_pedal_mirror(value: Single)
    ensures
        pedal_inv(value) == pedal(value.negated()),
{
    let one: Single = Single::of(ONE);
    crate::arithmetic::lemma_one();
    assert(one.difference(value) == value.negated().sum(one));
}

/// Pressing a pedal further never reads as less.
pub proof fn law_pedal_monotone(v: Single, w: Single)
    requires
        w.reaches(v),
    ensures
        pedal(v).bits <= pedal(w).bits,
        pedal_inv(v).bits >= pedal_inv(w).bits,
{
    let one: int = crate::single::units_in_one() as int;
    law_pedal_mirror(v);
    law_pedal_mirror(w);
    lemma_negated(v);
    lemma_negated(w);
    lemma_pedal_pattern(v);
    lemma_pedal_pattern(w);
    lemma_pedal_pattern(v.negated());
    lemma_pedal_pattern(w.negated());
    lemma_pressed_monotone(v.units() + one, w.units() + one);
    lemma_pressed_monotone(w.negated().units() + one, v.negated().units() + one);
}

/// The further the axis stands from -1, the further the pedal is pressed.
proof fn lemma_pressed_monotone(y: int, z: int)
    requires
        y <= z,
    ensures
        pressed(y) <= pressed(z) <= ONE,
{
    reveal(pressed);
    if y > 0 {
        crate::rounding::lemma_nearest_monotone(y as nat, z as nat, 1);
        let p: nat = crate::single::nearest(y as nat, 1);
        let q: nat = crate::single::nearest(z as nat, 1);
        crate::single::lemma_magnitude_monotone(p, q);
        crate::rounding::lemma_nearest_monotone(
            crate::single::magnitude(p),
            crate::single::magnitude(q),
            2,
        );
    }
}

/// At rest, and beyond, a pedal reads 0; fully pressed, and beyond, it reads 1.
pub proof fn law_pedal_ends(value: Single)
    ensures
        Single::of((SIGN + ONE) as u32).reaches(value) ==> pedal(value) == Single::of(0),
        value.reaches(Single::of(ONE)) ==> pedal(value) == Single::of(ONE),
        value.reaches(Single::of(ONE)) ==> pedal_inv(value) == Single::of(0),
        Single::of((SIGN + ONE) as u32).reaches(value) ==> pedal_inv(value) == Single::of(ONE),
{
    let one: int = crate::single::units_in_one() as int;
    crate::arithmetic::lemma_one();
    law_pedal_mirror(value);
    lemma_negated(value);
    if !value.nan() {
        lemma_pedal_pattern(value);
        lemma_pedal_pattern(value.negated());
        // Twice 1.0 is a number, and half of it is 1.0.
        crate::single::lemma_magnitude_double(ONE as nat);
        crate::rounding::lemma_nearest_exact((ONE + HIDDEN) as nat, 1);
        crate::rounding::lemma_nearest_exact(ONE as nat, 2);
        let twice: nat = crate::single::magnitude((ONE + HIDDEN) as nat);
        assert(twice * 1 == 2 * one && crate::single::magnitude(ONE as nat) * 2 == twice);
        assert(pressed(2 * one) == ONE) by {
            reveal(pressed);
        }
        assert(forall|z: int| z <= 0 ==> #[trigger] pressed(z) == 0) by {
            reveal(pressed);
        }
        if value.units() >= one {
            lemma_pressed_monotone(2 * one, value.units() + one);
        }
        if value.units() <= -one {
            lemma_pressed_monotone(2 * one, value.negated().units() + one);
        }
    }
}

} // verus!
