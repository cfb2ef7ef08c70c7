//! Pedals, wheel and keys.

use crate::input::Axis;
use crate::input::DeviceEvent;
use crate::input::Keys;
use crate::overlay::Overlay;
use crate::single::Single;
use crate::single::ONE;
use crate::single::ONE_HALF;
use vstd::arithmetic::power2::*;
use vstd::prelude::*;

verus! {

/// No key is pressed.
pub open spec fn hands_off(keys: Keys) -> bool {
    &&& !keys.debug && !keys.shrink && !keys.grow
    &&& !keys.throttle && !keys.brake && !keys.clutch && !keys.left && !keys.right
}

/// The single that a pedal reads is the nearest one to the half of its axis and one: no
/// other single `c` comes nearer.
pub open spec fn halves(pedal: Single, raised: int, c: Single) -> bool {
    crate::laws::numbers::apart(2 * pedal.units(), raised) <= crate::laws::numbers::apart(
        2 * c.units(),
        raised,
    )
}

/// Between -1 and 1 a pedal reads half of what its axis stands above -1; inverted, half of
/// what it stands below 1. In numbers, that is the nearest single there is.
pub proof fn law_pedal_is_half(value: Single, c: Single)
    requires
        value.bits % 0x8000_0000 <= 0x3F80_0000,
        c.finite(),
    ensures
        halves(crate::input::pedal(value), value.units() + pow2(149), c),
        halves(crate::input::pedal_inv(value), pow2(149) - value.units(), c),
        crate::input::pedal(value).bits <= 0x3F80_0000,
        crate::input::pedal_inv(value).bits <= 0x3F80_0000,
{
    crate::input::law_pedal_mirror(value);
    crate::input::law_pedal_range(value);
    assert(value.negated().units() == -value.units());
    lemma_half(value, c);
    lemma_half(value.negated(), c);
}

/// Beyond -1 a pedal reads 0, and beyond 1 it reads 1; inverted, the other way round. Without
/// a number there is none.
pub proof fn law_pedal_beyond(value: Single)
    ensures
        0x3F80_0000 <= value.bits <= 0x7F80_0000 ==> crate::input::pedal(value).bits == 0x3F80_0000
            && crate::input::pedal_inv(value).bits == 0,
        0xBF80_0000 <= value.bits <= 0xFF80_0000 ==> crate::input::pedal(value).bits == 0
            && crate::input::pedal_inv(value).bits == 0x3F80_0000,
        value.bits % 0x8000_0000 > 0x7F80_0000 ==> crate::input::pedal(value).bits == 0x7FC0_0000
            && crate::input::pedal_inv(value).bits == 0x7FC0_0000,
{
    crate::input::law_pedal_ends(value);
    crate::laws::numbers::law_larger(Single::of(0xBF80_0000), value);
    crate::laws::numbers::law_larger(value, Single::of(0x3F80_0000));
}

/// The direct pedal.
#[verifier::rlimit(30)]
proof fn lemma_half(value: Single, c: Single)
    requires
        value.bits % 0x8000_0000 <= 0x3F80_0000,
        c.finite(),
    ensures
        halves(crate::input::pedal(value), value.units() + pow2(149), c),
{
    let one: nat = pow2(149);
    let z: int = value.units() + one;
    let sum: Single = value.sum(Single::of(ONE));
    crate::arithmetic::lemma_one();
    crate::single::lemma_magnitude_monotone(value.pattern(), ONE as nat);
    crate::arithmetic::law_half(sum);
    assert(0 <= z <= 2 * one);
    crate::input::law_pedal_range(value);
    assert(Single::of(ONE).negated().units() == -(one as int));
    if z == 0 {
        crate::input::law_pedal_ends(value);
        assert(Single::of((crate::single::SIGN + ONE) as u32).reaches(value)) by {
            assert(value.units() == -(one as int));
        }
    } else {
        let p: nat = crate::single::nearest(z as nat, 1);
        crate::rounding::lemma_nearest_exists(z as nat, 1);
        // The axis and one, rounded, lies between 2^-24 and 2.
        lemma_raised(value);
        assert(sum.bits == p);
        let q: nat = (p - 0x80_0000) as nat;
        crate::single::lemma_magnitude_double(q);
        crate::rounding::lemma_nearest_exact(q, 2);
        assert(crate::single::magnitude(p) == crate::single::magnitude(q) * 2);
        assert(sum.product(Single::of(ONE_HALF)).bits == q);
        crate::single::lemma_magnitude_iff(q, ONE as nat);
        crate::single::lemma_magnitude_iff(q, 0);
        assert(crate::input::pedal(value).bits == q);
        // Twice any single is a single, or smaller than all of these.
        let cp: nat = c.pattern();
        if c.negative() {
            assert(crate::single::distance(p, z as nat, 1) <= crate::single::distance(
                0,
                z as nat,
                1,
            ));
        } else if cp >= 0x80_0000 {
            crate::single::lemma_magnitude_double(cp);
            if cp + 0x80_0000 <= crate::single::INFINITY {
                assert(crate::single::distance(p, z as nat, 1) <= crate::single::distance(
                    cp + 0x80_0000,
                    z as nat,
                    1,
                ));
            } else {
                crate::single::lemma_magnitude_monotone(
                    crate::single::INFINITY as nat,
                    cp + 0x80_0000,
                );
                lemma_top_above(z as nat);
                assert(crate::single::distance(p, z as nat, 1) <= crate::single::distance(
                    crate::single::INFINITY as nat,
                    z as nat,
                    1,
                ));
            }
        } else {
            crate::single::lemma_magnitude_of(cp, 0);
            crate::single::lemma_magnitude_of(2 * cp, 0);
            lemma2_to64();
            if 2 * cp <= 0x100_0000 {
                assert(crate::single::distance(p, z as nat, 1) <= crate::single::distance(
                    2 * cp,
                    z as nat,
                    1,
                ));
            }
        }
    }
}

/// Infinity counts as more than 2.
proof fn lemma_top_above(z: nat)
    requires
        z <= 2 * pow2(149),
    ensures
        crate::single::magnitude(crate::single::INFINITY as nat) > z,
{
    crate::arithmetic::lemma_one();
    crate::single::lemma_magnitude_double(ONE as nat);
    crate::single::lemma_magnitude_order(
        (ONE + 0x80_0000) as nat,
        crate::single::INFINITY as nat,
    );
}

/// An axis above -1 stands at least 2^-24 above it, and at most 2.
proof fn lemma_raised(value: Single)
    requires
        value.bits % 0x8000_0000 <= 0x3F80_0000,
        value.units() + pow2(149) > 0,
    ensures
        ({
            let p: nat = crate::single::nearest((value.units() + pow2(149)) as nat, 1);
            0x100_0000 <= p <= 0x4000_0000
        }),
{
    let one: nat = pow2(149);
    let z: nat = (value.units() + one) as nat;
    crate::arithmetic::lemma_one();
    lemma2_to64();
    // Twice 1.0.
    crate::single::lemma_magnitude_double(ONE as nat);
    crate::single::lemma_magnitude_monotone(value.pattern(), ONE as nat);
    crate::rounding::lemma_nearest_exact(0x4000_0000, 1);
    crate::rounding::lemma_nearest_monotone(z, 2 * one, 1);
    // The single before 1.0 is a part in 2^24 away from it.
    let below: nat = (ONE - 1) as nat;
    crate::single::lemma_magnitude_of(0xFF_FFFF, 125);
    crate::single::lemma_magnitude_of(0x100_0000, 125);
    assert(0x100_0000 * pow2(125) == 0xFF_FFFF * pow2(125) + pow2(125)) by (nonlinear_arith);
    assert(crate::single::magnitude(below) + pow2(125) == one);
    if value.negative() {
        crate::single::lemma_magnitude_iff(value.pattern(), ONE as nat);
        crate::single::lemma_magnitude_monotone(value.pattern(), below);
    } else {
        lemma_pow2_strictly_increases(125, 149);
    }
    assert(z >= pow2(125));
    crate::single::lemma_magnitude_of(0x80_0000, 102);
    lemma_pow2_adds(23, 102);
    let least: nat = 102 * 0x80_0000 + 0x80_0000;
    crate::rounding::lemma_nearest_exact(least, 1);
    crate::rounding::lemma_nearest_monotone(pow2(125), z, 1);
}

/// Without keys, an axis of the throttle moves the throttle, by either of its two names and
/// whichever way it runs, and nothing else.
pub proof fn law_throttle_axes(s: Overlay, keys: Keys, axis: Axis, value: Single, line: String)
    requires
        hands_off(keys),
        axis == Axis::LeftZ || axis == Axis::LeftStickY,
    ensures
        ({
            let t: Overlay = s.with_inputs(
                keys,
                seq![DeviceEvent::AxisChanged { axis, value, line }],
            );
            &&& !value.nan() && s.invert_throttle ==> t.throttle == crate::input::pedal_inv(value)
            &&& !value.nan() && !s.invert_throttle ==> t.throttle == crate::input::pedal(value)
            &&& value.nan() ==> t.throttle.bits == 0
            &&& s.inv() ==> t.brake == s.brake && t.clutch == s.clutch
            &&& t.steering == s.steering
        }),
{
    lemma_one_event(s, keys, DeviceEvent::AxisChanged { axis, value, line });
    crate::input::law_pedal_range(value);
}

/// Without keys, an axis of the brake moves the brake, and nothing else.
pub proof fn law_brake_axes(s: Overlay, keys: Keys, axis: Axis, value: Single, line: String)
    requires
        hands_off(keys),
        axis == Axis::RightZ || axis == Axis::RightStickY,
    ensures
        ({
            let t: Overlay = s.with_inputs(
                keys,
                seq![DeviceEvent::AxisChanged { axis, value, line }],
            );
            &&& !value.nan() && s.invert_brake ==> t.brake == crate::input::pedal_inv(value)
            &&& !value.nan() && !s.invert_brake ==> t.brake == crate::input::pedal(value)
            &&& value.nan() ==> t.brake.bits == 0
            &&& s.inv() ==> t.throttle == s.throttle && t.clutch == s.clutch
            &&& t.steering == s.steering
        }),
{
    lemma_one_event(s, keys, DeviceEvent::AxisChanged { axis, value, line });
    crate::input::law_pedal_range(value);
}

/// Without keys, the axis of the clutch moves the clutch, and nothing else.
pub proof fn law_clutch_axis(s: Overlay, keys: Keys, axis: Axis, value: Single, line: String)
    requires
        hands_off(keys),
        axis == Axis::RightStickX,
    ensures
        ({
            let t: Overlay = s.with_inputs(
                keys,
                seq![DeviceEvent::AxisChanged { axis, value, line }],
            );
            &&& !value.nan() && s.invert_clutch ==> t.clutch == crate::input::pedal_inv(value)
            &&& !value.nan() && !s.invert_clutch ==> t.clutch == crate::input::pedal(value)
            &&& value.nan() ==> t.clutch.bits == 0
            &&& s.inv() ==> t.throttle == s.throttle && t.brake == s.brake
            &&& t.steering == s.steering
        }),
{
    lemma_one_event(s, keys, DeviceEvent::AxisChanged { axis, value, line });
    crate::input::law_pedal_range(value);
}

/// Without keys, every other axis is the wheel, as it is.
pub proof fn law_wheel_axes(s: Overlay, keys: Keys, axis: Axis, value: Single, line: String)
    requires
        hands_off(keys),
        axis == Axis::LeftStickX || axis == Axis::DPadX || axis == Axis::DPadY || axis
            == Axis::Unknown,
    ensures
        ({
            let t: Overlay = s.with_inputs(
                keys,
                seq![DeviceEvent::AxisChanged { axis, value, line }],
            );
            &&& t.steering == value
            &&& s.inv() ==> t.throttle == s.throttle && t.brake == s.brake && t.clutch == s.clutch
        }),
{
    lemma_one_event(s, keys, DeviceEvent::AxisChanged { axis, value, line });
}

/// What is no movement of an axis changes nothing.
pub proof fn law_other_events(s: Overlay, keys: Keys)
    requires
        s.inv(),
        hands_off(keys),
    ensures
        s.with_inputs(keys, seq![DeviceEvent::Other]) == s,
{
    lemma_one_event(s, keys, DeviceEvent::Other);
    crate::steady::law_idle(s, keys);
}

/// One event, alone.
proof fn lemma_one_event(s: Overlay, keys: Keys, event: DeviceEvent)
    requires
        hands_off(keys),
    ensures
        s.with_inputs(keys, seq![event]) == s.reported(event).driven(keys),
{
    let events: Seq<DeviceEvent> = seq![event];
    assert(events.drop_last() =~= Seq::empty());
    reveal_with_fuel(Overlay::reported_all, 2);
    assert(s.keyed(keys) == s);
}

/// Events that come together do what they do one after the other.
#[verifier::rlimit(30)]
pub proof fn law_events_in_order(
    s: Overlay,
    keys: Keys,
    events: Seq<DeviceEvent>,
    last: DeviceEvent,
)
    requires
        hands_off(keys),
    ensures
        s.with_inputs(keys, events.push(last)) == s.with_inputs(keys, events).with_inputs(
            keys,
            seq![last],
        ),
{
    let t: Overlay = s.reported_all(events);
    assert(s.keyed(keys) == s);
    assert(events.push(last).drop_last() =~= events);
    assert(s.reported_all(events.push(last)) == t.reported(last));
    lemma_one_event(t.driven(keys), keys, last);
    lemma_released_between(t, keys, last);
}

/// It does not matter whether released keys are looked at before an event as well.
proof fn lemma_released_between(t: Overlay, keys: Keys, last: DeviceEvent)
    requires
        hands_off(keys),
    ensures
        t.driven(keys).reported(last).driven(keys) == t.reported(last).driven(keys),
{
    let a: Overlay = t.driven(keys).reported(last);
    let b: Overlay = t.reported(last);
    lemma_released(t, keys);
    lemma_released(a, keys);
    lemma_released(b, keys);
    lemma_released_twice(t.throttle);
    lemma_released_twice(t.brake);
    lemma_released_twice(t.clutch);
    lemma_event_on_released(t, keys, last);
}

/// An event on an overlay whose pedals were looked at, and on one whose pedals were not.
#[verifier::rlimit(30)]
proof fn lemma_event_on_released(t: Overlay, keys: Keys, last: DeviceEvent)
    requires
        hands_off(keys),
    ensures
        ({
            let u: Overlay = t.driven(keys);
            let a: Overlay = u.reported(last);
            let b: Overlay = t.reported(last);
            &&& a.throttle == b.throttle || a.throttle == u.throttle && b.throttle == t.throttle
            &&& a.brake == b.brake || a.brake == u.brake && b.brake == t.brake
            &&& a.clutch == b.clutch || a.clutch == u.clutch && b.clutch == t.clutch
            &&& a == (Overlay { throttle: a.throttle, brake: a.brake, clutch: a.clutch, ..b })
        }),
{
    lemma_released(t, keys);
    match last {
        DeviceEvent::AxisChanged { axis, value, line } => {
            let direct: Single = crate::input::pedal(value);
            let inverted: Single = crate::input::pedal_inv(value);
            lemma_moved(t, axis, value, line@, direct, inverted);
            lemma_moved(t.driven(keys), axis, value, line@, direct, inverted);
        },
        DeviceEvent::Other => {},
    }
}

/// Released keys leave all but the pedals as it is.
proof fn lemma_released(t: Overlay, keys: Keys)
    requires
        hands_off(keys),
    ensures
        t.driven(keys) == (Overlay {
            throttle: t.throttle.larger(Single::of(0)),
            brake: t.brake.larger(Single::of(0)),
            clutch: t.clutch.larger(Single::of(0)),
            ..t
        }),
{
}

/// An event, in terms of what the pedals would read.
proof fn lemma_moved(
    t: Overlay,
    axis: Axis,
    value: Single,
    line: Seq<char>,
    direct: Single,
    inverted: Single,
)
    requires
        direct == crate::input::pedal(value),
        inverted == crate::input::pedal_inv(value),
    ensures
        ({
            let u: Overlay = t.moved(axis, value, line);
            let log: Seq<Seq<char>> = if t.debug_mode {
                crate::input::logged(t.debug_log, line)
            } else {
                t.debug_log
            };
            u == (Overlay {
                throttle: if axis == Axis::LeftZ || axis == Axis::LeftStickY {
                    if t.invert_throttle {
                        inverted
                    } else {
                        direct
                    }
                } else {
                    t.throttle
                },
                brake: if axis == Axis::RightZ || axis == Axis::RightStickY {
                    if t.invert_brake {
                        inverted
                    } else {
                        direct
                    }
                } else {
                    t.brake
                },
                clutch: if axis == Axis::RightStickX {
                    if t.invert_clutch {
                        inverted
                    } else {
                        direct
                    }
                } else {
                    t.clutch
                },
                steering: if axis == Axis::LeftStickX || axis == Axis::DPadX || axis == Axis::DPadY
                    || axis == Axis::Unknown {
                    value
                } else {
                    t.steering
                },
                debug_log: log,
                ..t
            })
        }),
{
}

/// A released key lets a pedal be.
proof fn lemma_released_twice(x: Single)
    ensures
        x.larger(Single::of(0)).larger(Single::of(0)) == x.larger(Single::of(0)),
{
}

/// `D` turns the debug overlay on or off. `[` takes a second from the graph's window, down
/// to 2; then `]` adds one, up to 30.
pub proof fn law_keys_for_settings(s: Overlay, keys: Keys, events: Seq<DeviceEvent>)
    requires
        2 <= s.history_seconds <= 30,
    ensures
        ({
            let t: Overlay = s.with_inputs(keys, events);
            let shrunk: int = if !keys.shrink {
                s.history_seconds as int
            } else if s.history_seconds == 2 {
                2
            } else {
                s.history_seconds - 1
            };
            &&& keys.debug ==> t.debug_mode == !s.debug_mode
            &&& !keys.debug ==> t.debug_mode == s.debug_mode
            &&& !keys.grow ==> t.history_seconds == shrunk
            &&& keys.grow && shrunk < 30 ==> t.history_seconds == shrunk + 1
            &&& keys.grow && shrunk == 30 ==> t.history_seconds == 30
        }),
{
    lemma_settings_stay(s.keyed(keys), events);
}

/// A key that is held for a pedal presses it fully, and one that is held for the wheel
/// turns it fully, to the left before to the right.
pub proof fn law_held_keys(s: Overlay, keys: Keys, events: Seq<DeviceEvent>)
    requires
        s.inv(),
    ensures
        keys.throttle ==> s.with_inputs(keys, events).throttle.bits == 0x3F80_0000,
        keys.brake ==> s.with_inputs(keys, events).brake.bits == 0x3F80_0000,
        keys.clutch ==> s.with_inputs(keys, events).clutch.bits == 0x3F80_0000,
        keys.left ==> s.with_inputs(keys, events).steering.bits == 0xBF80_0000,
        !keys.left && keys.right ==> s.with_inputs(keys, events).steering.bits == 0x3F80_0000,
{
    crate::steady::law_keys_drive(s, keys, events);
}

/// A key that is not held leaves what the devices say.
pub proof fn law_released_keys(s: Overlay, keys: Keys, none: Keys, events: Seq<DeviceEvent>)
    requires
        hands_off(none),
    ensures
        ({
            let t: Overlay = s.with_inputs(keys, events);
            let u: Overlay = s.with_inputs(none, events);
            &&& !keys.throttle ==> t.throttle == u.throttle
            &&& !keys.brake ==> t.brake == u.brake
            &&& !keys.clutch ==> t.clutch == u.clutch
            &&& !keys.left && !keys.right ==> t.steering == u.steering
        }),
{
    lemma_same_pedals(s.keyed(keys), s.keyed(none), events);
    lemma_driven(
        s.keyed(keys).reported_all(events),
        s.keyed(none).reported_all(events),
        keys,
        none,
    );
}

/// Keys that are not held, on two overlays that agree in pedals and wheel.
proof fn lemma_driven(s: Overlay, t: Overlay, keys: Keys, none: Keys)
    requires
        hands_off(none),
        s.throttle == t.throttle && s.brake == t.brake && s.clutch == t.clutch,
        s.steering == t.steering,
    ensures
        !keys.throttle ==> s.driven(keys).throttle == t.driven(none).throttle,
        !keys.brake ==> s.driven(keys).brake == t.driven(none).brake,
        !keys.clutch ==> s.driven(keys).clutch == t.driven(none).clutch,
        !keys.left && !keys.right ==> s.driven(keys).steering == t.driven(none).steering,
{
}

/// The devices change neither the debug mode nor the window nor a switch, and nothing of
/// the game.
proof fn lemma_settings_stay(s: Overlay, events: Seq<DeviceEvent>)
    ensures
        ({
            let t: Overlay = s.reported_all(events);
            &&& t.debug_mode == s.debug_mode
            &&& t.history_seconds == s.history_seconds
            &&& t.history == s.history
            &&& t.last_sample_time == s.last_sample_time
            &&& crate::laws::packets::same_switches(s, t)
            &&& crate::laws::packets::same_game(s, t)
        }),
    decreases events.len(),
{
    if events.len() > 0 {
        lemma_settings_stay(s, events.drop_last());
    }
}

/// What the devices do to the pedals does not depend on the debug mode or the window.
proof fn lemma_same_pedals(s: Overlay, t: Overlay, events: Seq<DeviceEvent>)
    requires
        s.throttle == t.throttle && s.brake == t.brake && s.clutch == t.clutch,
        s.steering == t.steering,
        s.invert_throttle == t.invert_throttle && s.invert_brake == t.invert_brake,
        s.invert_clutch == t.invert_clutch,
    ensures
        ({
            let u: Overlay = s.reported_all(events);
            let v: Overlay = t.reported_all(events);
            &&& u.throttle == v.throttle && u.brake == v.brake && u.clutch == v.clutch
            &&& u.steering == v.steering
        }),
    decreases events.len(),
{
    if events.len() > 0 {
        lemma_same_pedals(s, t, events.drop_last());
        lemma_settings_stay(s, events.drop_last());
        lemma_settings_stay(t, events.drop_last());
    }
}

/// Inputs change nothing but pedals, wheel, debug mode, debug log and window.
pub proof fn law_inputs_leave_the_rest(s: Overlay, keys: Keys, events: Seq<DeviceEvent>)
    ensures
        ({
            let t: Overlay = s.with_inputs(keys, events);
            &&& t.history == s.history
            &&& t.last_sample_time == s.last_sample_time
            &&& crate::laws::packets::same_switches(s, t)
            &&& crate::laws::packets::same_game(s, t)
        }),
{
    lemma_settings_stay(s.keyed(keys), events);
}

/// The lines that come with the movements of axes, in their order.
pub open spec fn axis_lines(events: Seq<DeviceEvent>) -> Seq<Seq<char>>
    decreases events.len(),
{
    if events.len() == 0 {
        Seq::empty()
    } else {
        match events.last() {
            DeviceEvent::AxisChanged { axis, value, line } => axis_lines(events.drop_last()).push(
                line@,
            ),
            DeviceEvent::Other => axis_lines(events.drop_last()),
        }
    }
}

/// While the debug overlay is on, the log ends in the lines of the axes, of which the
/// newest twelve are kept; while it is off, the log stays as it is.
pub proof fn law_debug_log(s: Overlay, keys: Keys, events: Seq<DeviceEvent>)
    requires
        s.debug_log.len() <= 12,
    ensures
        ({
            let log: Seq<Seq<char>> = s.with_inputs(keys, events).debug_log;
            let all: Seq<Seq<char>> = s.debug_log + axis_lines(events);
            &&& s.debug_mode == keys.debug ==> log == s.debug_log
            &&& s.debug_mode != keys.debug && all.len() <= 12 ==> log == all
            &&& s.debug_mode != keys.debug && all.len() > 12 ==> log == all.skip(all.len() - 12)
        }),
{
    lemma_log(s.keyed(keys), events);
}

/// The log after some events.
proof fn lemma_log(s: Overlay, events: Seq<DeviceEvent>)
    requires
        s.debug_log.len() <= 12,
    ensures
        ({
            let log: Seq<Seq<char>> = s.reported_all(events).debug_log;
            let all: Seq<Seq<char>> = s.debug_log + axis_lines(events);
            &&& !s.debug_mode ==> log == s.debug_log
            &&& s.debug_mode && all.len() <= 12 ==> log == all
            &&& s.debug_mode && all.len() > 12 ==> log == all.skip(all.len() - 12)
        }),
    decreases events.len(),
{
    let all: Seq<Seq<char>> = s.debug_log + axis_lines(events);
    if events.len() == 0 {
        assert(all =~= s.debug_log);
    } else {
        let short: Seq<DeviceEvent> = events.drop_last();
        let before: Seq<Seq<char>> = s.debug_log + axis_lines(short);
        let log: Seq<Seq<char>> = s.reported_all(events).debug_log;
        lemma_log(s, short);
        lemma_settings_stay(s, short);
        match events.last() {
            DeviceEvent::AxisChanged { axis, value, line } => {
                assert(all =~= before.push(line@));
                if s.debug_mode {
                    if all.len() <= 12 {
                        assert(log =~= all);
                    } else {
                        assert(log =~= all.skip(all.len() - 12));
                    }
                }
            },
            DeviceEvent::Other => {
                assert(all =~= before);
            },
        }
    }
}

} // verus!
