//! Packets of the game, and their absence.

use crate::overlay::Overlay;
use crate::overlay::OverlayApp;
use crate::single::Single;
use crate::telemetry::TelemetryData;
use vstd::arithmetic::power2::*;
use vstd::prelude::*;

verus! {

/// What the driver does and what was set, as opposed to what the game tells.
pub open spec fn same_driver(s: Overlay, t: Overlay) -> bool {
    &&& t.throttle == s.throttle
    &&& t.brake == s.brake
    &&& t.clutch == s.clutch
    &&& t.steering == s.steering
    &&& t.history == s.history
    &&& t.last_sample_time == s.last_sample_time
    &&& same_settings(s, t)
}

/// What was set.
pub open spec fn same_settings(s: Overlay, t: Overlay) -> bool {
    &&& t.debug_mode == s.debug_mode
    &&& t.debug_log == s.debug_log
    &&& t.history_seconds == s.history_seconds
    &&& same_switches(s, t)
}

/// The switches of the debug overlay, and the hovered corner.
pub open spec fn same_switches(s: Overlay, t: Overlay) -> bool {
    &&& t.resize_hover_start == s.resize_hover_start
    &&& t.invert_throttle == s.invert_throttle
    &&& t.invert_brake == s.invert_brake
    &&& t.invert_clutch == s.invert_clutch
    &&& t.show_graph == s.show_graph
    &&& t.show_gear == s.show_gear
    &&& t.show_speed == s.show_speed
    &&& t.show_wheel == s.show_wheel
}

/// What the game told.
pub open spec fn same_game(s: Overlay, t: Overlay) -> bool {
    &&& t.gear == s.gear
    &&& t.speed_kmh == s.speed_kmh
    &&& t.rpm_pct == s.rpm_pct
    &&& t.abs_active == s.abs_active
    &&& t.abs_held == s.abs_held
    &&& t.abs_hold_until == s.abs_hold_until
    &&& t.tc_active == s.tc_active
    &&& t.abs_vibration == s.abs_vibration
    &&& t.throttle_game == s.throttle_game
    &&& t.steering_game == s.steering_game
    &&& t.abs_source == s.abs_source
    &&& t.pedals_game_dbg == s.pedals_game_dbg
    &&& t.pedals_raw_dbg == s.pedals_raw_dbg
    &&& t.sim_name == s.sim_name
    &&& t.last_telemetry == s.last_telemetry
    &&& t.probe_values == s.probe_values
}

/// A view of the overlay shows each of its fields as it is.
pub proof fn law_overlay_shows_its_fields(app: OverlayApp)
    ensures
        app@.throttle == app.throttle,
        app@.brake == app.brake,
        app@.clutch == app.clutch,
        app@.steering == app.steering,
        app@.steering_game == app.steering_game,
        app@.history == app.history@,
        app@.last_sample_time == app.last_sample_time,
        app@.gear == app.gear,
        app@.speed_kmh == app.speed_kmh,
        app@.rpm_pct == app.rpm_pct,
        app@.abs_active == app.abs_active,
        app@.abs_held == app.abs_held,
        app@.abs_hold_until == app.abs_hold_until,
        app@.tc_active == app.tc_active,
        app@.abs_vibration == app.abs_vibration,
        app@.throttle_game == app.throttle_game,
        app@.abs_source == app.abs_source@,
        app@.pedals_game_dbg == app.pedals_game_dbg,
        app@.pedals_raw_dbg == app.pedals_raw_dbg,
        app@.sim_name == app.sim_name@,
        app@.last_telemetry == app.last_telemetry,
        app@.debug_mode == app.debug_mode,
        app@.debug_log.len() == app.debug_log@.len(),
        forall|i: int|
            0 <= i < app.debug_log@.len() ==> #[trigger] app@.debug_log[i] == app.debug_log@[i]@,
        app@.resize_hover_start == app.resize_hover_start,
        app@.invert_throttle == app.invert_throttle,
        app@.invert_brake == app.invert_brake,
        app@.invert_clutch == app.invert_clutch,
        app@.show_graph == app.show_graph,
        app@.show_gear == app.show_gear,
        app@.show_speed == app.show_speed,
        app@.show_wheel == app.show_wheel,
        app@.probe_values == app.probe_values@,
        app@.history_seconds == app.history_seconds,
{
}

/// The overlay starts with the pedals released, without a game, with all widgets shown,
/// with only the brake inverted, and with eight seconds of history to come.
pub proof fn law_start()
    ensures
        ({
            let s: Overlay = Overlay::initial();
            &&& s.throttle.bits == 0 && s.brake.bits == 0 && s.clutch.bits == 0
            &&& s.steering.bits == 0
            &&& s.history.len() == 0 && s.last_sample_time == 0
            &&& s.gear is None && s.speed_kmh is None && s.rpm_pct.bits == 0
            &&& !s.abs_active && !s.abs_held && s.abs_hold_until is None && !s.tc_active
            &&& s.abs_vibration.bits == 0 && s.throttle_game.bits == 0
            &&& s.steering_game is None && s.abs_source == "none"@ && s.sim_name.len() == 0
            &&& s.pedals_game_dbg is None && s.pedals_raw_dbg is None
            &&& s.last_telemetry is None && s.probe_values.len() == 0
            &&& !s.debug_mode && s.debug_log.len() == 0 && s.resize_hover_start is None
            &&& !s.invert_throttle && s.invert_brake && !s.invert_clutch
            &&& s.show_graph && s.show_gear && s.show_speed && s.show_wheel
            &&& s.history_seconds == 8
        }),
{
}

/// After a poll that found packets the overlay shows what the last of them says, whatever
/// it showed before.
pub proof fn law_poll_shows_last_packet(s: Overlay, packets: Seq<TelemetryData>, now: u64)
    requires
        packets.len() > 0,
    ensures
        ({
            let t: Overlay = s.polled(packets, now);
            let d: TelemetryData = packets[packets.len() - 1];
            &&& t.gear == d.gear
            &&& t.speed_kmh == d.speed_kmh
            &&& t.abs_active == d.abs_active
            &&& t.tc_active == d.tc_active
            &&& t.abs_vibration == d.abs_vibration
            &&& t.steering_game == d.steer_angle
            &&& t.abs_source == d.abs_source@
            &&& t.pedals_game_dbg == d.pedals_game
            &&& t.pedals_raw_dbg == d.pedals_raw
            &&& t.sim_name == d.sim_name@
            &&& t.last_telemetry == Some(now)
            &&& d.pedals_game matches Some(pedals) ==> t.throttle_game == pedals.0
            &&& d.pedals_game is None ==> t.throttle_game == s.throttle
            &&& d.probe_values@.len() > 0 ==> t.probe_values == d.probe_values@
            &&& d.probe_values@.len() == 0 ==> t.probe_values == s.probe_values
        }),
{
}

/// What a poll finds never touches what the driver does or has set.
pub proof fn law_poll_leaves_driver(s: Overlay, packets: Seq<TelemetryData>, now: u64)
    ensures
        same_driver(s, s.polled(packets, now)),
{
}

/// A packet with ABS starts a hold of 300 ms; a packet without it leaves the hold as it
/// is, and ABS stays shown until the end of the hold and not from then on.
pub proof fn law_poll_abs(s: Overlay, packets: Seq<TelemetryData>, now: u64)
    requires
        packets.len() > 0,
        now <= u64::MAX - 300_000_000,
    ensures
        ({
            let t: Overlay = s.polled(packets, now);
            let active: bool = packets[packets.len() - 1].abs_active;
            &&& active ==> t.abs_held && t.abs_hold_until == Some((now + 300_000_000) as u64)
            &&& !active ==> t.abs_hold_until == s.abs_hold_until
            &&& !active ==> (t.abs_held <==> s.abs_held && (s.abs_hold_until matches Some(end)
                && now < end))
        }),
{
}

/// A poll without packets changes nothing while the last packet is at most two seconds old
/// (in single precision), or while there is no game at all.
pub proof fn law_poll_waits(s: Overlay, now: u64)
    requires
        s.last_telemetry matches Some(last) ==> now - last <= 2_000_000_119,
    ensures
        s.polled(Seq::empty(), now) == s,
{
}

/// A poll without packets clears what the game told once the last packet is older than
/// that; only the pedals for debugging stay.
pub proof fn law_poll_forgets(s: Overlay, now: u64)
    requires
        s.last_telemetry matches Some(last) && now - last > 2_000_000_119,
    ensures
        ({
            let t: Overlay = s.polled(Seq::empty(), now);
            &&& t.gear is None
            &&& t.speed_kmh is None
            &&& t.rpm_pct.bits == 0
            &&& !t.abs_active
            &&& !t.abs_held
            &&& t.abs_hold_until is None
            &&& !t.tc_active
            &&& t.abs_vibration.bits == 0
            &&& t.throttle_game.bits == 0
            &&& t.steering_game is None
            &&& t.abs_source == "none"@
            &&& t.sim_name.len() == 0
            &&& t.last_telemetry is None
            &&& t.probe_values.len() == 0
            &&& t.pedals_game_dbg == s.pedals_game_dbg
            &&& t.pedals_raw_dbg == s.pedals_raw_dbg
        }),
{
}

/// Where the engine's speed or its highest speed is not known, or not positive, its share
/// is 0; at the highest speed and above it is 1.
pub proof fn law_poll_engine_ends(s: Overlay, packets: Seq<TelemetryData>, now: u64)
    requires
        packets.len() > 0,
    ensures
        ({
            let t: Overlay = s.polled(packets, now);
            let d: TelemetryData = packets[packets.len() - 1];
            &&& (d.rpm is None || d.max_rpm is None) ==> t.rpm_pct.bits == 0
            &&& (d.rpm matches Some(rpm) && rpm <= 0) ==> t.rpm_pct.bits == 0
            &&& (d.max_rpm matches Some(max) && max <= 0) ==> t.rpm_pct.bits == 0
            &&& (d.rpm matches Some(rpm) && d.max_rpm matches Some(max) && 0 < max <= rpm)
                ==> t.rpm_pct.bits == 0x3F80_0000
        }),
{
}

/// In between, the share times the highest speed is the speed, to a part in 2^22.
pub proof fn law_poll_engine_share(
    s: Overlay,
    packets: Seq<TelemetryData>,
    now: u64,
    rpm: i32,
    max: i32,
)
    requires
        packets.len() > 0,
        packets[packets.len() - 1].rpm == Some(rpm),
        packets[packets.len() - 1].max_rpm == Some(max),
        0 < rpm < max,
    ensures
        ({
            let t: Overlay = s.polled(packets, now);
            &&& t.rpm_pct.bits <= 0x3F80_0000
            &&& crate::laws::numbers::apart(
                crate::single::magnitude(t.rpm_pct.bits as nat) * max,
                rpm * pow2(149),
            ) * 0x40_0000 <= rpm * pow2(149)
        }),
{
    crate::arithmetic::law_share_bounds(rpm as nat, max as nat);
    lemma_share(rpm as nat, max as nat);
}

/// The share is rounded twice: first to a number `n` of 53 binary digits, moved by `k`
/// places, and this to a single, of which none is nearer.
pub proof fn law_poll_engine_rounding(
    s: Overlay,
    packets: Seq<TelemetryData>,
    now: u64,
    rpm: i32,
    max: i32,
    k: nat,
    n: nat,
    c: Single,
)
    requires
        packets.len() > 0,
        packets[packets.len() - 1].rpm == Some(rpm),
        packets[packets.len() - 1].max_rpm == Some(max),
        0 < rpm < max,
        max * pow2(52) <= rpm * pow2(k) < max * pow2(53),
        2 * crate::laws::numbers::apart(n * max, rpm * pow2(k)) < max,
        !c.nan(),
    ensures
        ({
            let share: int = s.polled(packets, now).rpm_pct.units();
            crate::laws::numbers::apart(share * pow2(k), (n * pow2(149)) as int)
                <= crate::laws::numbers::apart(c.units() * pow2(k), (n * pow2(149)) as int)
        }),
{
    let part: nat = rpm as nat;
    let whole: nat = max as nat;
    let j: nat = crate::arithmetic::lemma_places_exist(part, whole);
    lemma_same_places(part, whole, j, k);
    lemma_same_places(part, whole, k, j);
    lemma_same_whole(part * pow2(k), whole, n);
    lemma_pow2_pos(k);
    crate::rounding::lemma_nearest_exists(n * pow2(149), pow2(k));
    let p: nat = crate::single::nearest(n * pow2(149), pow2(k));
    crate::laws::numbers::lemma_tie(p, c.pattern(), n * pow2(149), pow2(k));
    let m: int = crate::single::magnitude(c.pattern()) as int;
    assert((-m) * pow2(k) <= m * pow2(k)) by (nonlinear_arith)
        requires
            m >= 0,
            pow2(k) > 0,
    ;
    assert((-m) * pow2(k) == -(m * pow2(k))) by (nonlinear_arith);
}

/// A quotient has its 53 digits before the point in one place only.
proof fn lemma_same_places(part: nat, whole: nat, j: nat, k: nat)
    requires
        crate::single::fills_double(part, whole, j),
        crate::single::fills_double(part, whole, k),
    ensures
        j >= k,
{
    if j < k {
        lemma_pow2_unfold(53);
        lemma_pow2_unfold(j + 1);
        if j + 1 < k {
            lemma_pow2_strictly_increases(j + 1, k);
        }
        assert(part * pow2(k) >= 2 * (part * pow2(j))) by (nonlinear_arith)
            requires
                pow2(k) >= 2 * pow2(j),
        ;
        assert(whole * pow2(53) == 2 * (whole * pow2(52))) by (nonlinear_arith)
            requires
                pow2(53) == 2 * pow2(52),
        ;
    }
}

/// A whole number that is less than a half away is the nearest.
proof fn lemma_same_whole(num: nat, den: nat, n: nat)
    requires
        den > 0,
        2 * crate::laws::numbers::apart((n * den) as int, num as int) < den,
    ensures
        crate::single::nearest_whole(num, den) == n,
{
    let m: nat = crate::single::nearest_whole(num, den);
    lemma_nearest_whole(num, den);
    assert(m == n) by (nonlinear_arith)
        requires
            -den < m * den - n * den < den,
            den > 0,
    ;
}

/// A share times the whole is the part.
#[verifier::rlimit(30)]
proof fn lemma_share(part: nat, whole: nat)
    requires
        0 < part < whole <= 0x7FFF_FFFF,
    ensures
        crate::laws::numbers::apart(
            (crate::single::magnitude(Single::of_share(part, whole).bits as nat) * whole) as int,
            (part * pow2(149)) as int,
        ) * 0x40_0000 <= part * pow2(149),
{
    let o: int = pow2(149) as int;
    let j: nat = crate::arithmetic::lemma_places_exist(part, whole);
    let k: nat = crate::single::places(part, whole);
    assert(crate::single::fills_double(part, whole, j));
    assert(crate::single::fills_double(part, whole, k));
    let c: int = pow2(k) as int;
    let q: int = part * c;
    let n: nat = crate::single::nearest_whole(part * pow2(k), whole);
    lemma_nearest_whole(part * pow2(k), whole);
    crate::arithmetic::lemma_double_bounds(part, whole, k);
    lemma_pow2_pos(k);
    lemma_pow2_pos(149);
    crate::single::lemma_magnitude_of(0x80_0000, 254);
    lemma2_to64();
    lemma2_to64_rest();
    lemma_pow2_adds(23, 254);
    lemma_pow2_adds(53, 149);
    lemma_pow2_strictly_increases(202, 277);
    lemma_pow2_strictly_increases(60, 149);
    assert(n * pow2(149) <= pow2(202)) by (nonlinear_arith)
        requires
            n <= pow2(53),
            pow2(202) == pow2(53) * pow2(149),
    ;
    assert(pow2(277) <= pow2(277) * pow2(k)) by (nonlinear_arith)
        requires
            pow2(k) >= 1,
    ;
    crate::laws::numbers::lemma_close(n * pow2(149), pow2(k));
    let m: int = crate::single::magnitude(Single::of_share(part, whole).bits as nat) as int;
    let w: int = whole as int;
    let d: int = crate::laws::numbers::apart(m * c, n * o);
    // Scaled by the whole.
    assert(crate::laws::numbers::apart((m * w) * c, (n * w) * o) == d * w) by (nonlinear_arith)
        requires
            d == crate::laws::numbers::apart(m * c, n * o),
            w > 0,
    ;
    assert((d * w) * 0x100_0000 <= (n * w) * o + 0x80_0000 * (c * w)) by (nonlinear_arith)
        requires
            d * 0x100_0000 <= n * o + 0x80_0000 * c,
            w > 0,
    ;
    let e: int = crate::laws::numbers::apart(n * w, q);
    assert(crate::laws::numbers::apart((n * w) * o, q * o) == e * o) by (nonlinear_arith)
        requires
            e == crate::laws::numbers::apart(n * w, q),
            o > 0,
    ;
    let qo: int = q * o;
    assert((e * o) * 0x10_0000_0000 <= qo) by (nonlinear_arith)
        requires
            2 * e <= w,
            w * pow2(52) <= q,
            pow2(52) >= 0x10_0000_0000,
            qo == q * o,
            o > 0,
            w > 0,
    ;
    assert((c * w) * 0x100_0000 <= qo) by (nonlinear_arith)
        requires
            qo == (part * c) * o,
            part >= 1,
            c > 0,
            0 < w <= 0x7FFF_FFFF,
            o >= 0x7FFF_FFFF * 0x100_0000,
    ;
    assert(qo == (part * o) * c) by (nonlinear_arith)
        requires
            qo == (part * c) * o,
    ;
    assert(crate::laws::numbers::apart((m * w) * c, (part * o) * c) * 0x40_0000 <= (part * o) * c);
    crate::laws::faces::lemma_cancel(m * w, part * o, 0x40_0000, c);
}

/// The nearest whole number is at most a half away.
proof fn lemma_nearest_whole(num: nat, den: nat)
    requires
        den > 0,
    ensures
        2 * crate::laws::numbers::apart(
            (crate::single::nearest_whole(num, den) * den) as int,
            num as int,
        ) <= den,
{
    let below: nat = num / den;
    let rest: nat = num % den;
    assert(num == below * den + rest && rest < den) by (nonlinear_arith)
        requires
            den > 0,
            below == num / den,
            rest == num % den,
    ;
    assert((below + 1) * den == below * den + den) by (nonlinear_arith);
}

} // verus!
