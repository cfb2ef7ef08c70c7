//! What every state of the overlay has in common, and what follows from it.

use crate::input::DeviceEvent;
use crate::input::Keys;
use crate::overlay::Overlay;
use crate::overlay::Sample;
use crate::overlay::ABS_HOLD;
use crate::overlay::DEBUG_LINES;
use crate::overlay::MAX_HISTORY_SECONDS;
use crate::overlay::MIN_HISTORY_SECONDS;
use crate::overlay::SAMPLE_RATE_HZ;
use crate::overlay::SECOND;
use crate::overlay::SILENCE;
use crate::single::Single;
use crate::single::ONE;
use crate::telemetry::TelemetryData;
use vstd::prelude::*;

verus! {

/// The samples follow each other at no more than the sample rate.
pub open spec fn spaced(history: Seq<Sample>) -> bool {
    forall|i: int, j: int|
        0 <= i < j < history.len() ==> (#[trigger] history[j].t - #[trigger] history[i].t)
            * SAMPLE_RATE_HZ >= (j - i) * SECOND
}

/// A sample of pedals that are between 0 and 1.
pub open spec fn in_range(sample: Sample) -> bool {
    sample.throttle.bits <= ONE && sample.brake.bits <= ONE && sample.clutch.bits <= ONE
}

impl Overlay {
    /// Nothing is left of what a game told.
    pub open spec fn without_game(self) -> bool {
        &&& self.last_telemetry is None
        &&& self.gear is None
        &&& self.speed_kmh is None
        &&& self.rpm_pct == Single::of(0)
        &&& !self.abs_active
        &&& !self.abs_held
        &&& self.abs_hold_until is None
        &&& !self.tc_active
        &&& self.abs_vibration == Single::of(0)
        &&& self.throttle_game == Single::of(0)
        &&& self.steering_game is None
        &&& self.abs_source == "none"@
        &&& self.sim_name.len() == 0
        &&& self.probe_values.len() == 0
    }

    /// The pedals are between 0 and 1.
    pub open spec fn pedals_in_range(self) -> bool {
        self.throttle.bits <= ONE && self.brake.bits <= ONE && self.clutch.bits <= ONE
    }

    /// Each pedal is between 0 and 1, or no number at all.
    pub open spec fn pedals_sound(self) -> bool {
        &&& self.throttle.nan() || self.throttle.bits <= ONE
        &&& self.brake.nan() || self.brake.bits <= ONE
        &&& self.clutch.nan() || self.clutch.bits <= ONE
    }

    /// What holds beside the range of the pedals.
    pub open spec fn steady(self) -> bool {
        &&& MIN_HISTORY_SECONDS <= self.history_seconds <= MAX_HISTORY_SECONDS
        &&& self.debug_log.len() <= DEBUG_LINES
        &&& spaced(self.history)
        &&& forall|i: int| 0 <= i < self.history.len() ==> in_range(#[trigger] self.history[i])
        &&& self.history.len() > 0 ==> {
            &&& self.history.last().t == self.last_sample_time
            &&& self.history.last().t - self.history[0].t <= MAX_HISTORY_SECONDS * SECOND
        }
        &&& self.rpm_pct.bits <= ONE
        &&& self.abs_held ==> self.abs_hold_until is Some
        &&& self.last_telemetry is None ==> self.without_game()
    }

    /// What holds of the overlay between two frames.
    pub open spec fn inv(self) -> bool {
        self.pedals_in_range() && self.steady()
    }
}

/// The overlay starts in a state that satisfies the invariant.
pub proof fn law_initial()
    ensures
        Overlay::initial().inv(),
{
}

/// Whatever the devices report, the invariant holds once the inputs were read; in
/// particular the pedals are then between 0 and 1.
pub proof fn law_inputs_keep(s: Overlay, keys: Keys, events: Seq<DeviceEvent>)
    requires
        s.inv(),
    ensures
        s.with_inputs(keys, events).inv(),
{
    let keyed: Overlay = s.keyed(keys);
    assert(keyed.pedals_sound() && keyed.steady());
    lemma_events_keep(keyed, events);
}

/// What the devices report leaves each pedal between 0 and 1 or no number.
proof fn lemma_events_keep(s: Overlay, events: Seq<DeviceEvent>)
    requires
        s.pedals_sound(),
        s.steady(),
    ensures
        s.reported_all(events).pedals_sound(),
        s.reported_all(events).steady(),
    decreases events.len(),
{
    if events.len() > 0 {
        lemma_events_keep(s, events.drop_last());
        match events.last() {
            DeviceEvent::AxisChanged { axis, value, line } => {
                crate::input::law_pedal_range(value);
            },
            DeviceEvent::Other => {},
        }
    }
}

/// A sample keeps the invariant.
pub proof fn law_sample_keeps(s: Overlay, now: u64)
    requires
        s.inv(),
    ensures
        s.sampled(now).inv(),
{
    if s.sample_due(now) {
        let longer: Seq<Sample> = s.history.push(s.sample(now));
        let k: int = lemma_unexpired(longer, now, s.history_seconds * SECOND);
        assert(longer.last().t == now);
        let kept: Seq<Sample> = s.sampled(now).history;
        assert(forall|i: int| 0 <= i < kept.len() ==> #[trigger] kept[i] == longer[i + k]);
        assert(spaced(longer));
        assert(spaced(kept));
        assert(kept.last() == longer.last());
    }
}

/// What `unexpired` drops is the longest run of expired samples at the start.
pub proof fn lemma_unexpired(history: Seq<Sample>, now: u64, window: int) -> (k: int)
    requires
        window >= 0,
    ensures
        0 <= k <= history.len(),
        crate::overlay::unexpired(history, now, window) == history.skip(k),
        forall|i: int| 0 <= i < k ==> now - (#[trigger] history[i]).t > window,
        k < history.len() ==> now - history[k].t <= window,
    decreases history.len(),
{
    if history.len() > 0 && now - history[0].t > window {
        let k: int = lemma_unexpired(history.drop_first(), now, window);
        assert(history.drop_first().skip(k) =~= history.skip(k + 1));
        assert forall|i: int| 0 <= i < k + 1 implies now - (#[trigger] history[i]).t > window by {
            if i > 0 {
                assert(history.drop_first()[i - 1] == history[i]);
            }
        }
        k + 1
    } else {
        assert(history.skip(0) =~= history);
        0
    }
}

/// Packets, or their absence, keep the invariant.
pub proof fn law_poll_keeps(s: Overlay, packets: Seq<TelemetryData>, now: u64)
    requires
        s.inv(),
        now <= u64::MAX - ABS_HOLD,
    ensures
        s.polled(packets, now).inv(),
{
    if packets.len() > 0 {
        let data: TelemetryData = packets.last();
        law_engine_share(data.rpm, data.rpm, data.max_rpm);
    }
}

/// The engine's share of its highest speed is between 0 and 1, and does not fall when the
/// engine turns faster.
pub proof fn law_engine_share(rpm: Option<i32>, faster: Option<i32>, max_rpm: Option<i32>)
    requires
        rpm is Some <==> faster is Some,
        rpm is Some ==> rpm->0 <= faster->0,
    ensures
        crate::overlay::engine_share(rpm, max_rpm).bits <= crate::overlay::engine_share(
            faster,
            max_rpm,
        ).bits <= ONE,
{
    if let (Some(x), Some(y), Some(max)) = (rpm, faster, max_rpm) {
        if 0 < x < max {
            crate::arithmetic::law_share_bounds(x as nat, max as nat);
        }
        if 0 < y < max {
            crate::arithmetic::law_share_bounds(y as nat, max as nat);
        }
        if 0 < x && y < max {
            crate::arithmetic::law_share_monotone(x as nat, y as nat, max as nat);
        }
    }
}

/// The engine shifts the gear's colour: red at its highest speed, green up to the half of
/// it, and in between never back from red towards green as it turns faster.
pub proof fn law_engine_color(s: Overlay, data: TelemetryData, now: u64)
    requires
        data.gear is Some,
        data.rpm matches Some(rpm) && data.max_rpm matches Some(max) && 0 < rpm <= max,
    ensures
        data.rpm == data.max_rpm ==> crate::widgets::gear_color(
            s.informed(data, now).gear,
            s.informed(data, now).rpm_pct,
        ) == crate::color::Rgba::opaque(255, 40, 40),
        2 * data.rpm->0 <= data.max_rpm->0 ==> crate::widgets::gear_color(
            s.informed(data, now).gear,
            s.informed(data, now).rpm_pct,
        ) == crate::color::Rgba::opaque(50, 215, 50),
        forall|faster: i32|
            data.rpm->0 <= faster ==> crate::widgets::alarm(s.informed(data, now).rpm_pct)
                <= crate::widgets::alarm(
                #[trigger] crate::overlay::engine_share(Some(faster), data.max_rpm),
            ),
{
    let rpm: i32 = data.rpm->0;
    let max: i32 = data.max_rpm->0;
    let share: Single = s.informed(data, now).rpm_pct;
    crate::single::lemma_magnitude_iff(share.pattern(), crate::widgets::RPM_LIMIT as nat);
    crate::single::lemma_magnitude_iff(share.pattern(), crate::widgets::RPM_HIGH as nat);
    if rpm < max {
        crate::arithmetic::law_share_bounds(rpm as nat, max as nat);
    }
    assert forall|faster: i32| rpm <= faster implies crate::widgets::alarm(share)
        <= crate::widgets::alarm(
        #[trigger] crate::overlay::engine_share(Some(faster), data.max_rpm),
    ) by {
        let more: Single = crate::overlay::engine_share(Some(faster), data.max_rpm);
        law_engine_share(data.rpm, Some(faster), data.max_rpm);
        crate::single::lemma_magnitude_monotone(share.pattern(), more.pattern());
    }
}

/// Every frame keeps the invariant.
pub proof fn law_frame_keeps(
    s: Overlay,
    keys: Keys,
    events: Seq<DeviceEvent>,
    packets: Seq<TelemetryData>,
    now: u64,
)
    requires
        s.inv(),
        now <= u64::MAX - ABS_HOLD,
    ensures
        s.after_frame(keys, events, packets, now).inv(),
{
    law_inputs_keep(s, keys, events);
    law_sample_keeps(s.with_inputs(keys, events), now);
    law_poll_keeps(s.with_inputs(keys, events).sampled(now), packets, now);
}

/// The history never holds more samples than its longest window has room for.
pub proof fn law_history_bounded(s: Overlay)
    requires
        s.inv(),
    ensures
        s.history.len() <= MAX_HISTORY_SECONDS * SAMPLE_RATE_HZ + 1,
{
    if s.history.len() > 1 {
        let last: int = s.history.len() - 1;
        assert((s.history[last].t - s.history[0].t) * SAMPLE_RATE_HZ >= last * SECOND);
    }
}

/// Once a sample was taken, the history holds the samples of the window, and no others.
pub proof fn law_history_window(s: Overlay, now: u64)
    requires
        s.inv(),
        s.sample_due(now),
    ensures
        forall|x: Sample| #[trigger]
            s.sampled(now).history.contains(x) <==> s.history.push(s.sample(now)).contains(x)
                && now - x.t <= s.history_seconds * SECOND,
        s.sampled(now).history.len() > 0,
        s.sampled(now).history.last() == s.sample(now),
{
    let window: int = s.history_seconds * SECOND;
    let longer: Seq<Sample> = s.history.push(s.sample(now));
    let kept: Seq<Sample> = s.sampled(now).history;
    let k: int = lemma_unexpired(longer, now, window);
    assert(spaced(longer));
    assert(longer.last().t == now);
    assert forall|i: int| 0 <= i < longer.len() implies (now - (#[trigger] longer[i]).t <= window
        <==> i >= k) by {
        if i > k {
            assert(longer[i].t - longer[k].t >= 0);
        }
    }
    assert forall|x: Sample| #[trigger] kept.contains(x) implies longer.contains(x) && now - x.t
        <= window by {
        let i: int = kept.index_of(x);
        assert(longer[i + k] == x);
    }
    assert forall|x: Sample| longer.contains(x) && now - x.t <= window implies #[trigger] kept.contains(
        x,
    ) by {
        let i: int = longer.index_of(x);
        assert(kept[i - k] == x);
    }
}

/// Between two samples at least a sixtieth of a second passes: nothing is recorded before.
pub proof fn law_no_early_sample(s: Overlay, first: u64, second: u64)
    requires
        s.sample_due(first),
        (second - first) * SAMPLE_RATE_HZ < SECOND,
    ensures
        s.sampled(first).sampled(second) == s.sampled(first),
{
}

/// The window of the graph stays between its bounds, and shrinking undoes growing unless
/// the window was at its longest.
pub proof fn law_window_keys(s: Overlay, grow: Keys, shrink: Keys)
    requires
        s.inv(),
        grow.grow && !grow.shrink,
        shrink.shrink && !shrink.grow,
    ensures
        MIN_HISTORY_SECONDS <= s.keyed(grow).history_seconds <= MAX_HISTORY_SECONDS,
        MIN_HISTORY_SECONDS <= s.keyed(shrink).history_seconds <= MAX_HISTORY_SECONDS,
        s.history_seconds < MAX_HISTORY_SECONDS ==> s.keyed(grow).keyed(shrink).history_seconds
            == s.history_seconds,
        s.history_seconds > MIN_HISTORY_SECONDS ==> s.keyed(shrink).keyed(grow).history_seconds
            == s.history_seconds,
{
}

/// The debug key shows the debug overlay, and hides it again.
pub proof fn law_debug_key(s: Overlay, keys: Keys)
    requires
        keys.debug,
    ensures
        s.keyed(keys).debug_mode == !s.debug_mode,
        s.keyed(keys).keyed(keys).debug_mode == s.debug_mode,
{
}

/// A key that stands for a pedal presses it fully, whatever the devices report, and a key
/// that stands for the wheel turns it fully, the left one first.
pub proof fn law_keys_drive(s: Overlay, keys: Keys, events: Seq<DeviceEvent>)
    requires
        s.inv(),
    ensures
        keys.throttle ==> s.with_inputs(keys, events).throttle == Single::of(ONE),
        keys.brake ==> s.with_inputs(keys, events).brake == Single::of(ONE),
        keys.clutch ==> s.with_inputs(keys, events).clutch == Single::of(ONE),
        keys.left ==> s.with_inputs(keys, events).steering == Single::of(ONE).negated(),
        keys.right && !keys.left ==> s.with_inputs(keys, events).steering == Single::of(ONE),
{
    let t: Overlay = s.keyed(keys).reported_all(events);
    assert(s.keyed(keys).pedals_sound() && s.keyed(keys).steady());
    lemma_events_keep(s.keyed(keys), events);
    crate::single::lemma_magnitude_iff(t.throttle.pattern(), ONE as nat);
    crate::single::lemma_magnitude_iff(t.brake.pattern(), ONE as nat);
    crate::single::lemma_magnitude_iff(t.clutch.pattern(), ONE as nat);
}

/// Without a key and without a report nothing changes.
pub proof fn law_idle(s: Overlay, keys: Keys)
    requires
        s.inv(),
        !keys.debug && !keys.shrink && !keys.grow,
        !keys.throttle && !keys.brake && !keys.clutch && !keys.left && !keys.right,
    ensures
        s.with_inputs(keys, Seq::empty()) == s,
{
}

/// Without a game the gear reads `N` in gray and the speed a gray zero.
pub proof fn law_without_game(s: Overlay, h: Single)
    requires
        s.inv(),
        s.last_telemetry is None,
    ensures
        crate::widgets::gear_text(s.gear) == "N"@,
        crate::widgets::gear_color(s.gear, s.rpm_pct) == crate::color::Rgba::opaque(70, 70, 70),
        crate::widgets::speed_face(s.speed_kmh, h).text == "0"@,
        crate::widgets::speed_face(s.speed_kmh, h).color == crate::color::Rgba::opaque(55, 55, 55),
{
}

/// The wheel turns with the device, whatever the game tells.
pub proof fn law_wheel_follows_device(
    s: Overlay,
    packets: Seq<TelemetryData>,
    now: u64,
    h: Single,
    width: Single,
)
    ensures
        s.polled(packets, now).wheel_widget(h, width) == s.wheel_widget(h, width),
{
}

/// A game that has been silent for long is forgotten, and stays forgotten until it speaks
/// again; the pedals, the history and the settings stay as they are.
pub proof fn law_silence_forgets(s: Overlay, now: u64, later: u64)
    requires
        s.last_telemetry is Some,
        now - s.last_telemetry->0 > SILENCE,
    ensures
        s.polled(Seq::empty(), now) == s.forgotten(),
        s.polled(Seq::empty(), now).without_game(),
        s.polled(Seq::empty(), now).polled(Seq::empty(), later) == s.forgotten(),
        s.forgotten().throttle == s.throttle,
        s.forgotten().brake == s.brake,
        s.forgotten().clutch == s.clutch,
        s.forgotten().steering == s.steering,
        s.forgotten().history == s.history,
        s.forgotten().history_seconds == s.history_seconds,
{
}

/// Until then the last packet counts, and nothing changes.
pub proof fn law_pause_keeps(s: Overlay, now: u64)
    requires
        s.last_telemetry is Some,
        now - s.last_telemetry->0 <= SILENCE,
    ensures
        s.polled(Seq::empty(), now) == s,
{
}

/// Of the packets that have come since the last poll only the newest counts, and it is
/// never taken for old.
pub proof fn law_newest_packet(s: Overlay, packets: Seq<TelemetryData>, now: u64)
    requires
        packets.len() > 0,
    ensures
        s.polled(packets, now) == s.informed(packets.last(), now),
        s.polled(packets, now) == s.polled(seq![packets.last()], now),
{
    assert(seq![packets.last()].last() == packets.last());
}

/// The overlay after packets that came at the given moments.
pub open spec fn informed_all(
    s: Overlay,
    packets: Seq<TelemetryData>,
    moments: Seq<u64>,
) -> Overlay
    decreases packets.len(),
{
    if packets.len() == 0 {
        s
    } else {
        informed_all(s, packets.drop_last(), moments.drop_last()).informed(
            packets.last(),
            moments.last(),
        )
    }
}

/// ABS is shown for the time of the hold after it was last active, through any packets
/// that say it is not, and with the first packet after that time it is not shown.
pub proof fn law_abs_hold(
    s: Overlay,
    active: TelemetryData,
    at: u64,
    packets: Seq<TelemetryData>,
    moments: Seq<u64>,
)
    requires
        active.abs_active,
        at <= u64::MAX - ABS_HOLD,
        packets.len() == moments.len(),
        forall|i: int| 0 <= i < packets.len() ==> !(#[trigger] packets[i]).abs_active,
    ensures
        (forall|i: int| 0 <= i < moments.len() ==> #[trigger] moments[i] < at + ABS_HOLD)
            ==> informed_all(s.informed(active, at), packets, moments).abs_held,
        (exists|i: int| 0 <= i < moments.len() && #[trigger] moments[i] >= at + ABS_HOLD)
            ==> !informed_all(s.informed(active, at), packets, moments).abs_held,
        informed_all(s.informed(active, at), packets, moments).abs_hold_until == Some(
            (at + ABS_HOLD) as u64,
        ),
    decreases packets.len(),
{
    if packets.len() > 0 {
        let last: int = packets.len() - 1;
        law_abs_hold(s, active, at, packets.drop_last(), moments.drop_last());
        assert(!packets[last].abs_active);
        assert(moments.drop_last() =~= moments.take(last));
        if forall|i: int| 0 <= i < moments.len() ==> #[trigger] moments[i] < at + ABS_HOLD {
            assert(forall|i: int|
                0 <= i < last ==> #[trigger] moments.drop_last()[i] == moments[i]);
        }
        if exists|i: int| 0 <= i < moments.len() && #[trigger] moments[i] >= at + ABS_HOLD {
            let i: int = choose|i: int|
                0 <= i < moments.len() && #[trigger] moments[i] >= at + ABS_HOLD;
            if i < last {
                assert(moments.drop_last()[i] >= at + ABS_HOLD);
            }
        }
    }
}

/// The debug log keeps the newest lines, in their order.
pub proof fn law_log_keeps_newest(log: Seq<Seq<char>>, line: Seq<char>)
    requires
        log.len() <= DEBUG_LINES,
    ensures
        crate::input::logged(log, line).len() <= DEBUG_LINES,
        crate::input::logged(log, line).last() == line,
        crate::input::logged(log, line).drop_last() == if log.len() < DEBUG_LINES {
            log
        } else {
            log.drop_first()
        },
{
    assert(crate::input::logged(log, line).drop_last() =~= if log.len() < DEBUG_LINES {
        log
    } else {
        log.drop_first()
    });
}

} // verus!
