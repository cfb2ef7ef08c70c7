//! Samples of the pedals, and how long they stay.

use crate::input::DeviceEvent;
use crate::input::Keys;
use crate::overlay::Overlay;
use crate::overlay::Sample;
use crate::telemetry::TelemetryData;
use vstd::prelude::*;

verus! {

/// Until a sixtieth of a second has passed since the last sample, nothing changes.
pub proof fn law_sample_waits(s: Overlay, now: u64)
    requires
        (now - s.last_sample_time) * 60 < 1_000_000_000,
    ensures
        s.sampled(now) == s,
{
}

/// From then on the newest sample is what the pedals are now. The throttle stands in for
/// the game's where there is no game.
pub proof fn law_sample_records(s: Overlay, now: u64)
    requires
        (now - s.last_sample_time) * 60 >= 1_000_000_000,
    ensures
        ({
            let t: Overlay = s.sampled(now);
            let x: Sample = t.history[t.history.len() - 1];
            &&& t.history.len() > 0
            &&& t.last_sample_time == now
            &&& x.t == now
            &&& x.throttle == s.throttle
            &&& x.brake == s.brake
            &&& x.clutch == s.clutch
            &&& x.abs_vibration == s.abs_vibration
            &&& x.tc_active == s.tc_active
            &&& s.last_telemetry is Some ==> x.throttle_game == s.throttle_game
            &&& s.last_telemetry is None ==> x.throttle_game == s.throttle
        }),
{
    lemma_dropped(s, now);
}

/// How many of the oldest samples leave when one is taken.
pub open spec fn dropped(s: Overlay, now: u64) -> int {
    s.history.len() + 1 - s.sampled(now).history.len()
}

/// With a new sample the oldest ones leave that are older than the window, and only those
/// up to the first that is not; all others stay as they are and in their order.
pub proof fn law_sample_drops(s: Overlay, now: u64)
    requires
        (now - s.last_sample_time) * 60 >= 1_000_000_000,
    ensures
        0 <= dropped(s, now) <= s.history.len(),
        forall|i: int|
            0 <= i < dropped(s, now) ==> now - (#[trigger] s.history[i]).t > s.history_seconds
                * 1_000_000_000,
        dropped(s, now) < s.history.len() ==> now - s.history[dropped(s, now)].t
            <= s.history_seconds * 1_000_000_000,
        forall|i: int|
            dropped(s, now) <= i < s.history.len() ==> s.sampled(now).history[i - dropped(s, now)]
                == #[trigger] s.history[i],
{
    lemma_dropped(s, now);
}

/// What a sample does to the history.
proof fn lemma_dropped(s: Overlay, now: u64)
    requires
        (now - s.last_sample_time) * 60 >= 1_000_000_000,
    ensures
        ({
            let longer: Seq<Sample> = s.history.push(s.sample(now));
            let k: int = dropped(s, now);
            &&& 0 <= k <= s.history.len()
            &&& s.sampled(now).history == longer.skip(k)
            &&& forall|i: int|
                0 <= i < k ==> now - (#[trigger] s.history[i]).t > s.history_seconds
                    * 1_000_000_000
            &&& k < s.history.len() ==> now - s.history[k].t <= s.history_seconds * 1_000_000_000
        }),
{
    let longer: Seq<Sample> = s.history.push(s.sample(now));
    let k: int = crate::steady::lemma_unexpired(longer, now, s.history_seconds * 1_000_000_000);
    if k == longer.len() {
        assert(now - longer[longer.len() - 1].t > s.history_seconds * 1_000_000_000);
    }
    assert(dropped(s, now) == k);
    assert forall|i: int| 0 <= i < k implies now - (#[trigger] s.history[i]).t > s.history_seconds
        * 1_000_000_000 by {
        assert(longer[i] == s.history[i]);
    }
}

/// A sample changes nothing but the history and when it was taken.
pub proof fn law_sample_leaves_the_rest(s: Overlay, now: u64)
    ensures
        ({
            let t: Overlay = s.sampled(now);
            &&& t.throttle == s.throttle && t.brake == s.brake && t.clutch == s.clutch
            &&& t.steering == s.steering
            &&& crate::laws::packets::same_settings(s, t)
            &&& crate::laws::packets::same_game(s, t)
        }),
{
}

/// In a frame the inputs are read first. The sample then has the new pedals, and what the
/// game told before; the packets of this frame count from the next sample on.
pub proof fn law_frame_order(
    s: Overlay,
    keys: Keys,
    events: Seq<DeviceEvent>,
    packets: Seq<TelemetryData>,
    now: u64,
)
    requires
        (now - s.last_sample_time) * 60 >= 1_000_000_000,
    ensures
        ({
            let driven: Overlay = s.with_inputs(keys, events);
            let t: Overlay = s.after_frame(keys, events, packets, now);
            let x: Sample = t.history[t.history.len() - 1];
            &&& t.history.len() > 0 && x.t == now
            &&& x.throttle == driven.throttle
            &&& x.brake == driven.brake
            &&& x.clutch == driven.clutch
            &&& x.tc_active == s.tc_active
            &&& x.abs_vibration == s.abs_vibration
            &&& t.throttle == driven.throttle
            &&& t.brake == driven.brake
            &&& t.clutch == driven.clutch
            &&& t.steering == driven.steering
            &&& t.history_seconds == driven.history_seconds
            &&& t.debug_mode == driven.debug_mode
            &&& t.debug_log == driven.debug_log
            &&& packets.len() > 0 ==> t.gear == packets[packets.len() - 1].gear
                && t.speed_kmh == packets[packets.len() - 1].speed_kmh
                && t.tc_active == packets[packets.len() - 1].tc_active
        }),
{
    let driven: Overlay = s.with_inputs(keys, events);
    let sampled: Overlay = driven.sampled(now);
    crate::laws::inputs::law_inputs_leave_the_rest(s, keys, events);
    law_sample_records(driven, now);
    law_sample_leaves_the_rest(driven, now);
    crate::laws::packets::law_poll_leaves_driver(sampled, packets, now);
    if packets.len() > 0 {
        crate::laws::packets::law_poll_shows_last_packet(sampled, packets, now);
    }
}

} // verus!
