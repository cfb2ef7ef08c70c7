//! The state of the overlay, and how samples and packets change it.

use crate::single::Single;
use crate::single::ONE;
use crate::telemetry::TelemetryData;
use std::collections::VecDeque;
use vstd::prelude::*;

verus! {

/// Nanoseconds in a second.
pub const SECOND: u64 = 1_000_000_000;

/// How many seconds of history the graph shows at first.
pub const DEFAULT_HISTORY_SECONDS: u64 = 8;

/// The shortest and the longest history that the graph can show, in seconds.
pub const MIN_HISTORY_SECONDS: u64 = 2;

pub const MAX_HISTORY_SECONDS: u64 = 30;

/// How many samples are taken in a second, at most.
pub const SAMPLE_RATE_HZ: u64 = 60;

/// How long, in nanoseconds, ABS is shown after it was last seen.
pub const ABS_HOLD: u64 = 300_000_000;

/// The longest silence, in nanoseconds, after which the last packet still counts: two
/// seconds, as far as seconds in single precision tell them apart.
pub const SILENCE: u64 = 2_000_000_119;

/// How many lines the debug log keeps.
pub const DEBUG_LINES: usize = 12;

/// The pedals at one moment.
#[derive(Clone, Copy, PartialEq, Eq, Structural, Debug)]
pub struct Sample {
    /// The moment, in nanoseconds since the overlay started.
    pub t: u64,
    pub throttle: Single,
    pub brake: Single,
    pub clutch: Single,
    pub abs_vibration: Single,
    pub tc_active: bool,
    /// The throttle as the game applies it.
    pub throttle_game: Single,
}

/// The overlay. Moments are nanoseconds since it started.
#[derive(Debug)]
pub struct OverlayApp {
    pub throttle: Single,
    pub brake: Single,
    pub clutch: Single,
    pub steering: Single,
    pub steering_game: Option<Single>,
    pub history: VecDeque<Sample>,
    pub last_sample_time: u64,
    pub gear: Option<i8>,
    pub speed_kmh: Option<Single>,
    pub rpm_pct: Single,
    pub abs_active: bool,
    pub abs_held: bool,
    pub abs_hold_until: Option<u64>,
    pub tc_active: bool,
    pub abs_vibration: Single,
    pub throttle_game: Single,
    pub abs_source: &'static str,
    pub pedals_game_dbg: Option<(Single, Single, Single)>,
    pub pedals_raw_dbg: Option<(Single, Single, Single)>,
    pub sim_name: String,
    pub last_telemetry: Option<u64>,
    pub debug_mode: bool,
    pub debug_log: VecDeque<String>,
    pub resize_hover_start: Option<u64>,
    pub invert_throttle: bool,
    pub invert_brake: bool,
    pub invert_clutch: bool,
    pub show_graph: bool,
    pub show_gear: bool,
    pub show_speed: bool,
    pub show_wheel: bool,
    pub probe_values: Vec<(usize, Single)>,
    pub history_seconds: u64,
}

/// What an [`OverlayApp`] holds.
#[verifier::ext_equal]
pub struct Overlay {
    pub throttle: Single,
    pub brake: Single,
    pub clutch: Single,
    pub steering: Single,
    pub steering_game: Option<Single>,
    pub history: Seq<Sample>,
    pub last_sample_time: u64,
    pub gear: Option<i8>,
    pub speed_kmh: Option<Single>,
    pub rpm_pct: Single,
    pub abs_active: bool,
    pub abs_held: bool,
    pub abs_hold_until: Option<u64>,
    pub tc_active: bool,
    pub abs_vibration: Single,
    pub throttle_game: Single,
    pub abs_source: Seq<char>,
    pub pedals_game_dbg: Option<(Single, Single, Single)>,
    pub pedals_raw_dbg: Option<(Single, Single, Single)>,
    pub sim_name: Seq<char>,
    pub last_telemetry: Option<u64>,
    pub debug_mode: bool,
    pub debug_log: Seq<Seq<char>>,
    pub resize_hover_start: Option<u64>,
    pub invert_throttle: bool,
    pub invert_brake: bool,
    pub invert_clutch: bool,
    pub show_graph: bool,
    pub show_gear: bool,
    pub show_speed: bool,
    pub show_wheel: bool,
    pub probe_values: Seq<(usize, Single)>,
    pub history_seconds: u64,
}

impl View for OverlayApp {
    type V = Overlay;

    open spec fn view(&self) -> Overlay {
        Overlay {
            throttle: self.throttle,
            brake: self.brake,
            clutch: self.clutch,
            steering: self.steering,
            steering_game: self.steering_game,
            history: self.history@,
            last_sample_time: self.last_sample_time,
            gear: self.gear,
            speed_kmh: self.speed_kmh,
            rpm_pct: self.rpm_pct,
            abs_active: self.abs_active,
            abs_held: self.abs_held,
            abs_hold_until: self.abs_hold_until,
            tc_active: self.tc_active,
            abs_vibration: self.abs_vibration,
            throttle_game: self.throttle_game,
            abs_source: self.abs_source@,
            pedals_game_dbg: self.pedals_game_dbg,
            pedals_raw_dbg: self.pedals_raw_dbg,
            sim_name: self.sim_name@,
            last_telemetry: self.last_telemetry,
            debug_mode: self.debug_mode,
            debug_log: self.debug_log@.map_values(|line: String| line@),
            resize_hover_start: self.resize_hover_start,
            invert_throttle: self.invert_throttle,
            invert_brake: self.invert_brake,
            invert_clutch: self.invert_clutch,
            show_graph: self.show_graph,
            show_gear: self.show_gear,
            show_speed: self.show_speed,
            show_wheel: self.show_wheel,
            probe_values: self.probe_values@,
            history_seconds: self.history_seconds,
        }
    }
}

/// The history without the samples at its start that are older than `window` at `now`.
pub open spec fn unexpired(history: Seq<Sample>, now: u64, window: int) -> Seq<Sample>
    decreases history.len(),
{
    if history.len() > 0 && now - history[0].t > window {
        unexpired(history.drop_first(), now, window)
    } else {
        history
    }
}

/// How near the engine is to its highest speed, from 0 to 1, divided in double precision;
/// without a highest speed, 0.
pub open spec fn engine_share(rpm: Option<i32>, max_rpm: Option<i32>) -> Single {
    match (rpm, max_rpm) {
        (Some(rpm), Some(max)) => if rpm <= 0 || max <= 0 {
            Single { bits: 0 }
        } else if rpm >= max {
            Single { bits: ONE }
        } else {
            Single::of_share(rpm as nat, max as nat)
        },
        _ => Single { bits: 0 },
    }
}

impl Overlay {
    /// The overlay at its start.
    pub open spec fn initial() -> Overlay {
        Overlay {
            throttle: Single { bits: 0 },
            brake: Single { bits: 0 },
            clutch: Single { bits: 0 },
            steering: Single { bits: 0 },
            steering_game: None,
            history: Seq::empty(),
            last_sample_time: 0,
            gear: None,
            speed_kmh: None,
            rpm_pct: Single { bits: 0 },
            abs_active: false,
            abs_held: false,
            abs_hold_until: None,
            tc_active: false,
            abs_vibration: Single { bits: 0 },
            throttle_game: Single { bits: 0 },
            abs_source: "none"@,
            pedals_game_dbg: None,
            pedals_raw_dbg: None,
            sim_name: Seq::empty(),
            last_telemetry: None,
            debug_mode: false,
            debug_log: Seq::empty(),
            resize_hover_start: None,
            invert_throttle: false,
            invert_brake: true,
            invert_clutch: false,
            show_graph: true,
            show_gear: true,
            show_speed: true,
            show_wheel: true,
            probe_values: Seq::empty(),
            history_seconds: DEFAULT_HISTORY_SECONDS,
        }
    }

    /// What is recorded at `now`. Without a game, the throttle stands in for the throttle
    /// that the game applies.
    pub open spec fn sample(self, now: u64) -> Sample {
        Sample {
            t: now,
            throttle: self.throttle,
            brake: self.brake,
            clutch: self.clutch,
            abs_vibration: self.abs_vibration,
            tc_active: self.tc_active,
            throttle_game: if self.last_telemetry is Some {
                self.throttle_game
            } else {
                self.throttle
            },
        }
    }

    /// Enough time has passed since the last sample.
    pub open spec fn sample_due(self, now: u64) -> bool {
        (now - self.last_sample_time) * SAMPLE_RATE_HZ >= SECOND
    }

    /// The overlay after a sample was taken at `now`, if one was due.
    pub open spec fn sampled(self, now: u64) -> Overlay {
        if self.sample_due(now) {
            Overlay {
                last_sample_time: now,
                history: unexpired(
                    self.history.push(self.sample(now)),
                    now,
                    self.history_seconds * SECOND,
                ),
                ..self
            }
        } else {
            self
        }
    }

    /// The overlay after a packet arrived at `now`.
    pub open spec fn informed(self, data: TelemetryData, now: u64) -> Overlay {
        Overlay {
            gear: data.gear,
            speed_kmh: data.speed_kmh,
            rpm_pct: engine_share(data.rpm, data.max_rpm),
            abs_active: data.abs_active,
            abs_hold_until: if data.abs_active {
                Some((now + ABS_HOLD) as u64)
            } else {
                self.abs_hold_until
            },
            abs_held: data.abs_active || (self.abs_held && self.abs_hold_until is Some && now
                < self.abs_hold_until->0),
            tc_active: data.tc_active,
            abs_vibration: data.abs_vibration,
            throttle_game: match data.pedals_game {
                Some(pedals) => pedals.0,
                None => self.throttle,
            },
            steering_game: data.steer_angle,
            abs_source: data.abs_source@,
            pedals_game_dbg: data.pedals_game,
            pedals_raw_dbg: data.pedals_raw,
            sim_name: data.sim_name@,
            last_telemetry: Some(now),
            probe_values: if data.probe_values@.len() > 0 {
                data.probe_values@
            } else {
                self.probe_values
            },
            ..self
        }
    }

    /// The last packet is too old to count.
    pub open spec fn silent(self, now: u64) -> bool {
        self.last_telemetry is Some && now - self.last_telemetry->0 > SILENCE
    }

    /// The overlay after the game fell silent.
    pub open spec fn forgotten(self) -> Overlay {
        Overlay {
            gear: None,
            speed_kmh: None,
            rpm_pct: Single { bits: 0 },
            abs_active: false,
            abs_held: false,
            abs_hold_until: None,
            tc_active: false,
            abs_vibration: Single { bits: 0 },
            throttle_game: Single { bits: 0 },
            steering_game: None,
            abs_source: "none"@,
            sim_name: Seq::empty(),
            last_telemetry: None,
            probe_values: Seq::empty(),
            ..self
        }
    }

    /// The overlay after the packets that came in were looked at: the last one counts.
    pub open spec fn polled(self, packets: Seq<TelemetryData>, now: u64) -> Overlay {
        let next = if packets.len() > 0 {
            self.informed(packets.last(), now)
        } else {
            self
        };
        if next.silent(now) {
            next.forgotten()
        } else {
            next
        }
    }
}

impl OverlayApp {
    /// The overlay at its start.
    pub fn new() -> (r: OverlayApp)
        ensures
            r@ == Overlay::initial(),
            r@.inv(),
    {
        OverlayApp {
            throttle: Single { bits: 0 },
            brake: Single { bits: 0 },
            clutch: Single { bits: 0 },
            steering: Single { bits: 0 },
            steering_game: None,
            history: VecDeque::new(),
            last_sample_time: 0,
            gear: None,
            speed_kmh: None,
            rpm_pct: Single { bits: 0 },
            abs_active: false,
            abs_held: false,
            abs_hold_until: None,
            tc_active: false,
            abs_vibration: Single { bits: 0 },
            throttle_game: Single { bits: 0 },
            abs_source: "none",
            pedals_game_dbg: None,
            pedals_raw_dbg: None,
            sim_name: String::new(),
            last_telemetry: None,
            debug_mode: false,
            debug_log: VecDeque::new(),
            resize_hover_start: None,
            invert_throttle: false,
            invert_brake: true,
            invert_clutch: false,
            show_graph: true,
            show_gear: true,
            show_speed: true,
            show_wheel: true,
            probe_values: Vec::new(),
            history_seconds: DEFAULT_HISTORY_SECONDS,
        }
    }

    /// Takes a sample at `now` if one is due, and drops those that have left the window.
    pub fn update_history(&mut self, now: u64)
        ensures
            final(self)@ == old(self)@.sampled(now),
            old(self)@.inv() ==> final(self)@.inv(),
    {
        proof {
            if self@.inv() {
                crate::steady::law_sample_keeps(self@, now);
            }
        }
        if now < self.last_sample_time {
            return;
        }
        let passed: u128 = (now - self.last_sample_time) as u128;
        if passed * (SAMPLE_RATE_HZ as u128) < SECOND as u128 {
            return;
        }
        self.last_sample_time = now;
        let throttle_game: Single = if self.last_telemetry.is_some() {
            self.throttle_game
        } else {
            self.throttle
        };
        self.history.push_back(
            Sample {
                t: now,
                throttle: self.throttle,
                brake: self.brake,
                clutch: self.clutch,
                abs_vibration: self.abs_vibration,
                tc_active: self.tc_active,
                throttle_game,
            },
        );
        drop_expired(&mut self.history, now, self.history_seconds);
    }

    /// Takes in the packets that have come since the last call, and forgets the game once
    /// it has been silent for long.
    pub fn poll_telemetry(&mut self, packets: Vec<TelemetryData>, now: u64)
        requires
            now <= u64::MAX - ABS_HOLD,
        ensures
            final(self)@ == old(self)@.polled(packets@, now),
            old(self)@.inv() ==> final(self)@.inv(),
    {
        proof {
            if self@.inv() {
                crate::steady::law_poll_keeps(self@, packets@, now);
            }
        }
        let mut packets: Vec<TelemetryData> = packets;
        match packets.pop() {
            Some(data) => {
                self.accept(data, now);
            },
            None => {},
        }
        let silent: bool = match self.last_telemetry {
            Some(last) => now >= last && now - last > SILENCE,
            None => false,
        };
        if silent {
            self.forget();
        }
    }

    /// Takes in one packet.
    fn accept(&mut self, data: TelemetryData, now: u64)
        requires
            now <= u64::MAX - ABS_HOLD,
        ensures
            final(self)@ == old(self)@.informed(data, now),
    {
        let throttle_game: Single = match data.pedals_game {
            Some(pedals) => pedals.0,
            None => self.throttle,
        };
        let held: (bool, Option<u64>) = hold_abs(
            data.abs_active,
            self.abs_held,
            self.abs_hold_until,
            now,
        );
        let rpm_pct: Single = rpm_share(data.rpm, data.max_rpm);
        self.gear = data.gear;
        self.speed_kmh = data.speed_kmh;
        self.rpm_pct = rpm_pct;
        self.abs_active = data.abs_active;
        self.abs_held = held.0;
        self.abs_hold_until = held.1;
        self.tc_active = data.tc_active;
        self.abs_vibration = data.abs_vibration;
        self.throttle_game = throttle_game;
        self.steering_game = data.steer_angle;
        self.abs_source = data.abs_source;
        self.pedals_game_dbg = data.pedals_game;
        self.pedals_raw_dbg = data.pedals_raw;
        self.sim_name = data.sim_name;
        self.last_telemetry = Some(now);
        keep_nonempty(&mut self.probe_values, data.probe_values);
    }

    /// Forgets everything that the game told.
    fn forget(&mut self)
        ensures
            final(self)@ == old(self)@.forgotten(),
    {
        self.gear = None;
        self.speed_kmh = None;
        self.rpm_pct = Single { bits: 0 };
        self.abs_active = false;
        self.abs_held = false;
        self.abs_hold_until = None;
        self.tc_active = false;
        self.abs_vibration = Single { bits: 0 };
        self.throttle_game = Single { bits: 0 };
        self.steering_game = None;
        self.abs_source = "none";
        self.sim_name = String::new();
        self.last_telemetry = None;
        self.probe_values = Vec::new();
    }
}

/// Whether ABS is still shown after a packet, and until when it is held.
fn hold_abs(active: bool, held: bool, until: Option<u64>, now: u64) -> (r: (bool, Option<u64>))
    requires
        now <= u64::MAX - ABS_HOLD,
    ensures
        r.0 == (active || (held && until is Some && now < until->0)),
        r.1 == if active {
            Some((now + ABS_HOLD) as u64)
        } else {
            until
        },
{
    if active {
        (true, Some(now + ABS_HOLD))
    } else {
        match until {
            Some(end) => (held && now < end, until),
            None => (false, until),
        }
    }
}

/// Replaces the values unless the new ones are empty.
fn keep_nonempty(values: &mut Vec<(usize, Single)>, new: Vec<(usize, Single)>)
    ensures
        final(values)@ == if new@.len() > 0 {
            new@
        } else {
            old(values)@
        },
{
    if new.len() > 0 {
        *values = new;
    }
}

/// How near the engine is to its highest speed.
fn rpm_share(rpm: Option<i32>, max_rpm: Option<i32>) -> (r: Single)
    ensures
        r == engine_share(rpm, max_rpm),
{
    match (rpm, max_rpm) {
        (Some(rpm), Some(max)) => if rpm <= 0 || max <= 0 {
            Single { bits: 0 }
        } else if rpm >= max {
            Single { bits: ONE }
        } else {
            Single::share(rpm as u32, max as u32)
        },
        _ => Single { bits: 0 },
    }
}

/// Drops the samples that are older than so many seconds.
fn drop_expired(history: &mut VecDeque<Sample>, now: u64, seconds: u64)
    ensures
        final(history)@ == unexpired(old(history)@, now, seconds * SECOND),
{
    while history.len() > 0
        invariant
            unexpired(history@, now, seconds * SECOND) == unexpired(
                old(history)@,
                now,
                seconds * SECOND,
            ),
        ensures
            history@ == unexpired(old(history)@, now, seconds * SECOND),
        decreases history@.len(),
    {
        let t: u64 = history[0].t;
        if now >= t && (now - t) as u128 > seconds as u128 * SECOND as u128 {
            assert(history@.drop_first() =~= history@.subrange(1, history@.len() as int));
            history.pop_front();
        } else {
            break;
        }
    }
}

} // verus!
