//! What the game tells about the car: its physics page, and the packet made of it.

use crate::single::Single;
use crate::single::ONE;
use vstd::prelude::*;

verus! {

/// How many bytes of the physics page are read.
pub const PHYSICS_BYTES: usize = 368;

/// The pattern of 0.01: above it the brake's oscillation means that ABS works.
pub const ABS_FLOOR: u32 = 0x3C23_D70A;

/// The pattern of 0.5: above it the throttle's oscillation means that traction control
/// works.
pub const TC_FLOOR: u32 = 0x3F00_0000;

/// A packet from the telemetry thread to the overlay.
#[derive(Debug)]
pub struct TelemetryData {
    pub sim_name: String,
    /// Below zero is reverse, zero is neutral.
    pub gear: Option<i8>,
    pub speed_kmh: Option<Single>,
    pub rpm: Option<i32>,
    pub max_rpm: Option<i32>,
    pub abs_active: bool,
    pub tc_active: bool,
    pub abs_vibration: Single,
    pub steer_angle: Option<Single>,
    /// Throttle, brake and clutch as the game applies them.
    pub pedals_game: Option<(Single, Single, Single)>,
    /// Throttle, brake and clutch as the driver presses them.
    pub pedals_raw: Option<(Single, Single, Single)>,
    pub abs_source: &'static str,
    /// Offsets and values that look like assists.
    pub probe_values: Vec<(usize, Single)>,
}

/// The fields of the physics page that the overlay uses.
#[derive(Clone, Copy, PartialEq, Eq, Structural, Debug)]
pub struct AcPhysicsSnapshot {
    pub gas: Single,
    pub brake: Single,
    pub clutch: Single,
    pub steer_angle: Single,
    pub speed_kmh: Single,
    /// Zero is reverse, one is neutral, two is the first gear.
    pub gear: i32,
    pub rpms: i32,
    pub abs_active: bool,
    pub tc_active: bool,
    pub abs_vibration: Single,
}

/// What came of an attempt to look into a mapping.
#[derive(Debug)]
pub enum Mapping {
    /// No mapping of that name is open.
    Absent,
    /// The mapping is there, but could not be viewed.
    Unreadable,
    /// The bytes at the start of the mapping.
    Page(Vec<u8>),
}

impl Mapping {
    /// The bytes that could be read.
    pub open spec fn bytes(self) -> Option<Seq<u8>> {
        match self {
            Mapping::Page(page) => Some(page@),
            _ => None,
        }
    }
}

/// The number that four bytes at `offset` make, the lowest first.
pub open spec fn word_at(page: Seq<u8>, offset: int) -> u32 {
    (page[offset] + 0x100 * page[offset + 1] + 0x1_0000 * page[offset + 2] + 0x100_0000
        * page[offset + 3]) as u32
}

/// The single that four bytes at `offset` make.
pub open spec fn single_at(page: Seq<u8>, offset: int) -> Single {
    Single { bits: word_at(page, offset) }
}

/// A word, read as a number in two's complement.
pub open spec fn signed(word: u32) -> i32 {
    if word < 0x8000_0000 {
        word as i32
    } else {
        (word - 0x1_0000_0000) as i32
    }
}

/// The lowest byte of a number, read in two's complement.
pub open spec fn low_byte(x: int) -> i8 {
    if x % 0x100 < 0x80 {
        (x % 0x100) as i8
    } else {
        (x % 0x100 - 0x100) as i8
    }
}

/// What a physics page says.
pub open spec fn physics_of(page: Seq<u8>) -> AcPhysicsSnapshot {
    AcPhysicsSnapshot {
        gas: single_at(page, 4),
        brake: single_at(page, 8),
        clutch: single_at(page, 364),
        steer_angle: single_at(page, 24),
        speed_kmh: single_at(page, 28),
        gear: signed(word_at(page, 16)),
        rpms: signed(word_at(page, 20)),
        abs_active: single_at(page, 252).exceeds(Single { bits: ABS_FLOOR }),
        tc_active: single_at(page, 204).exceeds(Single { bits: TC_FLOOR }),
        abs_vibration: single_at(page, 252).clamped(Single { bits: 0 }, Single { bits: ONE }),
    }
}

/// The four bytes at `offset` as one number.
pub fn read_word(page: &[u8], offset: usize) -> (word: u32)
    requires
        offset + 4 <= page@.len(),
    ensures
        word == word_at(page@, offset as int),
{
    page[offset] as u32 + 0x100 * page[offset + 1] as u32 + 0x1_0000 * page[offset + 2] as u32
        + 0x100_0000 * page[offset + 3] as u32
}

/// The four bytes at `offset` as one single.
pub fn read_single(page: &[u8], offset: usize) -> (value: Single)
    requires
        offset + 4 <= page@.len(),
    ensures
        value == single_at(page@, offset as int),
{
    Single { bits: read_word(page, offset) }
}

/// The four bytes at `offset` as one number in two's complement.
pub fn read_signed(page: &[u8], offset: usize) -> (value: i32)
    requires
        offset + 4 <= page@.len(),
    ensures
        value == signed(word_at(page@, offset as int)),
{
    let word: u32 = read_word(page, offset);
    if word < 0x8000_0000 {
        word as i32
    } else {
        (word as i64 - 0x1_0000_0000) as i32
    }
}

/// What a look at the mappings of both games says about the car.
pub open spec fn read_of(newer: Mapping, older: Mapping) -> Option<AcPhysicsSnapshot> {
    match if newer is Absent {
        older.bytes()
    } else {
        newer.bytes()
    } {
        Some(page) => Some(physics_of(page)),
        None => None,
    }
}

/// The physics of the car, from the page of the newer game or, where the newer game has
/// none open, from that of the older one.
pub fn read_ac_shared_physics(newer: &Mapping, older: &Mapping) -> (snap: Option<
    AcPhysicsSnapshot,
>)
    requires
        newer.bytes() matches Some(page) ==> page.len() >= PHYSICS_BYTES,
        older.bytes() matches Some(page) ==> page.len() >= PHYSICS_BYTES,
    ensures
        snap == match if newer is Absent { older.bytes() } else { newer.bytes() } {
            Some(page) => Some(physics_of(page)),
            None => None,
        },
        snap == read_of(*newer, *older),
{
    let chosen: &Mapping = match newer {
        Mapping::Absent => older,
        _ => newer,
    };
    match chosen {
        Mapping::Page(bytes) => {
            let page: &[u8] = bytes.as_slice();
            let abs_field: Single = read_single(page, 252);
            let tc_field: Single = read_single(page, 204);
            Some(
                AcPhysicsSnapshot {
                    gas: read_single(page, 4),
                    brake: read_single(page, 8),
                    clutch: read_single(page, 364),
                    steer_angle: read_single(page, 24),
                    speed_kmh: read_single(page, 28),
                    gear: read_signed(page, 16),
                    rpms: read_signed(page, 20),
                    abs_active: abs_field.gt(Single { bits: ABS_FLOOR }),
                    tc_active: tc_field.gt(Single { bits: TC_FLOOR }),
                    abs_vibration: abs_field.clamp(Single { bits: 0 }, Single { bits: ONE }),
                },
            )
        },
        _ => None,
    }
}

/// What a [`TelemetryData`] tells.
#[verifier::ext_equal]
pub struct PacketView {
    pub sim_name: Seq<char>,
    pub gear: Option<i8>,
    pub speed_kmh: Option<Single>,
    pub rpm: Option<i32>,
    pub max_rpm: Option<i32>,
    pub abs_active: bool,
    pub tc_active: bool,
    pub abs_vibration: Single,
    pub steer_angle: Option<Single>,
    pub pedals_game: Option<(Single, Single, Single)>,
    pub pedals_raw: Option<(Single, Single, Single)>,
    pub abs_source: Seq<char>,
    pub probe_values: Seq<(usize, Single)>,
}

impl View for TelemetryData {
    type V = PacketView;

    open spec fn view(&self) -> PacketView {
        PacketView {
            sim_name: self.sim_name@,
            gear: self.gear,
            speed_kmh: self.speed_kmh,
            rpm: self.rpm,
            max_rpm: self.max_rpm,
            abs_active: self.abs_active,
            tc_active: self.tc_active,
            abs_vibration: self.abs_vibration,
            steer_angle: self.steer_angle,
            pedals_game: self.pedals_game,
            pedals_raw: self.pedals_raw,
            abs_source: self.abs_source@,
            probe_values: self.probe_values@,
        }
    }
}

/// The packet that tells the overlay about a physics page. The game counts gears from
/// reverse, the overlay from neutral.
pub open spec fn packet_of(
    snap: AcPhysicsSnapshot,
    max_rpm: Option<i32>,
    probed: Seq<(usize, Single)>,
) -> PacketView {
    PacketView {
        sim_name: "AC Evo (SHM)"@,
        gear: Some(low_byte(snap.gear - 1)),
        speed_kmh: Some(snap.speed_kmh),
        rpm: Some(snap.rpms),
        max_rpm,
        abs_active: snap.abs_active,
        tc_active: snap.tc_active,
        abs_vibration: snap.abs_vibration,
        steer_angle: Some(snap.steer_angle),
        pedals_game: Some((snap.gas, snap.brake, snap.clutch)),
        pedals_raw: None,
        abs_source: "shm"@,
        probe_values: probed,
    }
}

impl TelemetryData {
    /// The packet that tells the overlay about a physics page, with the highest engine
    /// speed as far as it is known, and with values that look like assists.
    pub fn from_physics(
        snap: &AcPhysicsSnapshot,
        max_rpm: Option<i32>,
        probe_values: Vec<(usize, Single)>,
    ) -> (data: TelemetryData)
        ensures
            data@ == packet_of(*snap, max_rpm, probe_values@),
    {
        let below: i32 = snap.gear.wrapping_sub(1);
        let gear: i8 = #[verifier::truncate] (below as i8);
        proof {
            lemma_low_byte(below);
        }
        TelemetryData {
            sim_name: "AC Evo (SHM)".to_owned(),
            gear: Some(gear),
            speed_kmh: Some(snap.speed_kmh),
            rpm: Some(snap.rpms),
            max_rpm,
            abs_active: snap.abs_active,
            tc_active: snap.tc_active,
            abs_vibration: snap.abs_vibration,
            steer_angle: Some(snap.steer_angle),
            pedals_game: Some((snap.gas, snap.brake, snap.clutch)),
            pedals_raw: None,
            abs_source: "shm",
            probe_values,
        }
    }
}

/// A cast to a byte keeps the lowest byte.
proof fn lemma_low_byte(x: i32)
    ensures
        x as i8 == low_byte(x as int),
{
    assert(x % 0x100 < 0x80 ==> x as i8 == x % 0x100) by (bit_vector);
    assert(x % 0x100 >= 0x80 ==> x as i8 == x % 0x100 - 0x100) by (bit_vector);
}

} // verus!
