//! The physics page of the game, and the packet made of it.

use crate::single::Single;
use crate::telemetry::AcPhysicsSnapshot;
use crate::telemetry::Mapping;
use crate::telemetry::PacketView;
use crate::telemetry::TelemetryData;
use vstd::prelude::*;

verus! {

/// The four bytes at an offset make the number `n`, the lowest byte first.
pub open spec fn holds(page: Seq<u8>, offset: int, n: int) -> bool {
    page[offset] + 256 * (page[offset + 1] + 256 * (page[offset + 2] + 256 * page[offset + 3]))
        == n
}

/// The four bytes at an offset make the number `n` in two's complement.
pub open spec fn holds_signed(page: Seq<u8>, offset: int, n: int) -> bool {
    holds(page, offset, if n < 0 { n + 0x1_0000_0000 } else { n })
}

/// The page says the gear at offset 16 and the engine's speed at offset 20, whatever they
/// are.
pub proof fn law_page_whole_numbers(page: Seq<u8>, gear: i32, rpms: i32)
    requires
        page.len() >= 368,
        holds_signed(page, 16, gear as int),
        holds_signed(page, 20, rpms as int),
    ensures
        crate::telemetry::physics_of(page).gear == gear,
        crate::telemetry::physics_of(page).rpms == rpms,
{
}

/// The page says the throttle at offset 4, the brake at 8, the steering at 24, the speed at
/// 28 and the clutch at 364, whatever they are.
pub proof fn law_page_singles(
    page: Seq<u8>,
    gas: u32,
    brake: u32,
    steer: u32,
    speed: u32,
    clutch: u32,
)
    requires
        page.len() >= 368,
        holds(page, 4, gas as int),
        holds(page, 8, brake as int),
        holds(page, 24, steer as int),
        holds(page, 28, speed as int),
        holds(page, 364, clutch as int),
    ensures
        crate::telemetry::physics_of(page).gas.bits == gas,
        crate::telemetry::physics_of(page).brake.bits == brake,
        crate::telemetry::physics_of(page).steer_angle.bits == steer,
        crate::telemetry::physics_of(page).speed_kmh.bits == speed,
        crate::telemetry::physics_of(page).clutch.bits == clutch,
{
}

/// The page says by the single at offset 252 whether ABS works, namely above 0.01, and how
/// hard, between 0 and 1; and by the one at 204 whether traction control works, namely
/// above 0.5.
pub proof fn law_page_assists(page: Seq<u8>, abs: u32, tc: u32)
    requires
        page.len() >= 368,
        holds(page, 252, abs as int),
        holds(page, 204, tc as int),
    ensures
        ({
            let snap: AcPhysicsSnapshot = crate::telemetry::physics_of(page);
            &&& snap.abs_active <==> 0x3C23_D70A < abs <= 0x7F80_0000
            &&& snap.tc_active <==> 0x3F00_0000 < tc <= 0x7F80_0000
            &&& abs <= 0x3F80_0000 ==> snap.abs_vibration.bits == abs
            &&& 0x3F80_0000 < abs <= 0x7F80_0000 ==> snap.abs_vibration.bits == 0x3F80_0000
            &&& 0x8000_0000 < abs <= 0xFF80_0000 ==> snap.abs_vibration.bits == 0
            &&& abs == 0x8000_0000 ==> snap.abs_vibration.bits == abs
            &&& abs % 0x8000_0000 > 0x7F80_0000 ==> snap.abs_vibration.bits == abs
        }),
{
    crate::laws::numbers::law_larger(Single::of(abs), Single::of(0x3C23_D70A));
    crate::laws::numbers::law_larger(Single::of(tc), Single::of(0x3F00_0000));
    crate::laws::numbers::law_larger(Single::of(0), Single::of(abs));
    crate::laws::numbers::law_larger(Single::of(abs), Single::of(0x3F80_0000));
}

/// The physics come from the newer game if it has a mapping open, whether that can be
/// viewed or not, and from the older one otherwise.
pub proof fn law_newer_game_first(newer: Mapping, older: Mapping)
    ensures
        newer matches Mapping::Page(page) ==> crate::telemetry::read_of(newer, older) == Some(
            crate::telemetry::physics_of(page@),
        ),
        newer is Unreadable ==> crate::telemetry::read_of(newer, older) is None,
        newer is Absent ==> (older matches Mapping::Page(page) ==> crate::telemetry::read_of(
            newer,
            older,
        ) == Some(crate::telemetry::physics_of(page@))),
        newer is Absent && !(older is Page) ==> crate::telemetry::read_of(newer, older) is None,
{
}

/// A packet repeats what the page says.
pub proof fn law_packet_repeats(
    snap: AcPhysicsSnapshot,
    max_rpm: Option<i32>,
    probed: Seq<(usize, Single)>,
)
    ensures
        ({
            let packet: PacketView = crate::telemetry::packet_of(snap, max_rpm, probed);
            &&& packet.sim_name == "AC Evo (SHM)"@
            &&& packet.speed_kmh == Some(snap.speed_kmh)
            &&& packet.rpm == Some(snap.rpms)
            &&& packet.max_rpm == max_rpm
            &&& packet.abs_active == snap.abs_active
            &&& packet.tc_active == snap.tc_active
            &&& packet.abs_vibration == snap.abs_vibration
            &&& packet.steer_angle == Some(snap.steer_angle)
            &&& packet.pedals_game == Some((snap.gas, snap.brake, snap.clutch))
            &&& packet.pedals_raw is None
            &&& packet.abs_source == "shm"@
            &&& packet.probe_values == probed
        }),
{
}

/// The gear of a packet is one less than that of the page, as far as it fits into a byte;
/// beyond, they differ by whole multiples of 256.
pub proof fn law_packet_gear(
    snap: AcPhysicsSnapshot,
    max_rpm: Option<i32>,
    probed: Seq<(usize, Single)>,
)
    ensures
        ({
            let gear: Option<i8> = crate::telemetry::packet_of(snap, max_rpm, probed).gear;
            &&& gear is Some
            &&& (gear->0 - (snap.gear - 1)) % 256 == 0
            &&& -127 <= snap.gear <= 128 ==> gear->0 == snap.gear - 1
        }),
{
}

/// From the page to the letter: a page with 0 at offset 16 reads `R`, with 1 it reads `N`,
/// and with the first gear and up, which are 2 and up, it reads the number of the gear.
pub proof fn law_page_to_letter(
    page: Seq<u8>,
    gear: i32,
    max_rpm: Option<i32>,
    probed: Seq<(usize, Single)>,
)
    requires
        page.len() >= 368,
        holds_signed(page, 16, gear as int),
    ensures
        ({
            let packet: PacketView = crate::telemetry::packet_of(
                crate::telemetry::physics_of(page),
                max_rpm,
                probed,
            );
            let text: Seq<char> = crate::widgets::gear_text(packet.gear);
            &&& -127 <= gear <= 0 ==> text == seq!['R']
            &&& gear == 1 ==> text == seq!['N']
            &&& 2 <= gear <= 128 ==> {
                &&& crate::laws::words::all_digits(text)
                &&& crate::laws::words::number_in(text) == gear - 1
                &&& text[0] != '0'
            }
        }),
{
    reveal_strlit("R");
    reveal_strlit("N");
    assert("R"@ =~= seq!['R']);
    assert("N"@ =~= seq!['N']);
    assert(crate::telemetry::physics_of(page).gear == gear);
    if 2 <= gear <= 128 {
        crate::laws::words::law_decimal((gear - 1) as nat);
    }
}

/// A view of a packet shows each of its fields as it is, and a view of a mapping its bytes.
pub proof fn law_packet_shows_its_fields(data: TelemetryData, mapping: Mapping)
    ensures
        data@.sim_name == data.sim_name@,
        data@.gear == data.gear,
        data@.speed_kmh == data.speed_kmh,
        data@.rpm == data.rpm,
        data@.max_rpm == data.max_rpm,
        data@.abs_active == data.abs_active,
        data@.tc_active == data.tc_active,
        data@.abs_vibration == data.abs_vibration,
        data@.steer_angle == data.steer_angle,
        data@.pedals_game == data.pedals_game,
        data@.pedals_raw == data.pedals_raw,
        data@.abs_source == data.abs_source@,
        data@.probe_values == data.probe_values@,
        mapping matches Mapping::Page(page) ==> mapping.bytes() == Some(page@),
        !(mapping is Page) ==> mapping.bytes() is None,
{
}

} // verus!
