//! The scan of the mappings, and the loop that sends packets.

use crate::probe::Changed;
use crate::probe::Findings;
use crate::probe::ListedView;
use crate::probe::LoopView;
use crate::probe::ProbeView;
use crate::probe::RecordView;
use crate::single::Single;
use crate::telemetry::AcPhysicsSnapshot;
use crate::telemetry::Mapping;
use crate::telemetry::PacketView;
use vstd::prelude::*;

verus! {

/// The singles of a page: one for every four bytes, each with the offset of its first byte
/// and with the bits that the bytes make.
pub proof fn law_values(page: Seq<u8>, byte_len: nat, i: int)
    requires
        byte_len <= page.len(),
        byte_len <= usize::MAX,
        0 <= 4 * i,
        4 * i + 4 <= byte_len,
    ensures
        crate::probe::values_of(page, byte_len).len() == byte_len / 4,
        crate::probe::values_of(page, byte_len)[i].0 == 4 * i,
        crate::laws::physics::holds(
            page,
            4 * i,
            crate::probe::values_of(page, byte_len)[i].1.bits as int,
        ),
{
}

/// A mapping has data where any byte that belongs to one of its singles is not zero.
pub proof fn law_has_data(i: int, page: Seq<u8>, byte_len: nat)
    requires
        byte_len <= page.len(),
        byte_len <= usize::MAX,
    ensures
        crate::probe::probe_of(i, page, byte_len).has_data <==> exists|k: int|
            0 <= k < byte_len - byte_len % 4 && #[trigger] page[k] != 0,
        crate::probe::probe_of(i, page, byte_len).values == crate::probe::values_of(page, byte_len),
{
    let values: Seq<(usize, Single)> = crate::probe::values_of(page, byte_len);
    if crate::probe::any_nonzero(values) {
        let j: int = choose|j: int| 0 <= j < values.len() && (#[trigger] values[j]).1.bits != 0;
        law_values(page, byte_len, j);
        assert(page[4 * j] != 0 || page[4 * j + 1] != 0 || page[4 * j + 2] != 0 || page[4 * j + 3]
            != 0);
    }
    if exists|k: int| 0 <= k < byte_len - byte_len % 4 && #[trigger] page[k] != 0 {
        let k: int = choose|k: int| 0 <= k < byte_len - byte_len % 4 && #[trigger] page[k] != 0;
        let j: int = k / 4;
        law_values(page, byte_len, j);
        assert(values[j].1.bits != 0);
    }
}

/// The mappings are told of in their order, and those without a page are left out. Each has
/// the label that belongs to its place.
pub proof fn law_probes(views: Seq<Mapping>, view: Mapping, byte_len: nat)
    ensures
        crate::probe::probes_of(Seq::empty(), byte_len).len() == 0,
        view is Absent || view is Unreadable ==> crate::probe::probes_of(views.push(view), byte_len)
            == crate::probe::probes_of(views, byte_len),
        view matches Mapping::Page(page) ==> {
            let probes: Seq<ProbeView> = crate::probe::probes_of(views.push(view), byte_len);
            &&& probes.drop_last() == crate::probe::probes_of(views, byte_len)
            &&& probes.len() == crate::probe::probes_of(views, byte_len).len() + 1
            &&& probes.last() == crate::probe::probe_of(views.len() as int, page@, byte_len)
            &&& probes.last().name == crate::names::shm_label(views.len() as int)
        },
{
    assert(views.push(view).drop_last() =~= views);
    match view {
        Mapping::Page(page) => {
            let probe: ProbeView = crate::probe::probe_of(views.len() as int, page@, byte_len);
            assert(crate::probe::probes_of(views, byte_len).push(probe).drop_last()
                =~= crate::probe::probes_of(views, byte_len));
        },
        _ => {},
    }
}

/// Written out are the values whose size is above 0.0001 and finite, in their order.
pub proof fn law_notable(values: Seq<(usize, Single)>)
    ensures
        crate::probe::notable_values(values) == values.filter(
            |x: (usize, Single)| 0x38D1_B717 < x.1.bits % 0x8000_0000 < 0x7F80_0000,
        ),
    decreases values.len(),
{
    reveal(Seq::filter);
    if values.len() > 0 {
        law_notable(values.drop_last());
        let x: Single = values.last().1;
        crate::laws::numbers::law_larger(x.absolute(), Single::of(0x38D1_B717));
        crate::laws::numbers::law_larger(x, x);
    }
}

/// A line of the list counts the values of which any bit is set, among all.
pub proof fn law_listed(probe: ProbeView)
    ensures
        ({
            let line: ListedView = crate::probe::listed(probe);
            &&& line.name == probe.name
            &&& line.has_data == probe.has_data
            &&& line.nonzero == probe.values.filter(|x: (usize, Single)| x.1.bits != 0).len()
            &&& line.total == probe.values.len()
        }),
{
    lemma_count(probe.values);
}

/// Counting is keeping and taking the length.
proof fn lemma_count(values: Seq<(usize, Single)>)
    ensures
        crate::probe::count_nonzero(values) == values.filter(
            |x: (usize, Single)| x.1.bits != 0,
        ).len(),
    decreases values.len(),
{
    reveal(Seq::filter);
    if values.len() > 0 {
        lemma_count(values.drop_last());
    }
}

/// The value has moved: it is finite, and by more than 0.001 away from its first reading.
pub open spec fn moved(value: Single, base: Single) -> bool {
    &&& value.bits % 0x8000_0000 < 0x7F80_0000
    &&& 0x3A83_126F < value.difference(base).bits % 0x8000_0000 <= 0x7F80_0000
}

/// The rows are those of the values that have moved, in their order: a value that has a
/// first reading and has moved adds a row that tells its offset, both readings and how far
/// they are apart. It is marked if it lies between 0 and 1.5 while the brake is pressed by
/// more than 0.3.
pub proof fn law_rows(
    values: Seq<(usize, Single)>,
    x: (usize, Single),
    baseline: Seq<(usize, Single)>,
    brake: Single,
)
    ensures
        crate::probe::changes(Seq::empty(), baseline, brake).len() == 0,
        ({
            let n: int = values.len() as int;
            let before: Seq<Changed> = crate::probe::changes(values, baseline, brake);
            let rows: Seq<Changed> = crate::probe::changes(values.push(x), baseline, brake);
            &&& n >= baseline.len() || !moved(x.1, baseline[n].1) ==> rows == before
            &&& n < baseline.len() && moved(x.1, baseline[n].1) ==> {
                &&& rows.len() == before.len() + 1
                &&& rows.drop_last() == before
                &&& rows.last().offset == x.0
                &&& rows.last().value == x.1
                &&& rows.last().base == baseline[n].1
                &&& rows.last().delta.bits == x.1.difference(baseline[n].1).bits % 0x8000_0000
                &&& rows.last().marked <==> (x.1.bits <= 0x3FC0_0000 || x.1.bits == 0x8000_0000)
                    && 0x3E99_999A < brake.bits <= 0x7F80_0000
            }
        }),
{
    let n: int = values.len() as int;
    assert(values.push(x).drop_last() =~= values);
    if n < baseline.len() {
        let d: Single = x.1.difference(baseline[n].1);
        let row: Changed = crate::probe::change(x, baseline[n].1, brake);
        crate::laws::numbers::law_larger(d, d);
        crate::laws::numbers::law_larger(d.absolute(), Single::of(0x3A83_126F));
        crate::laws::numbers::law_larger(x.1, Single::of(0));
        crate::laws::numbers::law_larger(Single::of(0x3FC0_0000), x.1);
        crate::laws::numbers::law_larger(brake, Single::of(0x3E99_999A));
        let before: Seq<Changed> = crate::probe::changes(values, baseline, brake);
        assert(before.push(row).drop_last() =~= before);
    }
}

/// Handed to the overlay are the rows up to offset 800 whose value lies between -1.5 and
/// 1.5, in their order, each with its offset and value.
pub proof fn law_assists_kept(rows: Seq<Changed>)
    ensures
        crate::probe::assists(rows) == rows.filter(
            |r: Changed| r.offset <= 800 && r.value.bits % 0x8000_0000 <= 0x3FC0_0000,
        ).map_values(|r: Changed| (r.offset, r.value)),
    decreases rows.len(),
{
    reveal(Seq::filter);
    let keeps = |r: Changed| r.offset <= 800 && r.value.bits % 0x8000_0000 <= 0x3FC0_0000;
    let tells = |r: Changed| (r.offset, r.value);
    if rows.len() > 0 {
        let row: Changed = rows.last();
        law_assists_kept(rows.drop_last());
        crate::laws::numbers::law_larger(row.value, Single::of(0xBFC0_0000));
        crate::laws::numbers::law_larger(Single::of(0x3FC0_0000), row.value);
        let rest: Seq<Changed> = rows.drop_last().filter(keeps);
        assert(rest.push(row).map_values(tells) =~= rest.map_values(tells).push(tells(row)));
    } else {
        assert(rows.filter(keeps).map_values(tells) =~= Seq::empty());
    }
}

/// The loop starts without a live mapping, without a first reading and without an engine
/// speed, and its clock starts now.
pub proof fn law_loop_starts(now: u64)
    ensures
        ({
            let s: LoopView = LoopView::started(now);
            &&& s.tick_count == 0
            &&& s.last_probe_time == now
            &&& s.active is None
            &&& s.baseline is None
            &&& s.highest_rpm == 0
        }),
{
}

/// A tick counts up, from the last number to zero. The mappings are scanned once 200 ms
/// went by since they were; a clock that went back does not bring a scan. A tick changes
/// nothing else.
pub proof fn law_tick(s: LoopView, now: u64)
    ensures
        s.due(now) <==> now >= s.last_probe_time + 200_000_000,
        s.tick_count < 0xFFFF_FFFF_FFFF_FFFF ==> s.ticked(now).tick_count == s.tick_count + 1,
        s.tick_count == 0xFFFF_FFFF_FFFF_FFFF ==> s.ticked(now).tick_count == 0,
        now >= s.last_probe_time + 200_000_000 ==> s.ticked(now).last_probe_time == now,
        now < s.last_probe_time + 200_000_000 ==> s.ticked(now).last_probe_time
            == s.last_probe_time,
        s.ticked(now).active == s.active,
        s.ticked(now).baseline == s.baseline,
        s.ticked(now).highest_rpm == s.highest_rpm,
{
}

/// The probe with the given place is the first with data.
pub open spec fn is_first(probes: Seq<ProbeView>, i: int) -> bool {
    &&& 0 <= i < probes.len()
    &&& probes[i].has_data
    &&& forall|j: int| 0 <= j < i ==> !(#[trigger] probes[j]).has_data
}

/// No mapping has data.
pub open spec fn none_live(probes: Seq<ProbeView>) -> bool {
    forall|j: int| 0 <= j < probes.len() ==> !(#[trigger] probes[j]).has_data
}

/// The first with data is where it is.
proof fn lemma_first(probes: Seq<ProbeView>, i: int)
    ensures
        is_first(probes, i) ==> crate::probe::first_live(probes) == i,
        none_live(probes) ==> crate::probe::first_live(probes) == probes.len(),
{
    crate::probe::law_first_live(probes);
    let n: int = crate::probe::first_live(probes) as int;
    if is_first(probes, i) {
        if n > i {
            assert(!probes[i].has_data);
        } else if n < i {
            assert(!probes[n].has_data);
        }
    }
}

/// A scan makes the first mapping with data the live one, and leaves the live one as it was
/// where none has data. It changes nothing else.
pub proof fn law_scan_finds(s: LoopView, probes: Seq<ProbeView>, i: int)
    ensures
        is_first(probes, i) ==> s.scanned(probes).active == Some(probes[i].name),
        none_live(probes) ==> s.scanned(probes).active == s.active,
        s.scanned(probes).tick_count == s.tick_count,
        s.scanned(probes).last_probe_time == s.last_probe_time,
        s.scanned(probes).baseline == s.baseline,
        s.scanned(probes).highest_rpm == s.highest_rpm,
{
    lemma_first(probes, i);
}

/// The mappings are listed while none is live, and every 1800 ticks.
pub open spec fn lists(s: LoopView) -> bool {
    s.active is None || s.tick_count % 1800 == 0
}

/// One for an entry that is made, else zero.
pub open spec fn entry(made: bool) -> int {
    if made {
        1
    } else {
        0
    }
}

/// What a scan logs where the mapping `i` is the first with data: the list, if one is due;
/// then that the mapping is live, unless it was before; then a snapshot of it every 300
/// ticks.
pub proof fn law_scan_logs(s: LoopView, probes: Seq<ProbeView>, i: int)
    requires
        is_first(probes, i),
    ensures
        ({
            let records: Seq<RecordView> = s.scan_records(probes);
            let found: int = entry(lists(s));
            let news: bool = s.active is None || s.active->0 != probes[i].name;
            let snapshot: int = found + entry(news);
            &&& records.len() == snapshot + entry(s.tick_count % 300 == 0)
            &&& lists(s) ==> (records[0] matches RecordView::List(rows) && rows.len()
                == probes.len() && forall|k: int|
                0 <= k < rows.len() ==> #[trigger] rows[k] == crate::probe::listed(probes[k]))
            &&& news ==> (records[found] matches RecordView::Active { name, values } && name
                == probes[i].name && values == crate::probe::notable_values(probes[i].values))
            &&& s.tick_count % 300 == 0 ==> (records[snapshot] matches RecordView::Snapshot {
                name,
                values,
            } && name == probes[i].name && values == crate::probe::notable_values(probes[i].values))
        }),
{
    lemma_first(probes, i);
}

/// What a scan logs where no mapping has data: the list, if one is due; where there is no
/// mapping at all, that there is none in its place.
pub proof fn law_scan_logs_nothing_live(s: LoopView, probes: Seq<ProbeView>)
    requires
        none_live(probes),
    ensures
        ({
            let records: Seq<RecordView> = s.scan_records(probes);
            &&& !lists(s) ==> records.len() == 0
            &&& lists(s) ==> records.len() == 1
            &&& lists(s) && probes.len() == 0 ==> records[0] is Nothing
            &&& lists(s) && probes.len() > 0 ==> (records[0] matches RecordView::List(rows)
                && rows.len() == probes.len() && forall|k: int|
                0 <= k < rows.len() ==> #[trigger] rows[k] == crate::probe::listed(probes[k]))
        }),
{
    lemma_first(probes, 0);
}

/// A first reading is wanted while a mapping is live and none was kept; it is kept where it
/// is wanted and a physics page was read.
pub proof fn law_first_reading(
    s: LoopView,
    snap: Option<AcPhysicsSnapshot>,
    first: Option<Seq<(usize, Single)>>,
)
    ensures
        s.wants_first() <==> s.active is Some && s.baseline is None,
        s.active is Some && s.baseline is None && snap is Some ==> s.finished(snap, first).baseline
            == first,
        s.active is None || s.baseline is Some || snap is None ==> s.finished(snap, first).baseline
            == s.baseline,
        s.finished(snap, first).active == s.active,
        s.finished(snap, first).tick_count == s.tick_count,
        s.finished(snap, first).last_probe_time == s.last_probe_time,
{
}

/// The highest engine speed is the larger of what it was and of what was read, and a packet
/// names it once it is above zero.
pub proof fn law_highest_speed(
    s: LoopView,
    snap: Option<AcPhysicsSnapshot>,
    first: Option<Seq<(usize, Single)>>,
    page: AcPhysicsSnapshot,
    values: Option<Seq<(usize, Single)>>,
)
    ensures
        snap is None ==> s.finished(snap, first).highest_rpm == s.highest_rpm,
        snap matches Some(x) ==> {
            let high: i32 = s.finished(snap, first).highest_rpm;
            high >= s.highest_rpm && high >= x.rpms && (high == s.highest_rpm || high == x.rpms)
        },
        s.highest_rpm > 0 ==> s.packet(page, values).max_rpm == Some(s.highest_rpm),
        s.highest_rpm <= 0 ==> s.packet(page, values).max_rpm is None,
{
}

/// The packet of a tick is about the page that was read, and its probed values are those of
/// the rows of the live mapping; without a live mapping, a first reading or a reading there
/// are none.
pub proof fn law_tick_packet(
    s: LoopView,
    page: AcPhysicsSnapshot,
    values: Option<Seq<(usize, Single)>>,
)
    ensures
        ({
            let packet: PacketView = s.packet(page, values);
            &&& packet == crate::telemetry::packet_of(page, packet.max_rpm, packet.probe_values)
            &&& s.active is None || s.baseline is None || values is None
                ==> packet.probe_values.len() == 0
            &&& s.active is Some && s.baseline is Some && values is Some ==> packet.probe_values
                == crate::probe::assists(
                crate::probe::changes(values->0, s.baseline->0, page.brake),
            )
        }),
{
}

/// What moved is logged while the brake is pressed by more than 0.1, if anything moved.
pub proof fn law_moved_logged(
    s: LoopView,
    values: Option<Seq<(usize, Single)>>,
    brake: Single,
)
    ensures
        ({
            let found: Findings = s.findings(values, brake);
            let rows: Seq<Changed> = crate::probe::changes(values->0, s.baseline->0, brake);
            let pressed: bool = 0x3DCC_CCCD < brake.bits <= 0x7F80_0000;
            &&& s.active is None || s.baseline is None || values is None ==> found.record is None
            &&& s.active is Some && s.baseline is Some && values is Some ==> {
                &&& rows.len() == 0 || !pressed ==> found.record is None
                &&& rows.len() > 0 && pressed ==> found.record == Some(
                    RecordView::Moved { brake, rows },
                )
            }
        }),
{
    crate::laws::numbers::law_larger(brake, Single::of(0x3DCC_CCCD));
}

/// The mapping to look into is the live one, by its label closed by a NUL; there is none
/// without a live mapping, or with one that is not among the known six.
pub proof fn law_target(s: LoopView, i: int)
    ensures
        s.active is None ==> s.target() is None,
        0 <= i < 6 && s.active == Some(crate::names::shm_label(i)) ==> (s.target() matches Some(
            bytes,
        ) && {
            &&& bytes.len() == crate::names::shm_label(i).len() + 1
            &&& bytes.last() == 0
            &&& forall|k: int|
                0 <= k < bytes.len() - 1 ==> #[trigger] bytes[k] == crate::names::shm_label(
                    i,
                )[k] as u8
        }),
        (s.active matches Some(label) && label != crate::names::shm_label(0) && label
            != crate::names::shm_label(1) && label != crate::names::shm_label(2) && label
            != crate::names::shm_label(3) && label != crate::names::shm_label(4) && label
            != crate::names::shm_label(5)) ==> s.target() is None,
{
    if 0 <= i < 6 {
        assert(crate::names::is_known(crate::names::shm_label(i)));
    }
}

} // verus!
