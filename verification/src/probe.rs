//! The telemetry loop: when to look for the game, which mapping is the live one, and what
//! changed in it.
//!
//! The thread that runs the loop sleeps, looks into the mappings and writes the log; what
//! it looks at next and what it writes is decided here.

use crate::names::shm_label_at;
use crate::names::SHM_COUNT;
use crate::names::find_name_bytes;
use crate::single::Single;
use crate::telemetry::read_single;
use crate::telemetry::AcPhysicsSnapshot;
use crate::telemetry::Mapping;
use crate::telemetry::PacketView;
use crate::telemetry::TelemetryData;
use vstd::prelude::*;

verus! {

/// How many bytes of each mapping are looked at.
pub const PROBE_BYTES: usize = 1500;

/// How long the loop waits, in nanoseconds, between two scans of the mappings.
pub const PROBE_INTERVAL: u64 = 200_000_000;

/// After so many ticks the mappings are listed again.
pub const LIST_TICKS: u64 = 1800;

/// After so many ticks the live mapping is written out.
pub const SNAPSHOT_TICKS: u64 = 300;

/// Beyond this offset no value is taken for an assist.
pub const LAST_OFFSET: usize = 800;

/// The pattern of 0.0001: a value of that size counts as zero.
pub const NOISE: u32 = 0x38D1_B717;

/// The pattern of 0.001: a value that moved by so little has not changed.
pub const STEADY: u32 = 0x3A83_126F;

/// The pattern of 0.1: below it the brake is not pressed.
pub const BRAKE_TOUCHED: u32 = 0x3DCC_CCCD;

/// The pattern of 0.3: above it the brake is pressed hard enough for ABS.
pub const BRAKE_PRESSED: u32 = 0x3E99_999A;

/// The pattern of 1.5, the largest value that an assist may have.
pub const ASSIST_TOP: u32 = 0x3FC0_0000;

/// The pattern of -1.5, the smallest value that an assist may have.
pub const ASSIST_BOTTOM: u32 = 0xBFC0_0000;

/// A mapping that is open, and the singles at its start.
#[derive(Debug)]
pub struct Probe {
    pub name: String,
    pub has_data: bool,
    pub values: Vec<(usize, Single)>,
}

/// What a [`Probe`] says.
pub struct ProbeView {
    pub name: Seq<char>,
    pub has_data: bool,
    pub values: Seq<(usize, Single)>,
}

impl View for Probe {
    type V = ProbeView;

    open spec fn view(&self) -> ProbeView {
        ProbeView { name: self.name@, has_data: self.has_data, values: self.values@ }
    }
}

/// One line of a list of mappings.
#[derive(Debug)]
pub struct Listed {
    pub name: String,
    pub has_data: bool,
    pub nonzero: usize,
    pub total: usize,
}

/// What a [`Listed`] says.
pub struct ListedView {
    pub name: Seq<char>,
    pub has_data: bool,
    pub nonzero: nat,
    pub total: nat,
}

impl View for Listed {
    type V = ListedView;

    open spec fn view(&self) -> ListedView {
        ListedView {
            name: self.name@,
            has_data: self.has_data,
            nonzero: self.nonzero as nat,
            total: self.total as nat,
        }
    }
}

/// A value that has moved away from its first reading.
#[derive(Clone, Copy, PartialEq, Eq, Structural, Debug)]
pub struct Changed {
    pub offset: usize,
    pub value: Single,
    pub base: Single,
    pub delta: Single,
    /// The value may be the ABS flag.
    pub marked: bool,
}

/// An entry of the probe's log.
#[derive(Debug)]
pub enum Record {
    /// The mappings that were found.
    List(Vec<Listed>),
    /// The live mapping is another one than before.
    Active { name: String, values: Vec<(usize, Single)> },
    /// The live mapping, written out.
    Snapshot { name: String, values: Vec<(usize, Single)> },
    /// No mapping was found.
    Nothing,
    /// Values that moved while the brake was pressed.
    Moved { brake: Single, rows: Vec<Changed> },
}

/// What a [`Record`] says.
pub enum RecordView {
    List(Seq<ListedView>),
    Active { name: Seq<char>, values: Seq<(usize, Single)> },
    Snapshot { name: Seq<char>, values: Seq<(usize, Single)> },
    Nothing,
    Moved { brake: Single, rows: Seq<Changed> },
}

impl View for Record {
    type V = RecordView;

    open spec fn view(&self) -> RecordView {
        match self {
            Record::List(rows) => RecordView::List(rows@.map_values(|r: Listed| r@)),
            Record::Active { name, values } => RecordView::Active {
                name: name@,
                values: values@,
            },
            Record::Snapshot { name, values } => RecordView::Snapshot {
                name: name@,
                values: values@,
            },
            Record::Nothing => RecordView::Nothing,
            Record::Moved { brake, rows } => RecordView::Moved { brake: *brake, rows: rows@ },
        }
    }
}

// ---------------------------------------------------------------------------------------
// Reading the mappings
// ---------------------------------------------------------------------------------------

/// The singles of the first `byte_len` bytes of a page, each with its offset.
pub open spec fn values_of(page: Seq<u8>, byte_len: nat) -> Seq<(usize, Single)> {
    Seq::new(
        byte_len / 4,
        |i: int| ((4 * i) as usize, crate::telemetry::single_at(page, 4 * i)),
    )
}

/// Some value is not zero.
pub open spec fn any_nonzero(values: Seq<(usize, Single)>) -> bool {
    exists|i: int| 0 <= i < values.len() && (#[trigger] values[i]).1.bits != 0
}

/// What the mapping `i` shows where its page could be read.
pub open spec fn probe_of(i: int, page: Seq<u8>, byte_len: nat) -> ProbeView {
    ProbeView {
        name: crate::names::shm_label(i),
        has_data: any_nonzero(values_of(page, byte_len)),
        values: values_of(page, byte_len),
    }
}

/// What the mappings show, without those that could not be read.
pub open spec fn probes_of(views: Seq<Mapping>, byte_len: nat) -> Seq<ProbeView>
    decreases views.len(),
{
    if views.len() == 0 {
        Seq::empty()
    } else {
        let rest = probes_of(views.drop_last(), byte_len);
        match views.last().bytes() {
            Some(page) => rest.push(probe_of(views.len() - 1, page, byte_len)),
            None => rest,
        }
    }
}

/// The singles at the start of a mapping, and whether any of them is not zero.
pub fn probe_shm_by_name(view: &Mapping, byte_len: usize) -> (read: Option<
    (bool, Vec<(usize, Single)>),
>)
    requires
        view.bytes() matches Some(page) ==> page.len() >= byte_len,
    ensures
        match (read, view.bytes()) {
            (Some((has_data, values)), Some(page)) => {
                &&& values@ == values_of(page, byte_len as nat)
                &&& has_data == any_nonzero(values@)
            },
            (None, None) => true,
            _ => false,
        },
{
    match view {
        Mapping::Page(bytes) => {
            let page: &[u8] = bytes.as_slice();
            let count: usize = byte_len / 4;
            let mut values: Vec<(usize, Single)> = Vec::new();
            let mut has_data: bool = false;
            let mut i: usize = 0;
            while i < count
                invariant
                    i <= count,
                    count == byte_len / 4,
                    page@.len() >= byte_len,
                    values@ == values_of(page@, byte_len as nat).take(i as int),
                    has_data == any_nonzero(values@),
                decreases count - i,
            {
                let offset: usize = i * 4;
                let value: Single = read_single(page, offset);
                let ghost before = values@;
                values.push((offset, value));
                proof {
                    assert(values@ =~= values_of(page@, byte_len as nat).take(i + 1));
                    assert(values@[i as int] == (offset, value));
                    assert(forall|j: int| 0 <= j < i ==> values@[j] == before[j]);
                }
                if value.bits != 0 {
                    has_data = true;
                }
                i = i + 1;
            }
            assert(values@ =~= values_of(page@, byte_len as nat));
            Some((has_data, values))
        },
        _ => None,
    }
}

/// What the mappings show, in the order of their names. `views` holds what came of
/// looking into each of them.
pub fn probe_all_shm(views: &Vec<Mapping>, byte_len: usize) -> (results: Vec<Probe>)
    requires
        views@.len() == SHM_COUNT,
        forall|i: int|
            0 <= i < views@.len() ==> ((#[trigger] views@[i]).bytes() matches Some(page)
                ==> page.len() >= byte_len),
    ensures
        results@.map_values(|p: Probe| p@) == probes_of(views@, byte_len as nat),
{
    let mut results: Vec<Probe> = Vec::new();
    let mut i: usize = 0;
    assert(results@.map_values(|p: Probe| p@) =~= probes_of(views@.take(0), byte_len as nat));
    while i < SHM_COUNT
        invariant
            i <= SHM_COUNT,
            views@.len() == SHM_COUNT,
            forall|i: int|
                0 <= i < views@.len() ==> ((#[trigger] views@[i]).bytes() matches Some(page)
                    ==> page.len() >= byte_len),
            results@.map_values(|p: Probe| p@) == probes_of(
                views@.take(i as int),
                byte_len as nat,
            ),
        decreases SHM_COUNT - i,
    {
        assert(views@.take(i + 1).drop_last() =~= views@.take(i as int));
        let ghost before = results@;
        match probe_shm_by_name(&views[i], byte_len) {
            Some((has_data, values)) => {
                let name: String = shm_label_at(i).to_owned();
                results.push(Probe { name, has_data, values });
                assert(results@.map_values(|p: Probe| p@) =~= before.map_values(
                    |p: Probe| p@,
                ).push(results@.last()@));
            },
            None => {},
        }
        i = i + 1;
    }
    assert(views@.take(SHM_COUNT as int) =~= views@);
    results
}

// ---------------------------------------------------------------------------------------
// What is logged and kept of the values
// ---------------------------------------------------------------------------------------

/// A value that is worth writing out.
pub open spec fn notable(value: Single) -> bool {
    value.absolute().exceeds(Single { bits: NOISE }) && value.finite()
}

/// The values that are worth writing out.
pub open spec fn notable_values(values: Seq<(usize, Single)>) -> Seq<(usize, Single)>
    decreases values.len(),
{
    if values.len() == 0 {
        values
    } else if notable(values.last().1) {
        notable_values(values.drop_last()).push(values.last())
    } else {
        notable_values(values.drop_last())
    }
}

/// How many values are not zero.
pub open spec fn count_nonzero(values: Seq<(usize, Single)>) -> nat
    decreases values.len(),
{
    if values.len() == 0 {
        0
    } else {
        count_nonzero(values.drop_last()) + if values.last().1.bits != 0 {
            1nat
        } else {
            0nat
        }
    }
}

/// The line of a list that stands for a mapping.
pub open spec fn listed(probe: ProbeView) -> ListedView {
    ListedView {
        name: probe.name,
        has_data: probe.has_data,
        nonzero: count_nonzero(probe.values),
        total: probe.values.len(),
    }
}

/// The first mapping that holds anything but zeros, or the number of mappings if none does.
pub open spec fn first_live(probes: Seq<ProbeView>) -> nat
    decreases probes.len(),
{
    if probes.len() == 0 || probes[0].has_data {
        0
    } else {
        1 + first_live(probes.drop_first())
    }
}

/// The value may be the ABS flag, given how hard the brake is pressed.
pub open spec fn maybe_abs(value: Single, brake: Single) -> bool {
    &&& value.reaches(Single { bits: 0 })
    &&& Single { bits: ASSIST_TOP }.reaches(value)
    &&& brake.exceeds(Single { bits: BRAKE_PRESSED })
}

/// How a value stands to its first reading.
pub open spec fn change(now: (usize, Single), base: Single, brake: Single) -> Changed {
    Changed {
        offset: now.0,
        value: now.1,
        base,
        delta: now.1.difference(base).absolute(),
        marked: maybe_abs(now.1, brake),
    }
}

/// The value has moved away from its first reading.
pub open spec fn has_moved(row: Changed) -> bool {
    row.delta.exceeds(Single { bits: STEADY }) && row.value.finite()
}

/// The values that have moved, as far as there is a first reading of them.
pub open spec fn changes(
    values: Seq<(usize, Single)>,
    baseline: Seq<(usize, Single)>,
    brake: Single,
) -> Seq<Changed>
    decreases values.len(),
{
    if values.len() == 0 {
        Seq::empty()
    } else {
        let rest = changes(values.drop_last(), baseline, brake);
        let i: int = values.len() - 1;
        if i < baseline.len() && has_moved(change(values[i], baseline[i].1, brake)) {
            rest.push(change(values[i], baseline[i].1, brake))
        } else {
            rest
        }
    }
}

/// The value may belong to an assist.
pub open spec fn maybe_assist(row: Changed) -> bool {
    &&& row.offset <= LAST_OFFSET
    &&& row.value.reaches(Single { bits: ASSIST_BOTTOM })
    &&& Single { bits: ASSIST_TOP }.reaches(row.value)
    &&& row.value.finite()
}

/// The values, among those that moved, that may belong to an assist.
pub open spec fn assists(rows: Seq<Changed>) -> Seq<(usize, Single)>
    decreases rows.len(),
{
    if rows.len() == 0 {
        Seq::empty()
    } else if maybe_assist(rows.last()) {
        assists(rows.drop_last()).push((rows.last().offset, rows.last().value))
    } else {
        assists(rows.drop_last())
    }
}

/// The values that are worth writing out.
fn keep_notable(values: &Vec<(usize, Single)>) -> (kept: Vec<(usize, Single)>)
    ensures
        kept@ == notable_values(values@),
{
    let mut kept: Vec<(usize, Single)> = Vec::new();
    let mut i: usize = 0;
    while i < values.len()
        invariant
            i <= values.len(),
            kept@ == notable_values(values@.take(i as int)),
        decreases values.len() - i,
    {
        assert(values@.take(i + 1).drop_last() =~= values@.take(i as int));
        let (offset, value): (usize, Single) = values[i];
        if value.abs().gt(Single { bits: NOISE }) && value.is_finite() {
            kept.push((offset, value));
        }
        i = i + 1;
    }
    assert(values@.take(values@.len() as int) =~= values@);
    kept
}

/// The lines that list the mappings.
fn list(probes: &Vec<Probe>) -> (rows: Vec<Listed>)
    ensures
        rows@.map_values(|r: Listed| r@) == probes@.map_values(|p: Probe| listed(p@)),
{
    let mut rows: Vec<Listed> = Vec::new();
    let mut i: usize = 0;
    while i < probes.len()
        invariant
            i <= probes.len(),
            rows@.map_values(|r: Listed| r@) == probes@.take(i as int).map_values(
                |p: Probe| listed(p@),
            ),
        decreases probes.len() - i,
    {
        let probe: &Probe = &probes[i];
        let values: &Vec<(usize, Single)> = &probe.values;
        let mut nonzero: usize = 0;
        let mut k: usize = 0;
        while k < values.len()
            invariant
                k <= values.len(),
                nonzero <= k,
                nonzero == count_nonzero(values@.take(k as int)),
            decreases values.len() - k,
        {
            assert(values@.take(k + 1).drop_last() =~= values@.take(k as int));
            if values[k].1.bits != 0 {
                nonzero = nonzero + 1;
            }
            k = k + 1;
        }
        assert(values@.take(values@.len() as int) =~= values@);
        let ghost before = rows@;
        rows.push(
            Listed {
                name: probe.name.clone(),
                has_data: probe.has_data,
                nonzero,
                total: values.len(),
            },
        );
        proof {
            assert(rows@.last()@ == listed(probe@));
            assert(rows@.map_values(|r: Listed| r@) =~= before.map_values(|r: Listed| r@).push(
                listed(probe@),
            ));
            assert(probes@.take(i + 1).map_values(|p: Probe| listed(p@)) =~= probes@.take(
                i as int,
            ).map_values(|p: Probe| listed(p@)).push(listed(probe@)));
        }
        i = i + 1;
    }
    assert(probes@.take(probes@.len() as int) =~= probes@);
    rows
}

/// The values that have moved away from their first reading.
pub fn compare(
    values: &Vec<(usize, Single)>,
    baseline: &Vec<(usize, Single)>,
    brake: Single,
) -> (rows: Vec<Changed>)
    ensures
        rows@ == changes(values@, baseline@, brake),
{
    let pressed: bool = brake.gt(Single { bits: BRAKE_PRESSED });
    let mut rows: Vec<Changed> = Vec::new();
    let mut i: usize = 0;
    while i < values.len()
        invariant
            i <= values.len(),
            pressed == brake.exceeds(Single { bits: BRAKE_PRESSED }),
            rows@ == changes(values@.take(i as int), baseline@, brake),
        decreases values.len() - i,
    {
        assert(values@.take(i + 1).drop_last() =~= values@.take(i as int));
        if i < baseline.len() {
            let (offset, value): (usize, Single) = values[i];
            let base: Single = baseline[i].1;
            let delta: Single = value.minus(base).abs();
            if delta.gt(Single { bits: STEADY }) && value.is_finite() {
                let top: Single = Single { bits: ASSIST_TOP };
                let marked: bool = value.ge(Single { bits: 0 }) && top.ge(value) && pressed;
                rows.push(Changed { offset, value, base, delta, marked });
            }
        }
        i = i + 1;
    }
    assert(values@.take(values@.len() as int) =~= values@);
    rows
}

/// The values, among those that moved, that may belong to an assist.
pub fn keep_assists(rows: &Vec<Changed>) -> (kept: Vec<(usize, Single)>)
    ensures
        kept@ == assists(rows@),
{
    let mut kept: Vec<(usize, Single)> = Vec::new();
    let mut i: usize = 0;
    while i < rows.len()
        invariant
            i <= rows.len(),
            kept@ == assists(rows@.take(i as int)),
        decreases rows.len() - i,
    {
        assert(rows@.take(i + 1).drop_last() =~= rows@.take(i as int));
        let row: Changed = rows[i];
        let low: Single = Single { bits: ASSIST_BOTTOM };
        let top: Single = Single { bits: ASSIST_TOP };
        if row.offset <= LAST_OFFSET && row.value.ge(low) && top.ge(row.value)
            && row.value.is_finite() {
            kept.push((row.offset, row.value));
        }
        i = i + 1;
    }
    assert(rows@.take(rows@.len() as int) =~= rows@);
    kept
}

// ---------------------------------------------------------------------------------------
// The loop
// ---------------------------------------------------------------------------------------

/// The state of the telemetry loop.
#[derive(Debug)]
pub struct TelemetryLoop {
    pub tick_count: u64,
    /// When the mappings were scanned last, in nanoseconds.
    pub last_probe_time: u64,
    /// The label of the live mapping.
    pub found_active_shm: Option<String>,
    /// The first reading of the live mapping.
    pub probe_baseline: Option<Vec<(usize, Single)>>,
    /// The highest engine speed that was read, or zero.
    pub highest_rpm: i32,
}

/// What a [`TelemetryLoop`] knows.
pub struct LoopView {
    pub tick_count: u64,
    pub last_probe_time: u64,
    pub active: Option<Seq<char>>,
    pub baseline: Option<Seq<(usize, Single)>>,
    pub highest_rpm: i32,
}

/// What one look at the live mapping brings: an entry of the log, and the values for the
/// overlay.
pub struct Findings {
    pub record: Option<RecordView>,
    pub assists: Seq<(usize, Single)>,
}

impl View for TelemetryLoop {
    type V = LoopView;

    open spec fn view(&self) -> LoopView {
        LoopView {
            tick_count: self.tick_count,
            last_probe_time: self.last_probe_time,
            active: match self.found_active_shm {
                Some(name) => Some(name@),
                None => None,
            },
            baseline: match self.probe_baseline {
                Some(values) => Some(values@),
                None => None,
            },
            highest_rpm: self.highest_rpm,
        }
    }
}

impl LoopView {
    /// The loop at its start.
    pub open spec fn started(now: u64) -> LoopView {
        LoopView {
            tick_count: 0,
            last_probe_time: now,
            active: None,
            baseline: None,
            highest_rpm: 0,
        }
    }

    /// A first reading of the live mapping is wanted.
    pub open spec fn wants_first(self) -> bool {
        self.active is Some && self.baseline is None
    }

    /// The name of the mapping to look into after the physics were read.
    pub open spec fn target(self) -> Option<Seq<u8>> {
        match self.active {
            Some(label) => crate::names::name_of(label),
            None => None,
        }
    }

    /// The mappings are due for a scan.
    pub open spec fn due(self, now: u64) -> bool {
        now - self.last_probe_time >= PROBE_INTERVAL
    }

    /// The loop, one tick later.
    pub open spec fn ticked(self, now: u64) -> LoopView {
        LoopView {
            tick_count: if self.tick_count == u64::MAX {
                0
            } else {
                (self.tick_count + 1) as u64
            },
            last_probe_time: if self.due(now) {
                now
            } else {
                self.last_probe_time
            },
            ..self
        }
    }

    /// The mappings are to be listed.
    pub open spec fn lists(self) -> bool {
        self.active is None || self.tick_count % LIST_TICKS == 0
    }

    /// The loop after a scan: the first mapping with data is the live one.
    pub open spec fn scanned(self, probes: Seq<ProbeView>) -> LoopView {
        let live: int = first_live(probes) as int;
        if live < probes.len() {
            LoopView { active: Some(probes[live].name), ..self }
        } else {
            self
        }
    }

    /// What a scan adds to the log.
    pub open spec fn scan_records(self, probes: Seq<ProbeView>) -> Seq<RecordView> {
        let live: int = first_live(probes) as int;
        let list: Seq<RecordView> = if self.lists() && probes.len() > 0 {
            seq![RecordView::List(probes.map_values(|p: ProbeView| listed(p)))]
        } else {
            seq![]
        };
        let found: Seq<RecordView> = if live < probes.len() && self.active != Some(
            probes[live].name,
        ) {
            seq![
                RecordView::Active {
                    name: probes[live].name,
                    values: notable_values(probes[live].values),
                },
            ]
        } else {
            seq![]
        };
        let snapshot: Seq<RecordView> = if live < probes.len() && self.tick_count % SNAPSHOT_TICKS
            == 0 {
            seq![
                RecordView::Snapshot {
                    name: probes[live].name,
                    values: notable_values(probes[live].values),
                },
            ]
        } else {
            seq![]
        };
        let nothing: Seq<RecordView> = if self.lists() && probes.len() == 0 {
            seq![RecordView::Nothing]
        } else {
            seq![]
        };
        list + found + snapshot + nothing
    }

    /// The loop after a first reading of the live mapping was offered to it. It keeps the
    /// one that it has.
    pub open spec fn based(self, first: Option<Seq<(usize, Single)>>) -> LoopView {
        if self.active is Some && self.baseline is None {
            LoopView { baseline: first, ..self }
        } else {
            self
        }
    }

    /// The loop after an engine speed was read.
    pub open spec fn revved(self, rpms: i32) -> LoopView {
        LoopView {
            highest_rpm: if rpms > self.highest_rpm {
                rpms
            } else {
                self.highest_rpm
            },
            ..self
        }
    }

    /// The highest engine speed so far, once the engine was seen to turn.
    pub open spec fn max_rpm(self) -> Option<i32> {
        if self.highest_rpm > 0 {
            Some(self.highest_rpm)
        } else {
            None
        }
    }

    /// The loop at the end of a tick that read the physics page `snap`, or none.
    pub open spec fn finished(
        self,
        snap: Option<AcPhysicsSnapshot>,
        first: Option<Seq<(usize, Single)>>,
    ) -> LoopView {
        match snap {
            Some(snap) => self.based(first).revved(snap.rpms),
            None => self,
        }
    }

    /// The packet about a physics page, once the loop has taken it in.
    pub open spec fn packet(
        self,
        snap: AcPhysicsSnapshot,
        values: Option<Seq<(usize, Single)>>,
    ) -> PacketView {
        crate::telemetry::packet_of(
            snap,
            self.max_rpm(),
            self.findings(values, snap.brake).assists,
        )
    }

    /// What a reading of the live mapping brings.
    pub open spec fn findings(
        self,
        values: Option<Seq<(usize, Single)>>,
        brake: Single,
    ) -> Findings {
        match (self.active, self.baseline, values) {
            (Some(_), Some(baseline), Some(values)) => {
                let rows = changes(values, baseline, brake);
                Findings {
                    record: if rows.len() > 0 && brake.exceeds(Single { bits: BRAKE_TOUCHED }) {
                        Some(RecordView::Moved { brake, rows })
                    } else {
                        None
                    },
                    assists: assists(rows),
                }
            },
            _ => Findings { record: None, assists: Seq::empty() },
        }
    }
}

/// The view of a reading that may be missing.
pub open spec fn reading(values: Option<Vec<(usize, Single)>>) -> Option<Seq<(usize, Single)>> {
    match values {
        Some(values) => Some(values@),
        None => None,
    }
}

impl TelemetryLoop {
    /// The loop at its start.
    pub fn new(now: u64) -> (r: TelemetryLoop)
        ensures
            r@ == (LoopView {
                tick_count: 0,
                last_probe_time: now,
                active: None,
                baseline: None,
                highest_rpm: 0,
            }),
            r@ == LoopView::started(now),
    {
        TelemetryLoop {
            tick_count: 0,
            last_probe_time: now,
            found_active_shm: None,
            probe_baseline: None,
            highest_rpm: 0,
        }
    }

    /// Counts a tick, and tells whether the mappings are to be scanned now.
    pub fn begin_tick(&mut self, now: u64) -> (due: bool)
        ensures
            final(self)@ == old(self)@.ticked(now),
            due == old(self)@.due(now),
    {
        self.tick_count = self.tick_count.wrapping_add(1);
        if now >= self.last_probe_time && now - self.last_probe_time >= PROBE_INTERVAL {
            self.last_probe_time = now;
            true
        } else {
            false
        }
    }

    /// Takes in a scan of the mappings, and tells what to log of it.
    pub fn scan(&mut self, probes: &Vec<Probe>) -> (records: Vec<Record>)
        ensures
            final(self)@ == old(self)@.scanned(probes@.map_values(|p: Probe| p@)),
            records@.map_values(|r: Record| r@) == old(self)@.scan_records(
                probes@.map_values(|p: Probe| p@),
            ),
    {
        let ghost views = probes@.map_values(|p: Probe| p@);
        let mut records: Vec<Record> = Vec::new();
        let lists: bool = self.found_active_shm.is_none() || self.tick_count % LIST_TICKS == 0;
        if lists && probes.len() > 0 {
            let rows: Vec<Listed> = list(probes);
            proof {
                assert(rows@.map_values(|r: Listed| r@) =~= views.map_values(
                    |p: ProbeView| listed(p),
                ));
            }
            records.push(Record::List(rows));
        }
        let live: usize = find_live(probes);
        if live < probes.len() {
            let probe: &Probe = &probes[live];
            let known: bool = match &self.found_active_shm {
                Some(name) => *name == probe.name,
                None => false,
            };
            if !known {
                self.found_active_shm = Some(probe.name.clone());
                let values: Vec<(usize, Single)> = keep_notable(&probe.values);
                records.push(Record::Active { name: probe.name.clone(), values });
            }
            if self.tick_count % SNAPSHOT_TICKS == 0 {
                let values: Vec<(usize, Single)> = keep_notable(&probe.values);
                records.push(Record::Snapshot { name: probe.name.clone(), values });
            }
        }
        if lists && probes.len() == 0 {
            records.push(Record::Nothing);
        }
        assert(records@.map_values(|r: Record| r@) =~= old(self)@.scan_records(views));
        records
    }

    /// The name of the mapping to look into after the physics were read, if one is live.
    pub fn probe_target(&self) -> (name: Option<&'static [u8]>)
        ensures
            match (name, self@.active) {
                (Some(bytes), Some(label)) => exists|i: int|
                    #![trigger crate::names::shm_label(i)]
                    0 <= i < SHM_COUNT && crate::names::shm_label(i) == label && bytes@
                        == crate::names::ascii_bytes(crate::names::shm_name(i)),
                (None, Some(label)) => forall|i: int|
                    #![trigger crate::names::shm_label(i)]
                    0 <= i < SHM_COUNT ==> crate::names::shm_label(i) != label,
                (None, None) => true,
                (Some(_), None) => false,
            },
            match name {
                Some(bytes) => Some(bytes@),
                None => None,
            } == self@.target(),
    {
        match &self.found_active_shm {
            Some(name) => find_name_bytes(name.as_str()),
            None => None,
        }
    }

    /// Whether a first reading of the live mapping is wanted.
    pub fn needs_baseline(&self) -> (r: bool)
        ensures
            r == (self@.active is Some && self@.baseline is None),
            r == self@.wants_first(),
    {
        self.found_active_shm.is_some() && self.probe_baseline.is_none()
    }

    /// Ends a tick. Where a physics page was read, makes the packet for the overlay out of
    /// it and out of what the live mapping shows; where none was read, there is no packet.
    /// `first` is a first reading of the live mapping, where one was wanted; `values` is a
    /// reading of it.
    pub fn finish_tick(
        &mut self,
        snap: Option<AcPhysicsSnapshot>,
        first: Option<Vec<(usize, Single)>>,
        values: Option<Vec<(usize, Single)>>,
    ) -> (r: Option<(TelemetryData, Option<Record>)>)
        ensures
            final(self)@ == old(self)@.finished(snap, reading(first)),
            match (snap, r) {
                (Some(snap), Some((data, record))) => {
                    &&& data@ == final(self)@.packet(snap, reading(values))
                    &&& match record {
                        Some(record) => Some(record@),
                        None => None,
                    } == final(self)@.findings(reading(values), snap.brake).record
                    &&& data.rpm == Some(snap.rpms)
                    &&& snap.rpms > 0 ==> (data.max_rpm matches Some(max) && max >= snap.rpms)
                },
                (None, None) => true,
                _ => false,
            },
    {
        let snap: AcPhysicsSnapshot = match snap {
            Some(snap) => snap,
            None => return None,
        };
        if self.needs_baseline() {
            self.probe_baseline = first;
        }
        if snap.rpms > self.highest_rpm {
            self.highest_rpm = snap.rpms;
        }
        let max_rpm: Option<i32> = if self.highest_rpm > 0 {
            Some(self.highest_rpm)
        } else {
            None
        };
        let mut kept: Vec<(usize, Single)> = Vec::new();
        let mut record: Option<Record> = None;
        if self.found_active_shm.is_some() {
            if let Some(values) = &values {
                if let Some(baseline) = &self.probe_baseline {
                    let rows: Vec<Changed> = compare(values, baseline, snap.brake);
                    kept = keep_assists(&rows);
                    if rows.len() > 0 && snap.brake.gt(Single { bits: BRAKE_TOUCHED }) {
                        record = Some(Record::Moved { brake: snap.brake, rows });
                    }
                }
            }
        }
        Some((TelemetryData::from_physics(&snap, max_rpm, kept), record))
    }
}

/// The first mapping that holds anything but zeros, or the number of mappings.
fn find_live(probes: &Vec<Probe>) -> (live: usize)
    ensures
        live == first_live(probes@.map_values(|p: Probe| p@)),
        live <= probes@.len(),
{
    let ghost views = probes@.map_values(|p: Probe| p@);
    let mut i: usize = 0;
    assert(views.skip(0) =~= views);
    while i < probes.len()
        invariant
            i <= probes.len(),
            views == probes@.map_values(|p: Probe| p@),
            first_live(views) == i + first_live(views.skip(i as int)),
        decreases probes.len() - i,
    {
        if probes[i].has_data {
            return i;
        }
        assert(views.skip(i as int).drop_first() =~= views.skip(i + 1));
        i = i + 1;
    }
    i
}

// ---------------------------------------------------------------------------------------
// Laws
// ---------------------------------------------------------------------------------------

/// Two scans of the mappings are at least the interval apart.
pub proof fn law_scan_interval(state: LoopView, now: u64, later: u64)
    requires
        state.due(now),
        state.ticked(now).due(later),
    ensures
        later - now >= PROBE_INTERVAL,
{
}

/// The live mapping is the first one with anything but zeros in it.
pub proof fn law_first_live(probes: Seq<ProbeView>)
    ensures
        first_live(probes) <= probes.len(),
        first_live(probes) < probes.len() ==> probes[first_live(probes) as int].has_data,
        forall|i: int| 0 <= i < first_live(probes) ==> !(#[trigger] probes[i]).has_data,
    decreases probes.len(),
{
    if probes.len() > 0 && !probes[0].has_data {
        let rest: Seq<ProbeView> = probes.drop_first();
        law_first_live(rest);
        assert forall|i: int| 0 <= i < first_live(probes) implies !(#[trigger] probes[i]).has_data by {
            if i > 0 {
                assert(rest[i - 1] == probes[i]);
            }
        }
    }
}

/// The label belongs to a mapping that is known.
pub open spec fn is_label(label: Seq<char>) -> bool {
    exists|i: int| 0 <= i < SHM_COUNT && #[trigger] crate::names::shm_label(i) == label
}

/// Every mapping that a scan finds has a label that is known.
pub proof fn law_probes_labelled(views: Seq<Mapping>, byte_len: nat)
    requires
        views.len() <= SHM_COUNT,
    ensures
        forall|i: int|
            0 <= i < probes_of(views, byte_len).len() ==> is_label(
                (#[trigger] probes_of(views, byte_len)[i]).name,
            ),
        probes_of(views, byte_len).len() <= views.len(),
    decreases views.len(),
{
    if views.len() > 0 {
        law_probes_labelled(views.drop_last(), byte_len);
        assert(is_label(crate::names::shm_label(views.len() - 1)));
    }
}

/// Whatever is found live can be found again by its label: a scan of the mappings leaves
/// the loop with a label that is known, if it had no other before.
pub proof fn law_active_known(state: LoopView, views: Seq<Mapping>, byte_len: nat)
    requires
        views.len() <= SHM_COUNT,
        state.active matches Some(label) ==> is_label(label),
    ensures
        state.scanned(probes_of(views, byte_len)).active matches Some(label) ==> is_label(label),
{
    law_probes_labelled(views, byte_len);
}

/// The first reading of the live mapping is kept for good.
pub proof fn law_baseline_kept(
    state: LoopView,
    snap: Option<AcPhysicsSnapshot>,
    first: Option<Seq<(usize, Single)>>,
    probes: Seq<ProbeView>,
    now: u64,
)
    requires
        state.baseline is Some,
    ensures
        state.finished(snap, first).baseline == state.baseline,
        state.scanned(probes).baseline == state.baseline,
        state.ticked(now).baseline == state.baseline,
{
}

/// A reading that is the first reading itself shows no change.
pub proof fn law_nothing_moved(values: Seq<(usize, Single)>, brake: Single)
    ensures
        changes(values, values, brake).len() == 0,
{
    lemma_unmoved(values, values, brake);
}

/// A reading that agrees with the first reading shows no change.
proof fn lemma_unmoved(
    values: Seq<(usize, Single)>,
    baseline: Seq<(usize, Single)>,
    brake: Single,
)
    requires
        values.len() <= baseline.len(),
        forall|i: int| 0 <= i < values.len() ==> #[trigger] values[i] == baseline[i],
    ensures
        changes(values, baseline, brake).len() == 0,
    decreases values.len(),
{
    if values.len() > 0 {
        let i: int = values.len() - 1;
        lemma_unmoved(values.drop_last(), baseline, brake);
        let value: Single = values[i].1;
        assert(values[i] == baseline[i]);
        if value.finite() {
            crate::arithmetic::law_difference_of_same(value);
            crate::single::lemma_magnitude_iff(0, STEADY as nat);
        }
    }
}

/// The rows tell exactly the values that have moved away from their first reading, in
/// order: each row stands for one of them, and none is left out.
pub proof fn law_changes(
    values: Seq<(usize, Single)>,
    baseline: Seq<(usize, Single)>,
    brake: Single,
)
    ensures
        forall|row: Changed| #[trigger]
            changes(values, baseline, brake).contains(row) <==> exists|i: int|
                0 <= i < values.len() && 0 <= i < baseline.len() && row == #[trigger] change(
                    values[i],
                    baseline[i].1,
                    brake,
                ) && has_moved(row),
    decreases values.len(),
{
    let rows: Seq<Changed> = changes(values, baseline, brake);
    if values.len() > 0 {
        let short: Seq<(usize, Single)> = values.drop_last();
        let last: int = values.len() - 1;
        let rest: Seq<Changed> = changes(short, baseline, brake);
        law_changes(short, baseline, brake);
        assert forall|row: Changed| #[trigger] rows.contains(row) implies exists|i: int|
            0 <= i < values.len() && 0 <= i < baseline.len() && row == #[trigger] change(
                values[i],
                baseline[i].1,
                brake,
            ) && has_moved(row) by {
            let k: int = rows.index_of(row);
            if k < rest.len() {
                assert(rest.contains(row));
                let i: int = choose|i: int|
                    0 <= i < short.len() && 0 <= i < baseline.len() && row == #[trigger] change(
                        short[i],
                        baseline[i].1,
                        brake,
                    ) && has_moved(row);
                assert(row == change(values[i], baseline[i].1, brake));
            } else {
                assert(row == change(values[last], baseline[last].1, brake));
            }
        }
        assert forall|row: Changed|
            (exists|i: int|
                0 <= i < values.len() && 0 <= i < baseline.len() && row == #[trigger] change(
                    values[i],
                    baseline[i].1,
                    brake,
                ) && has_moved(row)) implies #[trigger] rows.contains(row) by {
            let i: int = choose|i: int|
                0 <= i < values.len() && 0 <= i < baseline.len() && row == #[trigger] change(
                    values[i],
                    baseline[i].1,
                    brake,
                ) && has_moved(row);
            if i < last {
                assert(row == change(short[i], baseline[i].1, brake));
                assert(rest.contains(row));
                let k: int = rest.index_of(row);
                assert(rows[k] == row);
            } else {
                assert(rows[rest.len() as int] == row);
            }
        }
    }
}

/// What is handed to the overlay are values between -1.5 and 1.5 from the start of the
/// mapping, and each of them has moved.
pub proof fn law_assists(rows: Seq<Changed>)
    ensures
        forall|x: (usize, Single)| #[trigger]
            assists(rows).contains(x) ==> {
                &&& x.0 <= LAST_OFFSET
                &&& x.1.finite()
                &&& x.1.reaches(Single::of(ASSIST_BOTTOM))
                &&& Single::of(ASSIST_TOP).reaches(x.1)
                &&& exists|i: int|
                    0 <= i < rows.len() && (#[trigger] rows[i]).offset == x.0 && rows[i].value
                        == x.1
            },
    decreases rows.len(),
{
    if rows.len() > 0 {
        let short: Seq<Changed> = rows.drop_last();
        law_assists(short);
        assert forall|x: (usize, Single)| #[trigger] assists(rows).contains(x) implies {
            &&& x.0 <= LAST_OFFSET
            &&& x.1.finite()
            &&& x.1.reaches(Single::of(ASSIST_BOTTOM))
            &&& Single::of(ASSIST_TOP).reaches(x.1)
            &&& exists|i: int|
                0 <= i < rows.len() && (#[trigger] rows[i]).offset == x.0 && rows[i].value == x.1
        } by {
            let k: int = assists(rows).index_of(x);
            if k < assists(short).len() {
                assert(assists(short).contains(x));
                let i: int = choose|i: int|
                    0 <= i < short.len() && (#[trigger] short[i]).offset == x.0 && short[i].value
                        == x.1;
                assert(rows[i] == short[i]);
            } else {
                assert(rows[rows.len() - 1] == rows.last());
            }
        }
    }
}

/// While the brake is not touched nothing is logged of what moved.
pub proof fn law_no_brake_no_record(
    state: LoopView,
    values: Option<Seq<(usize, Single)>>,
    brake: Single,
)
    requires
        !brake.exceeds(Single::of(BRAKE_TOUCHED)),
    ensures
        state.findings(values, brake).record is None,
{
}

} // verus!
