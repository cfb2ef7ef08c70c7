//! A whole run of the telemetry thread: tick after tick, what it sends and what it logs.

use crate::probe::LoopView;
use crate::probe::ProbeView;
use crate::probe::RecordView;
use crate::single::Single;
use crate::telemetry::AcPhysicsSnapshot;
use crate::telemetry::PacketView;
use vstd::prelude::*;

verus! {

/// What the thread reads in one tick.
pub struct Tick {
    /// The clock.
    pub now: u64,
    /// What the mappings show, looked at only if a scan is due.
    pub probes: Seq<ProbeView>,
    /// The physics page, if one is there.
    pub snap: Option<AcPhysicsSnapshot>,
    /// A first reading of the live mapping, if one was wanted and could be had.
    pub first: Option<Seq<(usize, Single)>>,
    /// A reading of the live mapping, if it could be had.
    pub values: Option<Seq<(usize, Single)>>,
}

impl LoopView {
    /// The loop in the middle of a tick, before the physics page counts.
    pub open spec fn looked(self, tick: Tick) -> LoopView {
        if self.due(tick.now) {
            self.ticked(tick.now).scanned(tick.probes)
        } else {
            self.ticked(tick.now)
        }
    }

    /// The loop at the end of a tick.
    pub open spec fn after_tick(self, tick: Tick) -> LoopView {
        self.looked(tick).finished(tick.snap, tick.first)
    }

    /// What a tick sends: a packet if a physics page was read, else nothing.
    pub open spec fn tick_packets(self, tick: Tick) -> Seq<PacketView> {
        match tick.snap {
            Some(snap) => seq![self.after_tick(tick).packet(snap, tick.values)],
            None => seq![],
        }
    }

    /// What a tick has to log.
    pub open spec fn tick_records(self, tick: Tick) -> Seq<RecordView> {
        let scan: Seq<RecordView> = if self.due(tick.now) {
            self.ticked(tick.now).scan_records(tick.probes)
        } else {
            seq![]
        };
        let moved: Seq<RecordView> = match tick.snap {
            Some(snap) => match self.after_tick(tick).findings(tick.values, snap.brake).record {
                Some(record) => seq![record],
                None => seq![],
            },
            None => seq![],
        };
        scan + moved
    }
}

/// The telemetry thread: its loop, what it has sent, and what has reached its log.
#[verifier::ext_equal]
pub struct Thread {
    pub state: LoopView,
    pub sent: Seq<PacketView>,
    pub log: Seq<RecordView>,
}

impl Thread {
    /// The thread one tick later. `written` tells for each entry of the tick whether it
    /// reached the log; an entry that it does not speak of did not.
    pub open spec fn step(self, tick: Tick, written: Seq<bool>) -> Thread {
        Thread {
            state: self.state.after_tick(tick),
            sent: self.sent + self.state.tick_packets(tick),
            log: self.log + reached(self.state.tick_records(tick), written),
        }
    }

    /// The thread after some ticks. `written` tells for each of them what reached the log.
    pub open spec fn run(self, ticks: Seq<Tick>, written: Seq<Seq<bool>>) -> Thread
        decreases ticks.len(),
    {
        if ticks.len() == 0 {
            self
        } else {
            self.run(ticks.drop_last(), written).step(ticks.last(), written[ticks.len() - 1])
        }
    }
}

/// The entries that reached the log.
pub open spec fn reached(records: Seq<RecordView>, written: Seq<bool>) -> Seq<RecordView>
    decreases records.len(),
{
    if records.len() == 0 {
        records
    } else {
        let last: int = records.len() - 1;
        let rest: Seq<RecordView> = reached(records.drop_last(), written);
        if last < written.len() && written[last] {
            rest.push(records.last())
        } else {
            rest
        }
    }
}

/// The physics pages that were read, in their order.
pub open spec fn pages(ticks: Seq<Tick>) -> Seq<AcPhysicsSnapshot>
    decreases ticks.len(),
{
    if ticks.len() == 0 {
        Seq::empty()
    } else {
        match ticks.last().snap {
            Some(snap) => pages(ticks.drop_last()).push(snap),
            None => pages(ticks.drop_last()),
        }
    }
}

/// The packet is about the physics page: it says what the page says, and the engine does
/// not turn faster than the highest speed that it names.
pub open spec fn is_about(packet: PacketView, snap: AcPhysicsSnapshot) -> bool {
    &&& packet == crate::telemetry::packet_of(snap, packet.max_rpm, packet.probe_values)
    &&& snap.rpms > 0 ==> (packet.max_rpm matches Some(max) && max >= snap.rpms)
}

// ---------------------------------------------------------------------------------------
// Laws
// ---------------------------------------------------------------------------------------

/// The thread sends one packet for each physics page that it reads, about that page and in
/// the order of the pages, and no others; what it had sent before stays.
pub proof fn law_packet_per_page(thread: Thread, ticks: Seq<Tick>, written: Seq<Seq<bool>>)
    ensures
        thread.run(ticks, written).sent.len() == thread.sent.len() + pages(ticks).len(),
        forall|i: int|
            0 <= i < thread.sent.len() ==> #[trigger] thread.run(ticks, written).sent[i]
                == thread.sent[i],
        forall|i: int|
            0 <= i < pages(ticks).len() ==> is_about(
                thread.run(ticks, written).sent[thread.sent.len() + i],
                #[trigger] pages(ticks)[i],
            ),
    decreases ticks.len(),
{
    if ticks.len() > 0 {
        law_packet_per_page(thread, ticks.drop_last(), written);
        let before: Thread = thread.run(ticks.drop_last(), written);
        let after: Thread = thread.run(ticks, written);
        assert forall|i: int| 0 <= i < pages(ticks).len() implies is_about(
            after.sent[thread.sent.len() + i],
            #[trigger] pages(ticks)[i],
        ) by {
            if i < pages(ticks.drop_last()).len() {
                assert(pages(ticks)[i] == pages(ticks.drop_last())[i]);
                assert(after.sent[thread.sent.len() + i] == before.sent[thread.sent.len() + i]);
            }
        }
    }
}

/// A tick that reads no physics page sends nothing, and the thread goes on.
pub proof fn law_no_page_no_packet(thread: Thread, tick: Tick, written: Seq<bool>)
    requires
        tick.snap is None,
    ensures
        thread.step(tick, written).sent == thread.sent,
        thread.step(tick, written).state == thread.state.looked(tick),
{
    assert(thread.step(tick, written).sent =~= thread.sent);
}

/// Where nothing of the log can be written, or only some of it, the thread sends the same
/// packets, and its loop is in the same state.
pub proof fn law_log_alters_nothing(
    thread: Thread,
    ticks: Seq<Tick>,
    written: Seq<Seq<bool>>,
    other: Seq<Seq<bool>>,
)
    ensures
        thread.run(ticks, written).sent == thread.run(ticks, other).sent,
        thread.run(ticks, written).state == thread.run(ticks, other).state,
    decreases ticks.len(),
{
    if ticks.len() > 0 {
        law_log_alters_nothing(thread, ticks.drop_last(), written, other);
    }
}

/// The highest engine speed never falls, and no speed that was read lies above it.
pub proof fn law_highest_rpm(thread: Thread, ticks: Seq<Tick>, written: Seq<Seq<bool>>)
    ensures
        thread.run(ticks, written).state.highest_rpm >= thread.state.highest_rpm,
        forall|i: int|
            0 <= i < pages(ticks).len() ==> (#[trigger] pages(ticks)[i]).rpms <= thread.run(
                ticks,
                written,
            ).state.highest_rpm,
    decreases ticks.len(),
{
    if ticks.len() > 0 {
        law_highest_rpm(thread, ticks.drop_last(), written);
        assert forall|i: int| 0 <= i < pages(ticks).len() implies (#[trigger] pages(ticks)[i]).rpms
            <= thread.run(ticks, written).state.highest_rpm by {
            if i < pages(ticks.drop_last()).len() {
                assert(pages(ticks)[i] == pages(ticks.drop_last())[i]);
            }
        }
    }
}

} // verus!
