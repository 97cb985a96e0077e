//! A capture session: every captured frame is decoded, counted in the
//! traffic statistics, tracked in its flow and run through the alert rules.
//! The session decides; the caller captures, waits and publishes.

use vstd::prelude::*;
use crate::alert::{Alert, AlertEngine, apply_rules, default_rules, describes, nth_id, below_max, fresh_state};
use crate::dissector::{EtherparseDecoder, ethernet_frame, assembled};
use crate::flow::{FlowKey, FlowRecord};
use crate::flow_tracker::{FlowTracker, flow_key_of, counted_record, base_record};
use crate::packet::{ParsedPacket, RawPacket};
use crate::stats::{StatsEngine, TrafficSnapshot, add_packet, talkers_after, is_top_by_bytes};
use crate::table::{fresh_keys, lists_each_once};

verus! {

/// What the capture loop hands the session.
pub enum CaptureEvent {
    /// A captured frame.
    Packet(RawPacket),
    /// The source has no more frames.
    Exhausted,
    /// The source failed.
    Failed,
    /// The periodic eviction of idle flows is due.
    EvictionDue,
}

/// What the capture loop does next.
pub enum SessionAction {
    /// Publish the decoded packet and the alerts it raised; capture on.
    Publish(ParsedPacket, Vec<Alert>),
    /// The frame did not decode; capture on.
    Skip,
    /// Capture on.
    Continue,
    /// Close the source and stop.
    Stop,
}

/// The statistics after `pkt` is counted, where every counter has room for
/// it; otherwise unchanged.
pub open spec fn stats_after(before: &StatsEngine, after: &StatsEngine, pkt: ParsedPacket) -> bool {
    if before.room_for(pkt) {
        &&& after.packets() == before.packets() + 1
        &&& after.bytes() == before.bytes() + pkt.len
        &&& after.proto_counts() == match pkt.l4 {
            Some(l) => add_packet(before.proto_counts(), l, pkt.len as u64),
            None => before.proto_counts(),
        }
        &&& after.app_counts() == add_packet(before.app_counts(), pkt.app, pkt.len as u64)
        &&& after.talker_counts() == talkers_after(before.talker_counts(), pkt)
    } else {
        &&& after.packets() == before.packets()
        &&& after.bytes() == before.bytes()
        &&& after.proto_counts() == before.proto_counts()
        &&& after.app_counts() == before.app_counts()
        &&& after.talker_counts() == before.talker_counts()
    }
}

/// The flow records after `pkt` is tracked at `now`, where its flow's
/// counters have room for it; otherwise unchanged.
pub open spec fn flows_after(before: Map<FlowKey, FlowRecord>, after: Map<FlowKey, FlowRecord>, pkt: ParsedPacket, now: i64, room: bool) -> bool {
    match flow_key_of(pkt) {
        Some(k) if room => after == before.insert(k, counted_record(base_record(before.get(k), k, pkt, now), pkt, now)),
        _ => after == before,
    }
}

/// The alert engine after `pkt` is inspected at `now`, and the alerts
/// raised, where the per-source counters have room; otherwise unchanged and
/// no alert.
pub open spec fn alerts_after(before: &AlertEngine, after: &AlertEngine, pkt: ParsedPacket, now: i64, raised: Seq<Alert>) -> bool {
    if below_max(before.syn_counts(), pkt.src_ip) && below_max(before.ping_counts(), pkt.src_ip) {
        let (st, fs) = apply_rules(default_rules(), before.state(), pkt);
        &&& after.rule_list() == default_rules()
        &&& after.state() == st
        &&& after.next_id() == nth_id(before.next_id(), fs.len() as int)
        &&& raised.len() == fs.len()
        &&& forall|k: int| 0 <= k < fs.len() ==> describes(#[trigger] raised[k], fs[k], pkt, now, nth_id(before.next_id(), k))
    } else {
        &&& after.rule_list() == before.rule_list()
        &&& after.state() == before.state()
        &&& after.next_id() == before.next_id()
        &&& raised.len() == 0
    }
}

/// Decoding, statistics, flow tracking and alerting for one capture.
pub struct CaptureSession {
    decoder: EtherparseDecoder,
    flow_tracker: FlowTracker,
    stats: StatsEngine,
    alerts: AlertEngine,
}

impl CaptureSession {
    pub closed spec fn flows(&self) -> &FlowTracker {
        &self.flow_tracker
    }

    pub closed spec fn statistics(&self) -> &StatsEngine {
        &self.stats
    }

    pub closed spec fn alerting(&self) -> &AlertEngine {
        &self.alerts
    }

    pub closed spec fn wf(&self) -> bool {
        &&& self.flow_tracker.wf()
        &&& self.stats.wf()
        &&& self.alerts.rule_list() == default_rules()
    }

    /// A session with empty statistics, no flows, and the default alert
    /// rules with empty counters.
    pub fn new() -> (r: Self)
        ensures
            r.wf(),
            r.statistics().packets() == 0,
            r.statistics().bytes() == 0,
            r.statistics().proto_counts().dom().is_empty(),
            r.statistics().app_counts().dom().is_empty(),
            r.statistics().talker_counts().dom().is_empty(),
            r.statistics().talker_entries().len() == 0,
            r.flows().records().dom().is_empty(),
            r.alerting().rule_list() == default_rules(),
            r.alerting().state() == fresh_state(),
            r.alerting().next_id() == 1,
    {
        CaptureSession {
            decoder: EtherparseDecoder,
            flow_tracker: FlowTracker::new(),
            stats: StatsEngine::new(),
            alerts: AlertEngine::new(),
        }
    }

    /// Takes one event at time `now`. A frame is decoded; one that does not
    /// decode is skipped; a decoded packet is counted, tracked and
    /// inspected, and published with the alerts it raised. The end or
    /// failure of the source stops the session; a due eviction evicts the
    /// flows that have been idle for their timeout at `now`.
    pub fn step_at(&mut self, event: CaptureEvent, now: i64) -> (r: SessionAction)
        requires
            old(self).wf(),
        ensures
            final(self).wf(),
            match event {
                CaptureEvent::Packet(raw) => match ethernet_frame(raw.data@) {
                    Ok(h) => {
                        let pkt = assembled(raw, h);
                        &&& r matches SessionAction::Publish(p, raised) && p == pkt
                            && alerts_after(old(self).alerting(), final(self).alerting(), pkt, now, raised@)
                        &&& stats_after(old(self).statistics(), final(self).statistics(), pkt)
                        &&& flows_after(old(self).flows().records(), final(self).flows().records(), pkt, now, old(self).flows().can_count(pkt))
                    },
                    Err(_) => {
                        &&& r is Skip
                        &&& *final(self) == *old(self)
                    },
                },
                CaptureEvent::Exhausted => r is Stop && *final(self) == *old(self),
                CaptureEvent::Failed => r is Stop && *final(self) == *old(self),
                CaptureEvent::EvictionDue => {
                    &&& r is Continue
                    &&& final(self).flows().records() == old(self).flows().records().restrict(fresh_keys(old(self).flows().records(), now))
                    &&& final(self).statistics() == old(self).statistics()
                    &&& final(self).alerting() == old(self).alerting()
                },
            },
    {
        match event {
            CaptureEvent::Packet(raw) => {
                let pkt = match self.decoder.decode(&raw) {
                    Ok(p) => p,
                    Err(_) => return SessionAction::Skip,
                };
                if self.stats.can_record(&pkt) {
                    self.stats.record(&pkt);
                }
                if self.flow_tracker.has_room(&pkt) {
                    self.flow_tracker.update_at(&pkt, now);
                }
                let raised = if self.alerts.has_room(&pkt) {
                    self.alerts.inspect_at(&pkt, now)
                } else {
                    Vec::new()
                };
                SessionAction::Publish(pkt, raised)
            },
            CaptureEvent::Exhausted => SessionAction::Stop,
            CaptureEvent::Failed => SessionAction::Stop,
            CaptureEvent::EvictionDue => {
                self.flow_tracker.evict_stale_at(now);
                SessionAction::Continue
            },
        }
    }

    /// The traffic statistics as of `now`.
    pub fn snapshot_at(&self, now: i64) -> (r: TrafficSnapshot)
        ensures
            r.captured_at == Some(now),
            r.total_packets == self.statistics().packets(),
            r.total_bytes == self.statistics().bytes(),
            is_top_by_bytes(self.statistics().talker_entries(), r.top_talkers@, 10),
    {
        self.stats.snapshot_at(now)
    }

    /// A copy of every flow record, in no particular order.
    pub fn active_flows(&self) -> (r: Vec<FlowRecord>)
        ensures
            lists_each_once(r@, self.flows().records()),
    {
        self.flow_tracker.snapshot()
    }
}

impl Default for CaptureSession {
    fn default() -> (r: Self)
        ensures
            r.wf(),
            r.statistics().packets() == 0,
            r.statistics().bytes() == 0,
            r.statistics().proto_counts().dom().is_empty(),
            r.statistics().app_counts().dom().is_empty(),
            r.statistics().talker_counts().dom().is_empty(),
            r.statistics().talker_entries().len() == 0,
            r.flows().records().dom().is_empty(),
            r.alerting().rule_list() == default_rules(),
            r.alerting().state() == fresh_state(),
            r.alerting().next_id() == 1,
    {
        CaptureSession::new()
    }
}

} // verus!
