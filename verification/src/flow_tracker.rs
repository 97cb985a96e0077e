//! Flow tracking: one record per bidirectional flow, keyed by the flow's
//! canonical five-tuple.

use vstd::prelude::*;
use crate::clock::now_micros;
use crate::flow::{FlowKey, FlowRecord, FlowState, canonical_key};
use crate::net::opt_ip_eq;
use crate::packet::ParsedPacket;
use crate::protocol::L4Protocol;
use crate::table::{FlowTable, flows, no_flows, fresh_keys, lists_each_once, flow_table_with_capacity, flow_get, flow_set, flow_count, flow_retain_fresh, flow_records};

verus! {

/// Idle time after which a flow is evicted, in microseconds, by transport
/// protocol and state: TCP 60 s while only a SYN has been seen, 300 s once
/// established, 15 s once closing; UDP 30 s; ICMP 10 s; anything else
/// 120 s.
pub open spec fn idle_timeout_micros(r: FlowRecord) -> int {
    match r.key.protocol {
        L4Protocol::Tcp => match r.state {
            FlowState::New => 60_000_000,
            FlowState::Established => 300_000_000,
            _ => 15_000_000,
        },
        L4Protocol::Udp => 30_000_000,
        L4Protocol::Icmp => 10_000_000,
        L4Protocol::IcmpV6 => 10_000_000,
        _ => 120_000_000,
    }
}

pub fn idle_timeout(r: &FlowRecord) -> (t: i64)
    ensures
        t == idle_timeout_micros(*r),
{
    match r.key.protocol {
        L4Protocol::Tcp => match r.state {
            FlowState::New => 60_000_000,
            FlowState::Established => 300_000_000,
            _ => 15_000_000,
        },
        L4Protocol::Udp => 30_000_000,
        L4Protocol::Icmp => 10_000_000,
        L4Protocol::IcmpV6 => 10_000_000,
        _ => 120_000_000,
    }
}

/// The canonical key of the flow a packet belongs to; a packet without
/// both addresses belongs to none. Missing ports count as 0, a missing
/// transport protocol as `Other(0)`.
pub open spec fn flow_key_of(pkt: ParsedPacket) -> Option<FlowKey> {
    match (pkt.src_ip, pkt.dst_ip) {
        (Some(s), Some(d)) => Some(
            canonical_key(
                FlowKey {
                    src_ip: s,
                    dst_ip: d,
                    src_port: match pkt.src_port {
                        Some(p) => p,
                        None => 0,
                    },
                    dst_port: match pkt.dst_port {
                        Some(p) => p,
                        None => 0,
                    },
                    protocol: match pkt.l4 {
                        Some(l) => l,
                        None => L4Protocol::Other(0),
                    },
                },
            ),
        ),
        _ => None,
    }
}

/// The record a flow starts with.
pub open spec fn fresh_record(key: FlowKey, pkt: ParsedPacket, now: i64) -> FlowRecord {
    FlowRecord {
        key,
        app_protocol: pkt.app,
        state: FlowState::New,
        first_seen: now,
        last_seen: now,
        packets_fwd: 0,
        packets_rev: 0,
        bytes_fwd: 0,
        bytes_rev: 0,
    }
}

/// The state after a packet with `flags`: a connection start reopens the
/// flow, a plain ACK establishes it, FIN or RST closes it, else unchanged.
pub open spec fn next_state(s: FlowState, pkt: ParsedPacket) -> FlowState {
    let f = pkt.flags;
    if f.syn && !f.ack {
        FlowState::New
    } else if f.ack && !f.fin && !f.rst {
        FlowState::Established
    } else if f.fin || f.rst {
        FlowState::Closing
    } else {
        s
    }
}

/// A packet travels in the flow's forward direction when its source is the
/// flow's source.
pub open spec fn is_forward(r: FlowRecord, pkt: ParsedPacket) -> bool {
    pkt.src_ip == Some(r.key.src_ip)
}

/// The record before the packet: the stored one, or a fresh one.
pub open spec fn base_record(old: Option<FlowRecord>, key: FlowKey, pkt: ParsedPacket, now: i64) -> FlowRecord {
    match old {
        Some(r) => r,
        None => fresh_record(key, pkt, now),
    }
}

/// The packet can be counted into `r` without overflow.
pub open spec fn counts_fit(r: FlowRecord, pkt: ParsedPacket) -> bool {
    if is_forward(r, pkt) {
        r.packets_fwd < u64::MAX && r.bytes_fwd + pkt.len <= u64::MAX
    } else {
        r.packets_rev < u64::MAX && r.bytes_rev + pkt.len <= u64::MAX
    }
}

/// The record after counting the packet at time `now`.
pub open spec fn counted_record(r: FlowRecord, pkt: ParsedPacket, now: i64) -> FlowRecord {
    let c = if is_forward(r, pkt) {
        FlowRecord {
            packets_fwd: (r.packets_fwd + 1) as u64,
            bytes_fwd: (r.bytes_fwd + pkt.len) as u64,
            ..r
        }
    } else {
        FlowRecord {
            packets_rev: (r.packets_rev + 1) as u64,
            bytes_rev: (r.bytes_rev + pkt.len) as u64,
            ..r
        }
    };
    FlowRecord { last_seen: now, state: next_state(r.state, pkt), ..c }
}

/// Lock-free concurrent flow tracking table.
pub struct FlowTracker {
    flows: FlowTable,
}

impl FlowTracker {
    /// The records held, by canonical flow key.
    pub closed spec fn records(&self) -> Map<FlowKey, FlowRecord> {
        flows(self.flows)
    }

    /// Finitely many records, each stored under its own key.
    pub open spec fn wf(&self) -> bool {
        &&& self.records().dom().finite()
        &&& forall|k: FlowKey| #[trigger] self.records().contains_key(k) ==> self.records()[k].key == k
    }

    /// Counting `pkt` cannot overflow its flow's counters.
    pub open spec fn can_count(&self, pkt: ParsedPacket) -> bool {
        match flow_key_of(pkt) {
            Some(k) => self.records().contains_key(k) ==> counts_fit(self.records()[k], pkt),
            None => true,
        }
    }

    pub fn new() -> (r: Self)
        ensures
            r.wf(),
            r.records() == no_flows(),
    {
        FlowTracker { flows: flow_table_with_capacity(8192) }
    }

    /// Whether counting `pkt` leaves its flow's counters within range.
    pub fn has_room(&self, pkt: &ParsedPacket) -> (r: bool)
        requires
            self.wf(),
        ensures
            r == self.can_count(*pkt),
    {
        let (src, dst) = match (pkt.src_ip, pkt.dst_ip) {
            (Some(s), Some(d)) => (s, d),
            _ => return true,
        };
        let key = FlowKey {
            src_ip: src,
            dst_ip: dst,
            src_port: match pkt.src_port {
                Some(p) => p,
                None => 0,
            },
            dst_port: match pkt.dst_port {
                Some(p) => p,
                None => 0,
            },
            protocol: match pkt.l4 {
                Some(l) => l,
                None => L4Protocol::Other(0),
            },
        }.canonical();
        let bytes = pkt.len as u64;
        match flow_get(&self.flows, &key) {
            Some(r) => if opt_ip_eq(pkt.src_ip, Some(r.key.src_ip)) {
                r.packets_fwd < u64::MAX && r.bytes_fwd <= u64::MAX - bytes
            } else {
                r.packets_rev < u64::MAX && r.bytes_rev <= u64::MAX - bytes
            },
            None => true,
        }
    }

    /// Updates or creates the flow for this packet at the current time;
    /// returns the updated record.
    pub fn update(&mut self, pkt: &ParsedPacket) -> (r: Option<FlowRecord>)
        requires
            old(self).wf(),
            old(self).can_count(*pkt),
        ensures
            final(self).wf(),
            match flow_key_of(*pkt) {
                None => r is None && final(self).records() == old(self).records(),
                Some(k) => r matches Some(rec) && rec == counted_record(
                    base_record(old(self).records().get(k), k, *pkt, rec.last_seen),
                    *pkt,
                    rec.last_seen,
                ) && final(self).records() == old(self).records().insert(k, rec),
            },
    {
        let now = now_micros();
        self.update_at(pkt, now)
    }

    /// Updates or creates the flow for this packet, seen at `now`; returns
    /// the updated record.
    pub fn update_at(&mut self, pkt: &ParsedPacket, now: i64) -> (r: Option<FlowRecord>)
        requires
            old(self).wf(),
            old(self).can_count(*pkt),
        ensures
            final(self).wf(),
            match flow_key_of(*pkt) {
                None => r is None && final(self).records() == old(self).records(),
                Some(k) => {
                    let rec = counted_record(base_record(old(self).records().get(k), k, *pkt, now), *pkt, now);
                    &&& r == Some(rec)
                    &&& final(self).records() == old(self).records().insert(k, rec)
                },
            },
    {
        let (src, dst) = match (pkt.src_ip, pkt.dst_ip) {
            (Some(s), Some(d)) => (s, d),
            _ => return None,
        };
        let key = FlowKey {
            src_ip: src,
            dst_ip: dst,
            src_port: match pkt.src_port {
                Some(p) => p,
                None => 0,
            },
            dst_port: match pkt.dst_port {
                Some(p) => p,
                None => 0,
            },
            protocol: match pkt.l4 {
                Some(l) => l,
                None => L4Protocol::Other(0),
            },
        }.canonical();
        let bytes = pkt.len as u64;
        let mut entry = match flow_get(&self.flows, &key) {
            Some(r) => r,
            None => FlowRecord {
                key,
                app_protocol: pkt.app,
                state: FlowState::New,
                first_seen: now,
                last_seen: now,
                packets_fwd: 0,
                packets_rev: 0,
                bytes_fwd: 0,
                bytes_rev: 0,
            },
        };
        entry.last_seen = now;
        if opt_ip_eq(pkt.src_ip, Some(entry.key.src_ip)) {
            entry.packets_fwd = entry.packets_fwd + 1;
            entry.bytes_fwd = entry.bytes_fwd + bytes;
        } else {
            entry.packets_rev = entry.packets_rev + 1;
            entry.bytes_rev = entry.bytes_rev + bytes;
        }
        if pkt.flags.is_connection_start() {
            entry.state = FlowState::New;
        } else if pkt.flags.ack && !pkt.flags.fin && !pkt.flags.rst {
            entry.state = FlowState::Established;
        } else if pkt.flags.fin || pkt.flags.rst {
            entry.state = FlowState::Closing;
        }
        flow_set(&mut self.flows, key, entry);
        Some(entry)
    }

    /// Evicts flows idle for longer than their timeout, as of now.
    pub fn evict_stale(&mut self)
        requires
            old(self).wf(),
        ensures
            final(self).wf(),
            exists|now: i64|
                #![trigger fresh_keys(old(self).records(), now)]
                final(self).records() == old(self).records().restrict(fresh_keys(old(self).records(), now)),
    {
        let now = now_micros();
        self.evict_stale_at(now);
    }

    /// Evicts flows that, at time `now`, have been idle for at least their
    /// timeout.
    pub fn evict_stale_at(&mut self, now: i64)
        requires
            old(self).wf(),
        ensures
            final(self).wf(),
            final(self).records() == old(self).records().restrict(fresh_keys(old(self).records(), now)),
    {
        flow_retain_fresh(&mut self.flows, now);
        proof {
            let m = flows(self.flows);
            assert(m.dom().subset_of(old(self).records().dom()));
            vstd::set_lib::lemma_len_subset(m.dom(), old(self).records().dom());
        }
    }

    /// The number of flows tracked.
    pub fn active_count(&self) -> (r: usize)
        requires
            self.wf(),
        ensures
            r == self.records().len(),
    {
        flow_count(&self.flows)
    }

    /// A copy of every record, in no particular order.
    pub fn snapshot(&self) -> (r: Vec<FlowRecord>)
        ensures
            lists_each_once(r@, self.records()),
    {
        flow_records(&self.flows)
    }
}

/// `q` is `p` travelling the other way: addresses and ports exchanged,
/// same transport protocol.
pub open spec fn is_reply(p: ParsedPacket, q: ParsedPacket) -> bool {
    &&& q.src_ip == p.dst_ip
    &&& q.dst_ip == p.src_ip
    &&& q.src_port == p.dst_port
    &&& q.dst_port == p.src_port
    &&& q.l4 == p.l4
}

/// A packet and its reply belong to the same flow.
pub proof fn law_reply_same_flow(p: ParsedPacket, q: ParsedPacket)
    requires
        is_reply(p, q),
    ensures
        flow_key_of(q) == flow_key_of(p),
{
    if p.src_ip is Some && p.dst_ip is Some {
        let k = FlowKey {
            src_ip: p.src_ip->0,
            dst_ip: p.dst_ip->0,
            src_port: match p.src_port {
                Some(x) => x,
                None => 0,
            },
            dst_port: match p.dst_port {
                Some(x) => x,
                None => 0,
            },
            protocol: match p.l4 {
                Some(l) => l,
                None => L4Protocol::Other(0),
            },
        };
        crate::flow::law_canonical_ignores_direction(k);
        assert(flow_key_of(q) == Some(canonical_key(crate::flow::reversed(k))));
    }
}

/// Counting a packet adds exactly one packet and its length in bytes to
/// the flow, in one direction, and moves its last sighting to `now`.
pub proof fn law_count_adds_packet(r: FlowRecord, pkt: ParsedPacket, now: i64)
    requires
        counts_fit(r, pkt),
    ensures
        counted_record(r, pkt, now).packets_fwd + counted_record(r, pkt, now).packets_rev == r.packets_fwd + r.packets_rev + 1,
        counted_record(r, pkt, now).bytes_fwd + counted_record(r, pkt, now).bytes_rev == r.bytes_fwd + r.bytes_rev + pkt.len,
        counted_record(r, pkt, now).last_seen == now,
        counted_record(r, pkt, now).first_seen == r.first_seen,
        counted_record(r, pkt, now).key == r.key,
{
}

/// Evicting twice at the same time evicts nothing more.
pub proof fn law_eviction_idempotent(m: Map<FlowKey, FlowRecord>, now: i64)
    ensures
        m.restrict(fresh_keys(m, now)).restrict(fresh_keys(m.restrict(fresh_keys(m, now)), now)) == m.restrict(fresh_keys(m, now)),
{
    let once = m.restrict(fresh_keys(m, now));
    assert(once.restrict(fresh_keys(once, now)) =~= once);
}

/// TCP state from a packet's flags: SYN without ACK opens the flow anew;
/// ACK without FIN or RST establishes it; FIN or RST (other than on a bare
/// SYN) closes it, and a closing TCP flow is evicted after 15 s idle; a
/// packet with none of SYN, ACK, FIN, RST leaves the state as it was.
pub proof fn law_flags_drive_state(r: FlowRecord, pkt: ParsedPacket, now: i64)
    ensures
        pkt.flags.syn && !pkt.flags.ack ==> counted_record(r, pkt, now).state == FlowState::New,
        pkt.flags.ack && !pkt.flags.fin && !pkt.flags.rst ==> counted_record(r, pkt, now).state == FlowState::Established,
        pkt.flags.rst && !pkt.flags.syn ==> counted_record(r, pkt, now).state == FlowState::Closing,
        pkt.flags.fin && !pkt.flags.syn ==> counted_record(r, pkt, now).state == FlowState::Closing,
        (pkt.flags.fin || pkt.flags.rst) && pkt.flags.ack ==> counted_record(r, pkt, now).state == FlowState::Closing,
        !pkt.flags.syn && !pkt.flags.ack && !pkt.flags.fin && !pkt.flags.rst ==> counted_record(r, pkt, now).state == r.state,
        r.key.protocol == L4Protocol::Tcp && pkt.flags.rst && !pkt.flags.syn ==> idle_timeout_micros(counted_record(r, pkt, now)) == 15_000_000,
        r.key.protocol == L4Protocol::Tcp && pkt.flags.fin && !pkt.flags.syn ==> idle_timeout_micros(counted_record(r, pkt, now)) == 15_000_000,
{
}

/// Idle timeouts: TCP 60 s while opening, 300 s established, 15 s closing
/// or closed; UDP 30 s; ICMP (v4 or v6) 10 s; any other protocol 120 s.
pub proof fn law_idle_timeouts(r: FlowRecord)
    ensures
        r.key.protocol == L4Protocol::Tcp && r.state == FlowState::New ==> idle_timeout_micros(r) == 60_000_000,
        r.key.protocol == L4Protocol::Tcp && r.state == FlowState::Established ==> idle_timeout_micros(r) == 300_000_000,
        r.key.protocol == L4Protocol::Tcp && (r.state == FlowState::Closing || r.state == FlowState::Closed) ==> idle_timeout_micros(r) == 15_000_000,
        r.key.protocol == L4Protocol::Udp ==> idle_timeout_micros(r) == 30_000_000,
        (r.key.protocol == L4Protocol::Icmp || r.key.protocol == L4Protocol::IcmpV6) ==> idle_timeout_micros(r) == 10_000_000,
        !(r.key.protocol == L4Protocol::Tcp || r.key.protocol == L4Protocol::Udp || r.key.protocol == L4Protocol::Icmp || r.key.protocol == L4Protocol::IcmpV6) ==> idle_timeout_micros(r) == 120_000_000,
{
}

} // verus!
