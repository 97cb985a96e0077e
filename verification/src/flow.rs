//! Flow keys and flow records.

use vstd::prelude::*;
use crate::net::{IpAddress, endpoint_le, ip_le, ip_lt_or_eq, ip_eq};
use crate::protocol::{AppProtocol, L4Protocol};

verus! {

/// Five-tuple identifying a network flow (bidirectional).
#[derive(Debug, Clone, Copy, PartialEq, Eq, Hash, Structural)]
pub struct FlowKey {
    pub src_ip: IpAddress,
    pub dst_ip: IpAddress,
    pub src_port: u16,
    pub dst_port: u16,
    pub protocol: L4Protocol,
}

/// The key with source and destination exchanged.
pub open spec fn reversed(k: FlowKey) -> FlowKey {
    FlowKey {
        src_ip: k.dst_ip,
        dst_ip: k.src_ip,
        src_port: k.dst_port,
        dst_port: k.src_port,
        protocol: k.protocol,
    }
}

/// The canonical orientation of a key: the endpoint that orders first
/// (address, then port) is the source.
pub open spec fn canonical_key(k: FlowKey) -> FlowKey {
    if endpoint_le((k.src_ip, k.src_port), (k.dst_ip, k.dst_port)) {
        k
    } else {
        reversed(k)
    }
}

impl FlowKey {
    /// Returns the canonical key where src <= dst (for bidirectional matching).
    pub fn canonical(self) -> (r: Self)
        ensures
            r == canonical_key(self),
    {
        let a_le_b = if ip_eq(self.src_ip, self.dst_ip) {
            self.src_port <= self.dst_port
        } else {
            ip_lt_or_eq(self.src_ip, self.dst_ip)
        };
        if a_le_b {
            self
        } else {
            FlowKey {
                src_ip: self.dst_ip,
                dst_ip: self.src_ip,
                src_port: self.dst_port,
                dst_port: self.src_port,
                protocol: self.protocol,
            }
        }
    }
}

/// Current lifecycle state of a flow.
#[derive(Debug, Clone, Copy, PartialEq, Eq, Structural)]
pub enum FlowState {
    New,
    Established,
    Closing,
    Closed,
}

/// Aggregated statistics for a single network flow.
#[derive(Debug, Clone, Copy, PartialEq, Eq, Structural)]
pub struct FlowRecord {
    pub key: FlowKey,
    pub app_protocol: AppProtocol,
    pub state: FlowState,
    /// Microseconds since the Unix epoch (UTC).
    pub first_seen: i64,
    /// Microseconds since the Unix epoch (UTC).
    pub last_seen: i64,
    pub packets_fwd: u64,
    pub packets_rev: u64,
    pub bytes_fwd: u64,
    pub bytes_rev: u64,
}

/// Integer division by 1000 rounded toward zero.
pub open spec fn millis_toward_zero(micros: int) -> int {
    if micros >= 0 {
        micros / 1000
    } else {
        -((-micros) / 1000)
    }
}

impl FlowRecord {
    pub fn total_packets(&self) -> (r: u64)
        requires
            self.packets_fwd + self.packets_rev <= u64::MAX,
        ensures
            r == self.packets_fwd + self.packets_rev,
    {
        self.packets_fwd + self.packets_rev
    }

    pub fn total_bytes(&self) -> (r: u64)
        requires
            self.bytes_fwd + self.bytes_rev <= u64::MAX,
        ensures
            r == self.bytes_fwd + self.bytes_rev,
    {
        self.bytes_fwd + self.bytes_rev
    }

    /// Whole milliseconds between first and last sighting, rounded toward
    /// zero as `chrono::TimeDelta::num_milliseconds` does.
    pub fn duration_ms(&self) -> (r: i64)
        requires
            i64::MIN <= self.last_seen - self.first_seen <= i64::MAX,
        ensures
            r == millis_toward_zero(self.last_seen - self.first_seen),
    {
        let d = self.last_seen - self.first_seen;
        if d >= 0 {
            d / 1000
        } else {
            let m = (-(d + 1)) as u64 + 1;
            -((m / 1000) as i64)
        }
    }
}

/// Address order is total and antisymmetric.
proof fn lemma_ip_le_total(a: IpAddress, b: IpAddress)
    ensures
        ip_le(a, b) || ip_le(b, a),
        ip_le(a, b) && ip_le(b, a) ==> a == b,
{
}

/// Both orientations of a flow have the same canonical key: a packet and
/// its reply are tracked as one flow.
pub proof fn law_canonical_ignores_direction(k: FlowKey)
    ensures
        canonical_key(reversed(k)) == canonical_key(k),
{
    lemma_ip_le_total(k.src_ip, k.dst_ip);
    assert(reversed(reversed(k)) == k);
}

/// Canonicalising a canonical key changes nothing.
pub proof fn law_canonical_idempotent(k: FlowKey)
    ensures
        canonical_key(canonical_key(k)) == canonical_key(k),
{
    lemma_ip_le_total(k.src_ip, k.dst_ip);
}

/// In a canonical key the source endpoint orders at or before the
/// destination endpoint.
pub proof fn law_canonical_source_first(k: FlowKey)
    ensures
        endpoint_le(
            (canonical_key(k).src_ip, canonical_key(k).src_port),
            (canonical_key(k).dst_ip, canonical_key(k).dst_port),
        ),
{
    lemma_ip_le_total(k.src_ip, k.dst_ip);
}

} // verus!
