//! Suricata-compatible EVE records for alerts and flows. The records hold
//! exactly the fields that are written out as one JSON object per line.

use vstd::prelude::*;
use vstd::string::StringExecFns;
use crate::clock::{TimeFormat, time_text, format_time, time_pattern, pattern_of};
use crate::alert::{Alert, AlertCategory, Severity};
use crate::flow::{FlowRecord, FlowState};
use crate::net::IpAddress;
use crate::protocol::L4Protocol;

verus! {

/// The EVE name of a transport protocol.
pub open spec fn proto_name(p: L4Protocol) -> Seq<char> {
    match p {
        L4Protocol::Tcp => "TCP"@,
        L4Protocol::Udp => "UDP"@,
        L4Protocol::Icmp => "ICMP"@,
        L4Protocol::IcmpV6 => "IPv6-ICMP"@,
        L4Protocol::Sctp => "SCTP"@,
        L4Protocol::Other(_) => "unknown"@,
    }
}

pub fn proto_str(p: L4Protocol) -> (r: &'static str)
    ensures
        r@ == proto_name(p),
{
    match p {
        L4Protocol::Tcp => "TCP",
        L4Protocol::Udp => "UDP",
        L4Protocol::Icmp => "ICMP",
        L4Protocol::IcmpV6 => "IPv6-ICMP",
        L4Protocol::Sctp => "SCTP",
        L4Protocol::Other(_) => "unknown",
    }
}

/// Suricata's severity numbers: 1 is the most severe.
pub open spec fn severity_rank(s: Severity) -> u8 {
    match s {
        Severity::Info => 5,
        Severity::Low => 4,
        Severity::Medium => 3,
        Severity::High => 2,
        Severity::Critical => 1,
    }
}

pub fn severity_num(s: Severity) -> (r: u8)
    ensures
        r == severity_rank(s),
{
    match s {
        Severity::Info => 5,
        Severity::Low => 4,
        Severity::Medium => 3,
        Severity::High => 2,
        Severity::Critical => 1,
    }
}

pub open spec fn flow_state_name(s: FlowState) -> Seq<char> {
    match s {
        FlowState::New => "new"@,
        FlowState::Established => "established"@,
        FlowState::Closing => "closing"@,
        FlowState::Closed => "closed"@,
    }
}

pub fn flow_state_str(s: FlowState) -> (r: &'static str)
    ensures
        r@ == flow_state_name(s),
{
    match s {
        FlowState::New => "new",
        FlowState::Established => "established",
        FlowState::Closing => "closing",
        FlowState::Closed => "closed",
    }
}

/// The EVE name of an alert category: the variant's name.
pub open spec fn category_name(c: AlertCategory) -> Seq<char> {
    match c {
        AlertCategory::PortScan => "PortScan"@,
        AlertCategory::SynFlood => "SynFlood"@,
        AlertCategory::LargeTransfer => "LargeTransfer"@,
        AlertCategory::DnsExfiltration => "DnsExfiltration"@,
        AlertCategory::TlsAnomalyNoSni => "TlsAnomalyNoSni"@,
        AlertCategory::SuspiciousPort => "SuspiciousPort"@,
        AlertCategory::IcmpFlood => "IcmpFlood"@,
        AlertCategory::AbnormalTtl => "AbnormalTtl"@,
    }
}

pub fn category_str(c: AlertCategory) -> (r: &'static str)
    ensures
        r@ == category_name(c),
{
    match c {
        AlertCategory::PortScan => "PortScan",
        AlertCategory::SynFlood => "SynFlood",
        AlertCategory::LargeTransfer => "LargeTransfer",
        AlertCategory::DnsExfiltration => "DnsExfiltration",
        AlertCategory::TlsAnomalyNoSni => "TlsAnomalyNoSni",
        AlertCategory::SuspiciousPort => "SuspiciousPort",
        AlertCategory::IcmpFlood => "IcmpFlood",
        AlertCategory::AbnormalTtl => "AbnormalTtl",
    }
}

/// The EVE text of an instant.
pub open spec fn eve_time_text(micros: i64) -> Option<Seq<char>> {
    time_text(micros, pattern_of(TimeFormat::Eve))
}

/// The `alert` object of an EVE alert event.
pub struct EveAlertField {
    pub action: &'static str,
    pub gid: u32,
    pub signature_id: u64,
    pub rev: u32,
    pub signature: String,
    pub category: &'static str,
    pub severity: u8,
}

/// An EVE alert event.
pub struct EveAlert {
    pub timestamp: String,
    pub event_type: &'static str,
    pub src_ip: Option<IpAddress>,
    pub src_port: Option<u16>,
    pub dest_ip: Option<IpAddress>,
    pub dest_port: Option<u16>,
    pub proto: Option<&'static str>,
    pub alert: EveAlertField,
}

/// The `flow` object of an EVE flow event.
pub struct EveFlowField {
    pub pkts_toserver: u64,
    pub pkts_toclient: u64,
    pub bytes_toserver: u64,
    pub bytes_toclient: u64,
    pub start: String,
    pub end: String,
    pub state: &'static str,
}

/// An EVE flow event.
pub struct EveFlow {
    pub timestamp: String,
    pub event_type: &'static str,
    pub src_ip: IpAddress,
    pub src_port: u16,
    pub dest_ip: IpAddress,
    pub dest_port: u16,
    pub proto: &'static str,
    pub flow: EveFlowField,
}

/// `e` is the EVE event of alert `a`, stamped with the text `t`.
pub open spec fn is_alert_event(e: EveAlert, a: Alert, t: Seq<char>) -> bool {
    &&& e.timestamp@ == t
    &&& e.event_type@ == "alert"@
    &&& e.src_ip == a.src_ip
    &&& e.src_port == a.src_port
    &&& e.dest_ip == a.dst_ip
    &&& e.dest_port == a.dst_port
    &&& match a.proto {
        Some(p) => e.proto matches Some(n) && n@ == proto_name(p),
        None => e.proto is None,
    }
    &&& e.alert.action@ == "allowed"@
    &&& e.alert.gid == 1
    &&& e.alert.signature_id == a.id
    &&& e.alert.rev == 1
    &&& e.alert.signature@ == a.message@
    &&& e.alert.category@ == category_name(a.category)
    &&& e.alert.severity == severity_rank(a.severity)
}

/// `e` is the EVE event of flow `f`, with start and end texts `start` and
/// `end`.
pub open spec fn is_flow_event(e: EveFlow, f: FlowRecord, start: Seq<char>, end: Seq<char>) -> bool {
    &&& e.timestamp@ == end
    &&& e.event_type@ == "flow"@
    &&& e.src_ip == f.key.src_ip
    &&& e.src_port == f.key.src_port
    &&& e.dest_ip == f.key.dst_ip
    &&& e.dest_port == f.key.dst_port
    &&& e.proto@ == proto_name(f.key.protocol)
    &&& e.flow.pkts_toserver == f.packets_fwd
    &&& e.flow.pkts_toclient == f.packets_rev
    &&& e.flow.bytes_toserver == f.bytes_fwd
    &&& e.flow.bytes_toclient == f.bytes_rev
    &&& e.flow.start@ == start
    &&& e.flow.end@ == end
    &&& e.flow.state@ == flow_state_name(f.state)
}

/// The EVE event of an alert, given the text of its timestamp.
pub fn alert_event_with(a: &Alert, time: String) -> (e: EveAlert)
    ensures
        is_alert_event(e, *a, time@),
{
    EveAlert {
        timestamp: time,
        event_type: "alert",
        src_ip: a.src_ip,
        src_port: a.src_port,
        dest_ip: a.dst_ip,
        dest_port: a.dst_port,
        proto: match a.proto {
            Some(p) => Some(proto_str(p)),
            None => None,
        },
        alert: EveAlertField {
            action: "allowed",
            gid: 1,
            signature_id: a.id,
            rev: 1,
            signature: a.message.clone(),
            category: category_str(a.category),
            severity: severity_num(a.severity),
        },
    }
}

/// The EVE event of a flow, given the texts of its first and last sighting.
pub fn flow_event_with(f: &FlowRecord, start: String, end: String) -> (e: EveFlow)
    ensures
        is_flow_event(e, *f, start@, end@),
{
    let timestamp = end.clone();
    EveFlow {
        timestamp,
        event_type: "flow",
        src_ip: f.key.src_ip,
        src_port: f.key.src_port,
        dest_ip: f.key.dst_ip,
        dest_port: f.key.dst_port,
        proto: proto_str(f.key.protocol),
        flow: EveFlowField {
            pkts_toserver: f.packets_fwd,
            pkts_toclient: f.packets_rev,
            bytes_toserver: f.bytes_fwd,
            bytes_toclient: f.bytes_rev,
            start,
            end,
            state: flow_state_str(f.state),
        },
    }
}

/// Writes EVE events, one JSON object per line, to the file at a path.
pub struct EveWriter {
    path: String,
}

impl EveWriter {
    /// The path events are appended to.
    pub closed spec fn path_view(&self) -> Seq<char> {
        self.path@
    }

    pub fn new(path: &str) -> (r: Self)
        ensures
            r.path_view() == path@,
    {
        EveWriter { path: String::from_str(path) }
    }

    /// The path events are appended to.
    pub fn path(&self) -> (r: &str)
        ensures
            r@ == self.path_view(),
    {
        self.path.as_str()
    }

    /// The event for an alert; `None` where its timestamp lies outside the
    /// range of dates that can be written.
    pub fn alert_event(&self, a: &Alert) -> (r: Option<EveAlert>)
        ensures
            match eve_time_text(a.timestamp) {
                Some(t) => r matches Some(e) && is_alert_event(e, *a, t),
                None => r is None,
            },
    {
        match format_time(a.timestamp, time_pattern(TimeFormat::Eve)) {
            Some(t) => Some(alert_event_with(a, t)),
            None => None,
        }
    }

    /// The event for a flow; `None` where a timestamp lies outside the
    /// range of dates that can be written.
    pub fn flow_event(&self, f: &FlowRecord) -> (r: Option<EveFlow>)
        ensures
            match (eve_time_text(f.first_seen), eve_time_text(f.last_seen)) {
                (Some(s), Some(e)) => r matches Some(ev) && is_flow_event(ev, *f, s, e),
                _ => r is None,
            },
    {
        let start = match format_time(f.first_seen, time_pattern(TimeFormat::Eve)) {
            Some(s) => s,
            None => return None,
        };
        let end = match format_time(f.last_seen, time_pattern(TimeFormat::Eve)) {
            Some(e) => e,
            None => return None,
        };
        Some(flow_event_with(f, start, end))
    }
}

/// Suricata's severity scale: Critical is 1, High 2, Medium 3, Low 4,
/// Info 5, so a more severe alert has a smaller number.
pub proof fn law_severity_scale()
    ensures
        severity_rank(Severity::Critical) == 1,
        severity_rank(Severity::High) == 2,
        severity_rank(Severity::Medium) == 3,
        severity_rank(Severity::Low) == 4,
        severity_rank(Severity::Info) == 5,
        forall|a: Severity, b: Severity| #[trigger] severity_rank(a) == #[trigger] severity_rank(b) ==> a == b,
{
}

/// An EVE alert's category is the name of its category variant, and its
/// protocol the IANA-style name of the packet's transport protocol.
pub proof fn law_eve_names()
    ensures
        category_name(AlertCategory::PortScan) == "PortScan"@,
        category_name(AlertCategory::SynFlood) == "SynFlood"@,
        category_name(AlertCategory::LargeTransfer) == "LargeTransfer"@,
        category_name(AlertCategory::DnsExfiltration) == "DnsExfiltration"@,
        category_name(AlertCategory::TlsAnomalyNoSni) == "TlsAnomalyNoSni"@,
        category_name(AlertCategory::SuspiciousPort) == "SuspiciousPort"@,
        category_name(AlertCategory::IcmpFlood) == "IcmpFlood"@,
        category_name(AlertCategory::AbnormalTtl) == "AbnormalTtl"@,
        proto_name(L4Protocol::Tcp) == "TCP"@,
        proto_name(L4Protocol::Udp) == "UDP"@,
        proto_name(L4Protocol::Icmp) == "ICMP"@,
{
}

} // verus!
