use arwah::alert::{AlertCategory, AlertEngine, Severity};
use arwah::blacklist::Blacklist;
use arwah::cli::{choose_interface, rank_flows, Cli, Command, FlowSort, OutputFormat};
use arwah::dissector::EtherparseDecoder;
use arwah::error::ArwahError;
use arwah::eve::{category_str, flow_state_str, proto_str, severity_num, EveWriter};
use arwah::filter::{top_level_split, DisplayFilter, PacketFilter};
use arwah::flow::{FlowKey, FlowRecord, FlowState};
use arwah::flow_tracker::FlowTracker;
use arwah::net::{IpAddress, IpNetwork};
use arwah::packet::{ParsedPacket, RawPacket, TcpFlags};
use arwah::protocol::{AppProtocol, L3Protocol, L4Protocol};
use arwah::report::{
    capture_done, capture_line_with, flow_header_line, flow_row_of, interface_row_of, read_line_with,
    read_summary_line, rule_line, stats_done, stats_line_of,
};
use arwah::rotation::RotatingPcapWriter;
use arwah::rules::{parse_rule, parse_rules, AddrMatch, PortMatch, ProtoMatch, SuricataRuleSet};
use arwah::session::{CaptureEvent, CaptureSession, SessionAction};
use arwah::stats::StatsEngine;
use arwah::stream::StreamTable;
use arwah::tui::{AppEvent, AppState, KeyPress, View};

fn v4(a: u8, b: u8, c: u8, d: u8) -> IpAddress {
    IpAddress::V4(u32::from_be_bytes([a, b, c, d]))
}

fn packet(l4: Option<L4Protocol>, src: Option<IpAddress>, dst: Option<IpAddress>, sport: Option<u16>, dport: Option<u16>) -> ParsedPacket {
    ParsedPacket {
        timestamp: 0,
        interface: "eth0".to_string(),
        len: 100,
        l3: L3Protocol::IPv4,
        l4,
        app: AppProtocol::Unknown,
        src_ip: src,
        dst_ip: dst,
        src_port: sport,
        dst_port: dport,
        ttl: Some(64),
        flags: TcpFlags::default(),
        payload_len: 0,
    }
}

fn syn() -> TcpFlags {
    TcpFlags { syn: true, ack: false, fin: false, rst: false, psh: false, urg: false }
}

// ---- stream reassembly ----

fn stream_key() -> FlowKey {
    FlowKey { src_ip: v4(10, 0, 0, 1), dst_ip: v4(10, 0, 0, 2), src_port: 1234, dst_port: 80, protocol: L4Protocol::Tcp }
}

#[test]
fn stream_holds_segment_until_gap_filled() {
    let mut t = StreamTable::new();
    let k = stream_key();
    t.feed(&k, true, 99, 0x02, vec![]);
    let (a, b) = t.feed(&k, true, 106, 0x18, b"World".to_vec());
    assert!(a.is_empty());
    assert!(b.is_empty());
    let (a, _) = t.feed(&k, true, 100, 0x18, b"Hello ".to_vec());
    assert_eq!(a, b"Hello World");
}

#[test]
fn stream_drops_bytes_already_delivered() {
    let mut t = StreamTable::new();
    let k = stream_key();
    t.feed(&k, true, 0, 0x02, vec![]);
    let (a, _) = t.feed(&k, true, 1, 0x18, b"abcd".to_vec());
    assert_eq!(a, b"abcd");
    let (a, _) = t.feed(&k, true, 3, 0x18, b"cdef".to_vec());
    assert_eq!(a, b"ef");
}

#[test]
fn stream_directions_are_separate() {
    let mut t = StreamTable::new();
    let k = stream_key();
    t.feed(&k, false, 500, 0x12, vec![]);
    let (a, b) = t.feed(&k, false, 501, 0x18, b"reply".to_vec());
    assert!(a.is_empty());
    assert_eq!(b, b"reply");
}

#[test]
fn stream_table_counts_and_removes() {
    let mut t = StreamTable::new();
    let k = stream_key();
    let mut other = stream_key();
    other.src_port = 4321;
    assert_eq!(t.len(), 0);
    t.feed(&k, true, 0, 0x02, vec![]);
    t.feed(&other, true, 0, 0x02, vec![]);
    t.feed(&k, true, 1, 0x10, vec![]);
    assert_eq!(t.len(), 2);
    t.remove(&k);
    assert_eq!(t.len(), 1);
    t.remove(&k);
    assert_eq!(t.len(), 1);
}

#[test]
fn stream_sequence_numbers_wrap() {
    let mut t = StreamTable::new();
    let k = stream_key();
    t.feed(&k, true, u32::MAX - 1, 0x02, vec![]);
    let (a, _) = t.feed(&k, true, u32::MAX, 0x18, b"x".to_vec());
    assert_eq!(a, b"x");
    let (a, _) = t.feed(&k, true, 0, 0x18, b"yz".to_vec());
    assert_eq!(a, b"yz");
}

// ---- rules ----

#[test]
fn rule_fields_parse() {
    let r = parse_rule("alert TCP 10.0.0.1 1024:2048 -> any 80 (msg:\"probe\"; content:\"GET\"; sid:42;)").unwrap();
    assert_eq!(r.sid, 42);
    assert_eq!(r.msg, "probe");
    assert_eq!(r.proto, ProtoMatch::Tcp);
    assert_eq!(r.src, AddrMatch::Ip(v4(10, 0, 0, 1)));
    assert_eq!(r.src_port, PortMatch::Range(1024, 2048));
    assert_eq!(r.dst, AddrMatch::Any);
    assert_eq!(r.dst_port, PortMatch::Port(80));
    assert_eq!(r.content, Some(b"GET".to_vec()));
}

#[test]
fn rule_defaults_when_options_missing() {
    let r = parse_rule("alert icmp $HOME_NET any -> $EXTERNAL_NET bogus ()").unwrap();
    assert_eq!(r.sid, 0);
    assert_eq!(r.msg, "");
    assert_eq!(r.proto, ProtoMatch::Icmp);
    assert_eq!(r.src, AddrMatch::Any);
    assert_eq!(r.dst_port, PortMatch::Any);
    assert_eq!(r.content, None);
}

#[test]
fn rule_errors() {
    assert_eq!(parse_rule("alert tcp any any -> any 80").unwrap_err(), "missing '('");
    assert_eq!(parse_rule("alert tcp any any (sid:1;)").unwrap_err(), "short header: alert tcp any any (sid:1;)");
}

#[test]
fn only_alert_rules_load() {
    let line = "pass tcp any any -> any 80 (msg:\"x\"; sid:5;)";
    assert_eq!(parse_rule(line).unwrap_err(), format!("not an alert rule: {}", line));
    assert!(parse_rules(line).is_empty());
    let both = "drop udp any any -> any 53 (sid:6;)\nalert udp any any -> any 53 (sid:7;)";
    let rs = parse_rules(both);
    assert_eq!(rs.len(), 1);
    assert_eq!(rs[0].sid, 7);
}

#[test]
fn rules_skip_comments_and_bad_lines() {
    let text = "# comment\n\n  alert udp any any -> any 53 (sid:7;)  \r\nbroken line\nalert tcp any any -> any any (sid:8;)";
    let rules = parse_rules(text);
    assert_eq!(rules.len(), 2);
    assert_eq!(rules[0].sid, 7);
    assert_eq!(rules[0].proto, ProtoMatch::Udp);
    assert_eq!(rules[1].sid, 8);
}

#[test]
fn first_matching_rule_alerts() {
    let rules = parse_rules("alert udp any any -> any 53 (msg:\"dns\"; sid:1;)\nalert tcp any any -> any 80 (msg:\"web\"; sid:2;)\nalert tcp any any -> any any (msg:\"any tcp\"; sid:3;)");
    let set = SuricataRuleSet::new(rules);
    let p = packet(Some(L4Protocol::Tcp), Some(v4(1, 1, 1, 1)), Some(v4(2, 2, 2, 2)), Some(5000), Some(80));
    let a = set.check_at(&p, 77).unwrap();
    assert_eq!(a.message, "[sid:2] web");
    assert_eq!(a.severity, Severity::Medium);
    assert_eq!(a.category, AlertCategory::SuspiciousPort);
    assert_eq!(a.timestamp, 77);
    assert_eq!(a.id, 0);
    assert_eq!(a.src_ip, Some(v4(1, 1, 1, 1)));
}

#[test]
fn port_range_matches_inclusive() {
    assert!(PortMatch::Range(10, 20).matches(Some(10)));
    assert!(PortMatch::Range(10, 20).matches(Some(20)));
    assert!(!PortMatch::Range(10, 20).matches(Some(21)));
    assert!(!PortMatch::Range(10, 20).matches(None));
    assert!(PortMatch::Any.matches(None));
    assert!(ProtoMatch::Any.matches(None));
    assert!(!ProtoMatch::Udp.matches(Some(L4Protocol::Tcp)));
}

// ---- blacklist ----

#[test]
fn blacklist_alert_names_source_first() {
    let bl = Blacklist::from_text("# blocked\n10.0.0.0/8\n  8.8.8.8  \n");
    let p = packet(Some(L4Protocol::Udp), Some(v4(10, 9, 9, 9)), Some(v4(8, 8, 8, 8)), Some(1), Some(53));
    let a = bl.check_packet_at(&p, 5).unwrap();
    assert_eq!(a.message, "Blacklisted IP: 10.9.9.9");
    assert_eq!(a.severity, Severity::Critical);
    let q = packet(Some(L4Protocol::Udp), Some(v4(192, 168, 0, 1)), Some(v4(8, 8, 8, 8)), Some(1), Some(53));
    assert_eq!(bl.check_packet_at(&q, 5).unwrap().message, "Blacklisted IP: 8.8.8.8");
    let r = packet(Some(L4Protocol::Udp), Some(v4(192, 168, 0, 1)), Some(v4(1, 1, 1, 1)), Some(1), Some(53));
    assert!(bl.check_packet_at(&r, 5).is_none());
}

#[test]
fn blacklist_domain_query_alert() {
    let bl = Blacklist::from_text("Malware.Example.com\n10.0.0.1\n");
    let p = packet(Some(L4Protocol::Udp), Some(v4(192, 168, 0, 2)), Some(v4(9, 9, 9, 9)), Some(5353), Some(53));
    let a = bl.check_domain_at("malware.EXAMPLE.com", &p, 7).unwrap();
    assert_eq!(a.severity, Severity::Critical);
    assert_eq!(a.message, "Blacklisted domain: malware.EXAMPLE.com");
    assert_eq!(a.timestamp, 7);
    assert_eq!(a.dst_port, Some(53));
    assert_eq!(a.proto, Some(L4Protocol::Udp));
    assert!(bl.check_domain_at("example.com", &p, 7).is_none());
    assert!(bl.check_domain("10.0.0.1", &p).is_none());
}

#[test]
fn blacklist_ipv6_and_comments() {
    let bl = Blacklist::from_text("#10.0.0.1\n2001:db8::1\n");
    assert!(!bl.contains_ip(v4(10, 0, 0, 1)));
    assert!(bl.contains_ip(IpAddress::V6(0x2001_0db8_0000_0000_0000_0000_0000_0001)));
}

#[test]
fn network_contains_prefix() {
    let n = IpNetwork { addr: v4(192, 168, 1, 77), prefix_len: 24 };
    assert!(n.contains(v4(192, 168, 1, 0)));
    assert!(n.contains(v4(192, 168, 1, 255)));
    assert!(!n.contains(v4(192, 168, 2, 0)));
    assert!(!n.contains(IpAddress::V6(1)));
}

// ---- alert rules ----

#[test]
fn syn_flood_alert_once_past_threshold() {
    let mut e = AlertEngine::new();
    let mut p = packet(Some(L4Protocol::Tcp), Some(v4(6, 6, 6, 6)), Some(v4(1, 1, 1, 1)), Some(1000), Some(22));
    p.flags = syn();
    let mut fired = Vec::new();
    for i in 1..=400u64 {
        for a in e.inspect_at(&p, i as i64) {
            fired.push((i, a));
        }
    }
    assert_eq!(fired.len(), 1);
    assert_eq!(fired[0].0, 201);
    assert_eq!(fired[0].1.message, "SYN flood from 6.6.6.6: 201 SYNs");
    assert_eq!(fired[0].1.severity, Severity::High);
    assert_eq!(fired[0].1.id, 1);
}

#[test]
fn ping_flood_alert_once_past_threshold() {
    let mut e = AlertEngine::new();
    let p = packet(Some(L4Protocol::Icmp), Some(v4(7, 7, 7, 7)), Some(v4(1, 1, 1, 1)), None, None);
    let mut fired = Vec::new();
    for i in 1..=600u64 {
        for a in e.inspect_at(&p, 0) {
            fired.push((i, a));
        }
    }
    assert_eq!(fired.len(), 1);
    assert_eq!(fired[0].0, 501);
    assert_eq!(fired[0].1.message, "ICMP flood from 7.7.7.7");
    assert_eq!(fired[0].1.category, AlertCategory::IcmpFlood);
}

#[test]
fn vertical_port_scan_alert_once_past_twenty_ports() {
    let mut e = AlertEngine::new();
    let mut fired = Vec::new();
    for i in 0..30u16 {
        let mut p = packet(Some(L4Protocol::Tcp), Some(v4(10, 0, 0, 1)), Some(v4(10, 0, 0, 2)), Some(40000), Some(1000 + i));
        p.flags = syn();
        for a in e.inspect_at(&p, 3) {
            fired.push((i + 1, a));
        }
        // a repeated probe counts once
        for a in e.inspect_at(&p, 3) {
            fired.push((i + 1, a));
        }
    }
    assert_eq!(fired.len(), 1);
    assert_eq!(fired[0].0, 21);
    assert_eq!(fired[0].1.category, AlertCategory::PortScan);
    assert_eq!(fired[0].1.severity, Severity::High);
    assert_eq!(fired[0].1.message, "Vertical port scan from 10.0.0.1 to 10.0.0.2: 21 ports");
}

#[test]
fn horizontal_port_scan_alert_once_past_fifteen_hosts() {
    let mut e = AlertEngine::new();
    let mut fired = Vec::new();
    for i in 0..20u8 {
        let mut p = packet(Some(L4Protocol::Tcp), Some(v4(10, 0, 0, 1)), Some(v4(192, 168, 1, 10 + i)), Some(40000), Some(22));
        p.flags = syn();
        for a in e.inspect_at(&p, 3) {
            fired.push((i + 1, a));
        }
    }
    assert_eq!(fired.len(), 1);
    assert_eq!(fired[0].0, 16);
    assert_eq!(fired[0].1.category, AlertCategory::PortScan);
    assert_eq!(fired[0].1.severity, Severity::High);
    assert_eq!(fired[0].1.message, "Horizontal port scan from 10.0.0.1 on port 22: 16 hosts");
}

#[test]
fn any_packet_with_ports_is_a_probe() {
    let mut e = AlertEngine::new();
    let mut fired = Vec::new();
    for i in 0..30u16 {
        let mut p = packet(Some(L4Protocol::Tcp), Some(v4(10, 0, 0, 2)), Some(v4(10, 0, 0, 1)), Some(443), Some(50000 + i));
        p.flags = TcpFlags { syn: false, ack: true, fin: false, rst: false, psh: true, urg: false };
        for a in e.inspect_at(&p, 0) {
            fired.push((i + 1, a));
        }
    }
    assert_eq!(fired.len(), 1);
    assert_eq!(fired[0].0, 21);
    assert_eq!(fired[0].1.category, AlertCategory::PortScan);
    assert_eq!(fired[0].1.message, "Vertical port scan from 10.0.0.2 to 10.0.0.1: 21 ports");
    let mut udp = Vec::new();
    for i in 0..20u8 {
        let p = packet(Some(L4Protocol::Udp), Some(v4(10, 0, 0, 3)), Some(v4(172, 16, 0, 1 + i)), Some(5000), Some(161));
        for a in e.inspect_at(&p, 0) {
            udp.push((i + 1, a));
        }
    }
    assert_eq!(udp.len(), 1);
    assert_eq!(udp[0].0, 16);
    assert_eq!(udp[0].1.severity, Severity::High);
    assert_eq!(udp[0].1.message, "Horizontal port scan from 10.0.0.3 on port 161: 16 hosts");
    for i in 0..40u8 {
        let p = packet(Some(L4Protocol::Icmp), Some(v4(10, 0, 0, 4)), Some(v4(172, 16, 1, i)), None, None);
        assert!(e.inspect_at(&p, 0).is_empty());
    }
}

#[test]
fn reset_forgets_probes() {
    let mut e = AlertEngine::new();
    for i in 0..20u16 {
        let mut p = packet(Some(L4Protocol::Tcp), Some(v4(10, 0, 0, 1)), Some(v4(10, 0, 0, 2)), Some(40000), Some(1000 + i));
        p.flags = syn();
        assert!(e.inspect_at(&p, 0).is_empty());
    }
    e.reset();
    let mut p = packet(Some(L4Protocol::Tcp), Some(v4(10, 0, 0, 1)), Some(v4(10, 0, 0, 2)), Some(40000), Some(2000));
    p.flags = syn();
    assert!(e.inspect_at(&p, 0).is_empty());
}

#[test]
fn ttl_and_port_alerts_numbered_in_order() {
    let mut e = AlertEngine::new();
    let mut p = packet(Some(L4Protocol::Tcp), Some(v4(1, 2, 3, 4)), Some(v4(5, 6, 7, 8)), Some(1), Some(4444));
    p.ttl = Some(1);
    let alerts = e.inspect_at(&p, 9);
    assert_eq!(alerts.len(), 2);
    assert_eq!(alerts[0].message, "TTL=1");
    assert_eq!(alerts[0].severity, Severity::Low);
    assert_eq!(alerts[0].id, 1);
    assert_eq!(alerts[1].message, "Suspicious port 4444");
    assert_eq!(alerts[1].id, 2);
    let mut q = packet(Some(L4Protocol::Icmp), None, None, None, None);
    q.ttl = Some(0);
    assert!(e.inspect_at(&q, 9).is_empty());
    let mut r = packet(Some(L4Protocol::Udp), None, None, None, None);
    r.ttl = None;
    assert!(e.inspect_at(&r, 9).is_empty());
}

// ---- flow tracking ----

#[test]
fn reply_counts_into_same_flow() {
    let mut t = FlowTracker::new();
    let out = packet(Some(L4Protocol::Udp), Some(v4(10, 0, 0, 9)), Some(v4(10, 0, 0, 1)), Some(5353), Some(53));
    let back = packet(Some(L4Protocol::Udp), Some(v4(10, 0, 0, 1)), Some(v4(10, 0, 0, 9)), Some(53), Some(5353));
    t.update_at(&out, 1_000_000);
    let r = t.update_at(&back, 2_000_000).unwrap();
    assert_eq!(t.active_count(), 1);
    assert_eq!(r.key.src_ip, v4(10, 0, 0, 1));
    assert_eq!(r.packets_fwd, 1);
    assert_eq!(r.packets_rev, 1);
    assert_eq!(r.bytes_fwd + r.bytes_rev, 200);
    assert_eq!(r.first_seen, 1_000_000);
    assert_eq!(r.last_seen, 2_000_000);
}

#[test]
fn eviction_uses_protocol_timeouts() {
    let mut t = FlowTracker::new();
    let udp = packet(Some(L4Protocol::Udp), Some(v4(1, 0, 0, 1)), Some(v4(1, 0, 0, 2)), Some(1), Some(2));
    let icmp = packet(Some(L4Protocol::Icmp), Some(v4(1, 0, 0, 3)), Some(v4(1, 0, 0, 4)), None, None);
    let mut tcp = packet(Some(L4Protocol::Tcp), Some(v4(1, 0, 0, 5)), Some(v4(1, 0, 0, 6)), Some(3), Some(4));
    tcp.flags = TcpFlags { syn: false, ack: true, fin: false, rst: false, psh: false, urg: false };
    t.update_at(&udp, 0);
    t.update_at(&icmp, 0);
    t.update_at(&tcp, 0);
    t.evict_stale_at(9_999_999);
    assert_eq!(t.active_count(), 3);
    t.evict_stale_at(10_000_000);
    assert_eq!(t.active_count(), 2);
    t.evict_stale_at(30_000_000);
    assert_eq!(t.active_count(), 1);
    t.evict_stale_at(299_999_999);
    assert_eq!(t.active_count(), 1);
    t.evict_stale_at(300_000_000);
    assert_eq!(t.active_count(), 0);
}

#[test]
fn flow_state_follows_flags() {
    let mut t = FlowTracker::new();
    let mut p = packet(Some(L4Protocol::Tcp), Some(v4(1, 0, 0, 1)), Some(v4(1, 0, 0, 2)), Some(1), Some(2));
    p.flags = syn();
    assert_eq!(t.update_at(&p, 0).unwrap().state, FlowState::New);
    p.flags = TcpFlags { syn: false, ack: true, fin: false, rst: false, psh: false, urg: false };
    assert_eq!(t.update_at(&p, 0).unwrap().state, FlowState::Established);
    p.flags = TcpFlags { syn: false, ack: true, fin: true, rst: false, psh: false, urg: false };
    assert_eq!(t.update_at(&p, 0).unwrap().state, FlowState::Closing);
}

// ---- statistics ----

#[test]
fn stats_count_and_rank_talkers() {
    let mut s = StatsEngine::new();
    let a = packet(Some(L4Protocol::Tcp), Some(v4(1, 1, 1, 1)), Some(v4(2, 2, 2, 2)), Some(1), Some(80));
    let mut b = packet(Some(L4Protocol::Udp), Some(v4(3, 3, 3, 3)), Some(v4(2, 2, 2, 2)), Some(1), Some(53));
    b.len = 500;
    s.record(&a);
    s.record(&b);
    let snap = s.snapshot_at(42);
    assert_eq!(snap.total_packets, 2);
    assert_eq!(snap.total_bytes, 600);
    assert_eq!(snap.captured_at, Some(42));
    let top = s.top_talkers(2);
    assert_eq!(top, vec![(v4(2, 2, 2, 2), 600), (v4(3, 3, 3, 3), 500)]);
}

// ---- decoding and the session ----

fn tcp_frame(flags: u8, payload: &[u8]) -> Vec<u8> {
    let mut f = vec![0u8; 0];
    f.extend_from_slice(&[0, 1, 2, 3, 4, 5, 6, 7, 8, 9, 10, 11, 0x08, 0x00]);
    let total = (20 + 20 + payload.len()) as u16;
    f.extend_from_slice(&[0x45, 0, (total >> 8) as u8, total as u8, 0, 0, 0x40, 0, 64, 6, 0, 0, 192, 168, 0, 1, 192, 168, 0, 2]);
    f.extend_from_slice(&[0x30, 0x39, 0x01, 0xbb, 0, 0, 0, 1, 0, 0, 0, 0, 0x50, flags, 0xff, 0xff, 0, 0, 0, 0]);
    f.extend_from_slice(payload);
    f
}

#[test]
fn decode_tcp_frame() {
    let raw = RawPacket { timestamp: 5, interface: "eth0".to_string(), data: tcp_frame(0x02, b"hi") };
    let p = EtherparseDecoder.decode(&raw).unwrap();
    assert_eq!(p.l3, L3Protocol::IPv4);
    assert_eq!(p.l4, Some(L4Protocol::Tcp));
    assert_eq!(p.src_ip, Some(v4(192, 168, 0, 1)));
    assert_eq!(p.dst_ip, Some(v4(192, 168, 0, 2)));
    assert_eq!(p.src_port, Some(12345));
    assert_eq!(p.dst_port, Some(443));
    assert_eq!(p.app, AppProtocol::Https);
    assert_eq!(p.ttl, Some(64));
    assert!(p.flags.is_syn_only());
    assert_eq!(p.payload_len, 2);
    assert_eq!(p.len, 56);
    assert_eq!(p.timestamp, 5);
}

#[test]
fn decode_rejects_truncated_frame() {
    let raw = RawPacket { timestamp: 0, interface: "eth0".to_string(), data: vec![1, 2, 3] };
    assert!(matches!(EtherparseDecoder.decode(&raw), Err(ArwahError::Dissection(_))));
}

#[test]
fn session_steps() {
    let mut s = CaptureSession::new();
    let good = RawPacket { timestamp: 5, interface: "eth0".to_string(), data: tcp_frame(0x02, b"") };
    match s.step_at(CaptureEvent::Packet(good), 1_000) {
        SessionAction::Publish(p, alerts) => {
            assert_eq!(p.dst_port, Some(443));
            assert!(alerts.is_empty());
        },
        _ => panic!("expected a published packet"),
    }
    assert_eq!(s.active_flows().len(), 1);
    assert_eq!(s.snapshot_at(0).total_packets, 1);
    let bad = RawPacket { timestamp: 5, interface: "eth0".to_string(), data: vec![0] };
    assert!(matches!(s.step_at(CaptureEvent::Packet(bad), 1_000), SessionAction::Skip));
    assert_eq!(s.snapshot_at(0).total_packets, 1);
    assert!(matches!(s.step_at(CaptureEvent::EvictionDue, 1_000 + 60_000_000), SessionAction::Continue));
    assert_eq!(s.active_flows().len(), 0);
    assert!(matches!(s.step_at(CaptureEvent::Exhausted, 0), SessionAction::Stop));
    assert!(matches!(s.step_at(CaptureEvent::Failed, 0), SessionAction::Stop));
}

// ---- EVE output ----

#[test]
fn eve_names() {
    assert_eq!(proto_str(L4Protocol::IcmpV6), "IPv6-ICMP");
    assert_eq!(proto_str(L4Protocol::Other(99)), "unknown");
    assert_eq!(severity_num(Severity::Critical), 1);
    assert_eq!(severity_num(Severity::Info), 5);
    assert_eq!(category_str(AlertCategory::SynFlood), "SynFlood");
    assert_eq!(category_str(AlertCategory::PortScan), "PortScan");
    assert_eq!(flow_state_str(FlowState::Established), "established");
}

#[test]
fn eve_alert_event() {
    let mut e = AlertEngine::new();
    let mut p = packet(Some(L4Protocol::Tcp), Some(v4(1, 2, 3, 4)), Some(v4(5, 6, 7, 8)), Some(1), Some(31337));
    p.ttl = Some(64);
    let a = e.inspect_at(&p, 1_500_000).remove(0);
    let w = EveWriter::new("/tmp/eve.json");
    assert_eq!(w.path(), "/tmp/eve.json");
    let ev = w.alert_event(&a).unwrap();
    assert_eq!(ev.timestamp, "1970-01-01T00:00:01.500Z");
    assert_eq!(ev.event_type, "alert");
    assert_eq!(ev.alert.signature, "Suspicious port 31337");
    assert_eq!(ev.alert.category, "SuspiciousPort");
    assert_eq!(ev.proto, Some("TCP"));
    assert_eq!(ev.alert.severity, 3);
    assert_eq!(ev.alert.signature_id, 1);
    assert_eq!(ev.dest_port, Some(31337));
}

#[test]
fn eve_syn_flood_event() {
    let mut e = AlertEngine::new();
    let mut p = packet(Some(L4Protocol::Tcp), Some(v4(10, 0, 0, 1)), Some(v4(192, 168, 1, 1)), Some(54321), Some(22));
    p.flags = syn();
    let mut raised = Vec::new();
    for _ in 0..201 {
        raised.extend(e.inspect_at(&p, 0));
    }
    assert_eq!(raised.len(), 1);
    let ev = EveWriter::new("eve.json").alert_event(&raised[0]).unwrap();
    assert_eq!(ev.event_type, "alert");
    assert_eq!(ev.src_ip, Some(v4(10, 0, 0, 1)));
    assert_eq!(ev.src_port, Some(54321));
    assert_eq!(ev.dest_ip, Some(v4(192, 168, 1, 1)));
    assert_eq!(ev.dest_port, Some(22));
    assert_eq!(ev.proto, Some("TCP"));
    assert_eq!(ev.alert.action, "allowed");
    assert_eq!(ev.alert.signature, "SYN flood from 10.0.0.1: 201 SYNs");
    assert_eq!(ev.alert.category, "SynFlood");
    assert_eq!(ev.alert.severity, 2);
}

#[test]
fn eve_flow_event() {
    let f = FlowRecord {
        key: FlowKey { src_ip: v4(1, 1, 1, 1), dst_ip: v4(2, 2, 2, 2), src_port: 1, dst_port: 2, protocol: L4Protocol::Udp },
        app_protocol: AppProtocol::Dns,
        state: FlowState::New,
        first_seen: 0,
        last_seen: 86_400_000_000,
        packets_fwd: 3,
        packets_rev: 4,
        bytes_fwd: 5,
        bytes_rev: 6,
    };
    let ev = EveWriter::new("x").flow_event(&f).unwrap();
    assert_eq!(ev.timestamp, "1970-01-02T00:00:00.000Z");
    assert_eq!(ev.flow.start, "1970-01-01T00:00:00.000Z");
    assert_eq!(ev.proto, "UDP");
    assert_eq!(ev.flow.state, "new");
    assert_eq!(ev.flow.pkts_toclient, 4);
    let mut far = f;
    far.last_seen = i64::MAX;
    assert!(EveWriter::new("x").flow_event(&far).is_none());
}

// ---- rotating capture files ----

#[test]
fn rotation_names_and_limits() {
    let mut w = RotatingPcapWriter::new("traffic", 1, 60);
    assert_eq!(w.next_file_name(), "traffic_000.pcap");
    assert_eq!(w.plan_write(10, 0).unwrap(), "traffic_000.pcap");
    w.file_opened();
    assert!(w.plan_write(10, 0).is_none());
    w.packet_written(1_048_570);
    assert!(!w.should_rotate(6, 59));
    assert!(w.should_rotate(7, 0));
    assert!(w.should_rotate(0, 60));
    assert_eq!(w.plan_write(7, 0).unwrap(), "traffic_001.pcap");
    for _ in 0..11 {
        w.file_opened();
    }
    assert_eq!(w.next_file_name(), "traffic_012.pcap");
    let unlimited = RotatingPcapWriter::new("c", 0, 0);
    assert!(!unlimited.should_rotate(u64::MAX, u64::MAX));
}

// ---- command line ----

#[test]
fn cli_defaults_to_watch() {
    let cli = Cli { command: None, interface: Some("eth1".to_string()), bpf: None, verbose: 0, output: OutputFormat::Table };
    let (cmd, iface, bpf) = cli.run();
    assert!(matches!(cmd, Command::Watch { interval_ms: 500 }));
    assert_eq!(iface, Some("eth1".to_string()));
    assert_eq!(bpf, None);
    let cli = Cli { command: Some(Command::Interfaces), interface: None, bpf: Some("tcp".to_string()), verbose: 2, output: OutputFormat::Json };
    let (cmd, _, bpf) = cli.run();
    assert!(matches!(cmd, Command::Interfaces));
    assert_eq!(bpf, Some("tcp".to_string()));
}

#[test]
fn interface_choice_skips_loopback() {
    let devs = vec![("lo".to_string(), true), ("eth0".to_string(), false), ("wlan0".to_string(), false)];
    assert_eq!(choose_interface(None, &devs), Some("eth0".to_string()));
    assert_eq!(choose_interface(Some("any".to_string()), &devs), Some("any".to_string()));
    assert_eq!(choose_interface(None, &vec![("lo".to_string(), true)]), None);
    let bsd = vec![("lo0".to_string(), true), ("en0".to_string(), false)];
    assert_eq!(choose_interface(None, &bsd), Some("en0".to_string()));
}

fn flow(bytes: u64, packets: u64, dur_ms: i64) -> FlowRecord {
    FlowRecord {
        key: FlowKey { src_ip: v4(1, 1, 1, 1), dst_ip: v4(2, 2, 2, 2), src_port: bytes as u16, dst_port: 2, protocol: L4Protocol::Tcp },
        app_protocol: AppProtocol::Unknown,
        state: FlowState::Established,
        first_seen: 0,
        last_seen: dur_ms * 1000,
        packets_fwd: packets,
        packets_rev: 0,
        bytes_fwd: bytes,
        bytes_rev: 0,
    }
}

#[test]
fn flows_ranked_largest_first() {
    let flows = vec![flow(10, 5, 1), flow(30, 1, 2), flow(20, 9, 3)];
    let by_bytes: Vec<u64> = rank_flows(&flows, FlowSort::Bytes, 30).iter().map(|f| f.bytes_fwd).collect();
    assert_eq!(by_bytes, vec![30, 20, 10]);
    let by_packets: Vec<u64> = rank_flows(&flows, FlowSort::Packets, 2).iter().map(|f| f.packets_fwd).collect();
    assert_eq!(by_packets, vec![9, 5]);
    let by_time: Vec<u64> = rank_flows(&flows, FlowSort::Duration, 1).iter().map(|f| f.bytes_fwd).collect();
    assert_eq!(by_time, vec![20]);
}

// ---- printed lines ----

#[test]
fn printed_lines() {
    let mut p = packet(Some(L4Protocol::Tcp), Some(v4(10, 0, 0, 1)), None, Some(80), None);
    p.len = 60;
    assert_eq!(capture_line_with("12:00:00.000", &p), "[12:00:00.000] eth0 \"Tcp\" 10.0.0.1:80 → :0 (60 bytes)");
    assert_eq!(read_line_with("12:00:00.000000", &p), "12:00:00.000000 Some(Tcp) 10.0.0.1:80 → ?:0 60 bytes");
    p.l4 = Some(L4Protocol::Other(47));
    assert_eq!(read_line_with("t", &p), "t Some(Other(47)) 10.0.0.1:80 → ?:0 60 bytes");
    assert_eq!(read_summary_line(3), "\n3 packets");
    assert_eq!(stats_line_of(1, 2, 3), "packets: 1  bytes: 2  flows: 3");
    assert!(capture_done(2, 2));
    assert!(!capture_done(0, 1000));
    assert!(!stats_done(0, u64::MAX));
    assert!(!stats_done(3, 2_999_999));
    assert!(stats_done(3, 3_000_000));
    assert_eq!(rule_line(3), "---");
    assert_eq!(interface_row_of("eth0", "Ethernet"), format!("{:<20} {}", "eth0", "Ethernet"));
    assert_eq!(flow_header_line(), format!("{:<45} {:<45} {:>10} {:>10}", "SRC", "DST", "BYTES", "PKTS"));
    let f = flow(1234, 5, 0);
    assert_eq!(flow_row_of(&f), format!("{:<45} {:<45} {:>10} {:>10}", "1.1.1.1:1234", "2.2.2.2:2", 1234, 5));
}

// ---- dashboard keys ----

#[test]
fn dashboard_keys() {
    let mut s = AppState::new(250);
    s.handle_event(AppEvent::Key(KeyPress::Plain('2')));
    assert_eq!(s.view, View::Flows);
    s.handle_event(AppEvent::Tick);
    s.handle_event(AppEvent::Key(KeyPress::Plain('x')));
    assert_eq!(s.view, View::Flows);
    assert!(!s.should_quit);
    s.handle_event(AppEvent::Key(KeyPress::Control('c')));
    assert!(s.should_quit);
    assert_eq!(s.tick_ms, 250);
}

// ---- display filter ----

#[test]
fn display_filter_addresses_and_precedence() {
    let f = DisplayFilter::parse("ip.src == 10.0.0.1 and not udp or dns").unwrap();
    let mut p = packet(Some(L4Protocol::Tcp), Some(v4(10, 0, 0, 1)), None, None, None);
    assert!(f.matches(&p));
    p.l4 = Some(L4Protocol::Udp);
    assert!(!f.matches(&p));
    p.app = AppProtocol::Dns;
    assert!(f.matches(&p));
    assert_eq!(f.expression(), "ip.src == 10.0.0.1 and not udp or dns");
    match DisplayFilter::parse("port == 99999") {
        Err(ArwahError::FilterSyntax { pos, msg }) => {
            assert_eq!(pos, 7);
            assert_eq!(msg, "invalid port: 99999");
        },
        _ => panic!("expected a syntax error"),
    }
    assert!(DisplayFilter::parse("bogus").is_err());
}

#[test]
fn top_level_split_finds_first_outside_parentheses() {
    let needle: Vec<char> = " or ".chars().collect();
    let a: Vec<char> = "(a or b) or c".chars().collect();
    assert_eq!(top_level_split(&a, 0, a.len(), &needle), Some(8));
    let b: Vec<char> = "a or ".chars().collect();
    assert_eq!(top_level_split(&b, 0, b.len(), &needle), Some(1));
    let c: Vec<char> = "(a or b)".chars().collect();
    assert_eq!(top_level_split(&c, 0, c.len(), &needle), None);
}
