use arwah::alert::AlertEngine;
use arwah::filter::{AcceptAll, PacketFilter};
use arwah::flow::{FlowKey, FlowRecord, FlowState};
use arwah::net::IpAddress;
use arwah::packet::{ParsedPacket, TcpFlags};
use arwah::protocol::{AppProtocol, L3Protocol, L4Protocol};
use arwah::report::{capture_line_of, read_line_of};
use arwah::rules::{parse_rules, SuricataRuleSet};
use arwah::stats::StatsEngine;

fn v4(a: u8, b: u8, c: u8, d: u8) -> IpAddress {
    IpAddress::V4(u32::from_be_bytes([a, b, c, d]))
}

fn packet(ts: i64) -> ParsedPacket {
    ParsedPacket {
        timestamp: ts,
        interface: "en0".to_string(),
        len: 42,
        l3: L3Protocol::IPv6,
        l4: Some(L4Protocol::Udp),
        app: AppProtocol::Dns,
        src_ip: Some(IpAddress::V6(1)),
        dst_ip: Some(v4(9, 9, 9, 9)),
        src_port: Some(5353),
        dst_port: Some(53),
        ttl: None,
        flags: TcpFlags::default(),
        payload_len: 0,
    }
}

#[test]
fn stamped_lines() {
    let p = packet(3_723_004_005);
    assert_eq!(capture_line_of(&p).unwrap(), "[01:02:03.004] en0 \"Udp\" ::1:5353 → 9.9.9.9:53 (42 bytes)");
    assert_eq!(read_line_of(&p).unwrap(), "01:02:03.004005 Some(Udp) ::1:5353 → 9.9.9.9:53 42 bytes");
    assert!(capture_line_of(&packet(i64::MIN)).is_none());
}

#[test]
fn clock_stamped_alerts() {
    let mut e = AlertEngine::new();
    let mut p = packet(0);
    p.dst_port = Some(6667);
    let alerts = e.inspect(&p);
    assert_eq!(alerts.len(), 1);
    assert!(alerts[0].timestamp > 1_600_000_000_000_000);
    let set = SuricataRuleSet::new(parse_rules("alert udp any any -> any 53 (msg:\"dns\"; sid:5;)"));
    let a = set.check(&packet(0)).unwrap();
    assert!(a.timestamp > 1_600_000_000_000_000);
    assert_eq!(a.message, "[sid:5] dns");
}

#[test]
fn content_is_utf8() {
    let rules = parse_rules("alert tcp any any -> any any (content:\"caf\u{e9}\"; msg:  \"x\"  ;)");
    assert_eq!(rules[0].content, Some(vec![b'c', b'a', b'f', 0xc3, 0xa9]));
    assert_eq!(rules[0].msg, "x");
}

#[test]
fn flow_totals() {
    let f = FlowRecord {
        key: FlowKey { src_ip: v4(1, 1, 1, 1), dst_ip: v4(2, 2, 2, 2), src_port: 1, dst_port: 2, protocol: L4Protocol::Tcp },
        app_protocol: AppProtocol::Unknown,
        state: FlowState::Closed,
        first_seen: 5_000,
        last_seen: 2_500,
        packets_fwd: 2,
        packets_rev: 3,
        bytes_fwd: 10,
        bytes_rev: 20,
    };
    assert_eq!(f.total_packets(), 5);
    assert_eq!(f.total_bytes(), 30);
    assert_eq!(f.duration_ms(), -2);
}

#[test]
fn canonical_keys() {
    let k = FlowKey { src_ip: v4(10, 0, 0, 2), dst_ip: v4(10, 0, 0, 1), src_port: 80, dst_port: 5000, protocol: L4Protocol::Tcp };
    let c = k.canonical();
    assert_eq!(c.src_ip, v4(10, 0, 0, 1));
    assert_eq!(c.src_port, 5000);
    assert_eq!(c.canonical(), c);
    let same = FlowKey { src_ip: v4(1, 1, 1, 1), dst_ip: v4(1, 1, 1, 1), src_port: 9, dst_port: 3, protocol: L4Protocol::Udp };
    assert_eq!(same.canonical().src_port, 3);
    let mixed = FlowKey { src_ip: IpAddress::V6(0), dst_ip: v4(255, 255, 255, 255), src_port: 1, dst_port: 1, protocol: L4Protocol::Tcp };
    assert_eq!(mixed.canonical().src_ip, v4(255, 255, 255, 255));
}

#[test]
fn ports_and_flags() {
    assert_eq!(AppProtocol::from_port(8080), AppProtocol::Http);
    assert_eq!(AppProtocol::from_port(443), AppProtocol::Https);
    assert_eq!(AppProtocol::from_port(53), AppProtocol::Dns);
    assert_eq!(AppProtocol::from_port(1), AppProtocol::Unknown);
    let synack = TcpFlags { syn: true, ack: true, fin: false, rst: false, psh: false, urg: false };
    assert!(!synack.is_syn_only());
    assert!(!synack.is_connection_start());
    assert!(AcceptAll.matches(&packet(0)));
}

#[test]
fn byte_distributions() {
    let mut s = StatsEngine::new();
    s.record(&packet(0));
    s.record(&packet(0));
    assert_eq!(s.proto_byte_dist(), vec![(L4Protocol::Udp, 84)]);
    assert_eq!(s.app_byte_dist(), vec![(AppProtocol::Dns, 84)]);
    assert_eq!(s.snapshot_at(0).proto_dist, vec![(L4Protocol::Udp, 2)]);
}

#[test]
fn app_counts_add_up_to_totals() {
    let mut s = StatsEngine::new();
    let mut a = packet(0);
    a.app = AppProtocol::Http;
    a.len = 10;
    let mut b = packet(0);
    b.app = AppProtocol::Ssh;
    b.len = 7;
    s.record(&a);
    s.record(&b);
    s.record(&a);
    let snap = s.snapshot_at(0);
    let pkts: u64 = snap.app_dist.iter().map(|(_, n)| *n).sum();
    let bytes: u64 = s.app_byte_dist().iter().map(|(_, n)| *n).sum();
    assert_eq!(pkts, snap.total_packets);
    assert_eq!(bytes, snap.total_bytes);
    assert_eq!(bytes, 27);
}

fn stream_key() -> FlowKey {
    FlowKey { src_ip: v4(10, 0, 0, 1), dst_ip: v4(10, 0, 0, 2), src_port: 1, dst_port: 2, protocol: L4Protocol::Tcp }
}

#[test]
fn stream_delivery_is_complete_and_once() {
    let mut t = arwah::stream::StreamTable::new();
    let k = stream_key();
    t.feed(&k, true, 9, 0x02, vec![]);
    let (a, _) = t.feed(&k, true, 10, 0x18, b"abc".to_vec());
    assert_eq!(a, b"abc");
    let (a, b) = t.feed(&k, true, 13, 0x10, vec![]);
    assert!(a.is_empty());
    assert!(b.is_empty());
}

#[test]
fn stream_delivers_longest_contiguous_run() {
    let mut t = arwah::stream::StreamTable::new();
    let k = stream_key();
    t.feed(&k, true, 9, 0x02, vec![]);
    let (a, _) = t.feed(&k, true, 14, 0x18, b"ef".to_vec());
    assert!(a.is_empty());
    let (a, _) = t.feed(&k, true, 20, 0x18, b"zz".to_vec());
    assert!(a.is_empty());
    let (a, _) = t.feed(&k, true, 12, 0x18, b"cd".to_vec());
    assert!(a.is_empty());
    let (a, _) = t.feed(&k, true, 10, 0x18, b"abXY".to_vec());
    assert_eq!(a, b"abXYef");
    let (a, _) = t.feed(&k, true, 16, 0x18, b"ghij".to_vec());
    assert_eq!(a, b"ghijzz");
}

#[test]
fn half_stream_drain_hands_out_longest_run_once() {
    let mut h = arwah::stream::HalfStream::new();
    h.push(4, b"ef".to_vec());
    h.push(2, b"cd".to_vec());
    h.push(9, b"zz".to_vec());
    h.push(0, b"abXY".to_vec());
    assert_eq!(h.drain(), b"abXYef");
    assert!(h.drain().is_empty());
    h.push(6, b"ghi".to_vec());
    assert_eq!(h.drain(), b"ghizz");
    assert!(h.drain().is_empty());
}

#[test]
fn stream_intake_limit() {
    let mut t = arwah::stream::StreamTable::new();
    let k = stream_key();
    t.feed(&k, true, 0, 0x02, vec![]);
    let (a, _) = t.feed(&k, true, 1, 0x18, vec![7u8; 1_048_577]);
    assert!(a.is_empty());
    let (a, _) = t.feed(&k, true, 1, 0x18, vec![7u8; 1_048_576]);
    assert_eq!(a.len(), 1_048_576);
    let (a, _) = t.feed(&k, true, 1_048_577, 0x18, vec![8u8]);
    assert!(a.is_empty());
}

#[test]
fn eviction_twice_is_eviction_once() {
    let mut t = arwah::flow_tracker::FlowTracker::new();
    let mut p = packet(0);
    p.l4 = Some(L4Protocol::Sctp);
    t.update_at(&p, 0);
    t.evict_stale_at(119_999_999);
    assert_eq!(t.active_count(), 1);
    t.evict_stale_at(119_999_999);
    assert_eq!(t.active_count(), 1);
    t.evict_stale_at(120_000_000);
    assert_eq!(t.active_count(), 0);
}

#[test]
fn reset_restarts_flood_counting() {
    let mut e = AlertEngine::new();
    let mut p = packet(0);
    p.l4 = Some(L4Protocol::Icmp);
    p.src_ip = Some(v4(4, 4, 4, 4));
    p.dst_port = None;
    let mut fired = 0;
    for _ in 0..500 {
        fired += e.inspect_at(&p, 0).len();
    }
    assert_eq!(fired, 0);
    e.reset();
    for _ in 0..500 {
        fired += e.inspect_at(&p, 0).len();
    }
    assert_eq!(fired, 0);
    let a = e.inspect_at(&p, 0);
    assert_eq!(a.len(), 1);
    assert_eq!(a[0].id, 1);
}
