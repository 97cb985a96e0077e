use arwah::blacklist::Blacklist;
use arwah::dpi::{DpiEngine, DpiResult};
use arwah::filter::{DisplayFilter, PacketFilter};
use arwah::net::IpAddress;
use arwah::packet::{ParsedPacket, TcpFlags};
use arwah::protocol::{AppProtocol, L3Protocol, L4Protocol};
use arwah::rules::{parse_rules, SuricataRuleSet};
use arwah::flow::FlowKey;
use arwah::stream::StreamTable;

fn v4(a: u8, b: u8, c: u8, d: u8) -> IpAddress {
    IpAddress::V4(u32::from_be_bytes([a, b, c, d]))
}

fn bl_from_str(s: &str) -> Blacklist {
    Blacklist::from_text(s)
}

#[test]
fn ip_hit() {
    let bl = bl_from_str("1.2.3.4\nexample.com");
    assert!(bl.contains_ip(v4(1, 2, 3, 4)));
    assert!(!bl.contains_ip(v4(5, 6, 7, 8)));
}

#[test]
fn cidr_hit() {
    let bl = bl_from_str("10.0.0.0/8");
    assert!(bl.contains_ip(v4(10, 1, 2, 3)));
    assert!(!bl.contains_ip(v4(192, 168, 1, 1)));
}

#[test]
fn domain_hit() {
    let bl = bl_from_str("Malware.Example.COM");
    assert!(bl.contains_domain("malware.example.com"));
    assert!(!bl.contains_domain("safe.example.com"));
}

fn bare_pkt() -> ParsedPacket {
    ParsedPacket {
        timestamp: 0,
        interface: "eth0".to_string(),
        len: 0,
        l3: L3Protocol::IPv4,
        l4: None,
        app: AppProtocol::Unknown,
        src_ip: None,
        dst_ip: None,
        src_port: None,
        dst_port: None,
        ttl: None,
        flags: TcpFlags::default(),
        payload_len: 0,
    }
}

#[test]
fn detects_http() {
    let r = DpiEngine::default_set().inspect(b"GET / HTTP/1.1\r\n", &bare_pkt());
    assert!(matches!(r, DpiResult::Matched { protocol: "HTTP", .. }));
}

#[test]
fn detects_tls() {
    let r = DpiEngine::default_set().inspect(&[0x16, 0x03, 0x03, 0, 0], &bare_pkt());
    assert!(matches!(r, DpiResult::Matched { protocol: "TLS", .. }));
}

#[test]
fn unknown_stays_unknown() {
    let r = DpiEngine::default_set().inspect(b"\x00\x00\x00", &bare_pkt());
    assert_eq!(r, DpiResult::Unknown);
}

fn make_packet(l4: Option<L4Protocol>, app: AppProtocol, dst_port: Option<u16>) -> ParsedPacket {
    ParsedPacket {
        timestamp: 0,
        interface: "eth0".to_string(),
        len: 60,
        l3: L3Protocol::IPv4,
        l4,
        app,
        src_ip: None,
        dst_ip: None,
        src_port: None,
        dst_port,
        ttl: None,
        flags: TcpFlags::default(),
        payload_len: 0,
    }
}

#[test]
fn filter_tcp_matches() {
    let f = DisplayFilter::parse("tcp").unwrap();
    let pkt = make_packet(Some(L4Protocol::Tcp), AppProtocol::Unknown, None);
    assert!(f.matches(&pkt));
}

#[test]
fn filter_tcp_rejects_udp() {
    let f = DisplayFilter::parse("tcp").unwrap();
    let pkt = make_packet(Some(L4Protocol::Udp), AppProtocol::Unknown, None);
    assert!(!f.matches(&pkt));
}

#[test]
fn filter_or_combines() {
    let f = DisplayFilter::parse("tcp or udp").unwrap();
    let tcp = make_packet(Some(L4Protocol::Tcp), AppProtocol::Unknown, None);
    let udp = make_packet(Some(L4Protocol::Udp), AppProtocol::Unknown, None);
    assert!(f.matches(&tcp));
    assert!(f.matches(&udp));
}

#[test]
fn filter_port_matches() {
    let f = DisplayFilter::parse("port == 443").unwrap();
    let pkt = make_packet(Some(L4Protocol::Tcp), AppProtocol::Https, Some(443));
    assert!(f.matches(&pkt));
}

#[test]
fn filter_not_negates() {
    let f = DisplayFilter::parse("not tcp").unwrap();
    let pkt = make_packet(Some(L4Protocol::Tcp), AppProtocol::Unknown, None);
    assert!(!f.matches(&pkt));
}

#[test]
fn invalid_ip_returns_error() {
    assert!(DisplayFilter::parse("ip.src == not-an-ip").is_err());
}

fn pkt(l4: Option<L4Protocol>, dst_port: Option<u16>) -> ParsedPacket {
    ParsedPacket {
        timestamp: 0,
        interface: "eth0".to_string(),
        len: 100,
        l3: L3Protocol::IPv4,
        l4,
        app: AppProtocol::Unknown,
        src_ip: None,
        dst_ip: None,
        src_port: None,
        dst_port,
        ttl: Some(64),
        flags: TcpFlags::default(),
        payload_len: 0,
    }
}

#[test]
fn empty_ruleset_matches_nothing() {
    let set = SuricataRuleSet::new(vec![]);
    assert!(set.check(&pkt(Some(L4Protocol::Tcp), Some(80))).is_none());
}

#[test]
fn load_rules_from_file() {
    let text = "alert tcp any any -> any 80 (msg:\"HTTP probe\"; sid:1001; rev:1;)\n";
    let rules = parse_rules(text);
    assert_eq!(rules.len(), 1);
    assert_eq!(rules[0].sid, 1001);
    let set = SuricataRuleSet::new(rules);
    assert!(set.check(&pkt(Some(L4Protocol::Tcp), Some(80))).is_some());
    assert!(set.check(&pkt(Some(L4Protocol::Udp), Some(80))).is_none());
}

fn key() -> FlowKey {
    FlowKey { src_ip: v4(10, 0, 0, 1), dst_ip: v4(10, 0, 0, 2), src_port: 1234, dst_port: 80, protocol: L4Protocol::Tcp }
}

#[test]
fn in_order() {
    let mut t = StreamTable::new();
    let k = key();
    t.feed(&k, true, 0, 0x02, vec![]);
    let (a, _) = t.feed(&k, true, 1, 0x18, b"Hello ".to_vec());
    assert_eq!(a, b"Hello ");
    let (b2, _) = t.feed(&k, true, 7, 0x18, b"World".to_vec());
    assert_eq!(b2, b"World");
}
