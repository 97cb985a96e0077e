//! Deep packet inspection: payload-based protocol fingerprinting, tried
//! detector by detector until one recognises the payload.

use vstd::prelude::*;
use crate::packet::ParsedPacket;

verus! {

/// How sure a detector is of its match.
#[derive(Debug, Clone, Copy, PartialEq, Eq, Structural)]
pub enum Confidence {
    High,
    Medium,
}

/// Deep packet inspection result.
#[derive(Debug, Clone, PartialEq, Eq)]
pub enum DpiResult {
    Matched { protocol: &'static str, confidence: Confidence },
    Unknown,
}

/// One payload detector.
#[derive(Debug, Clone, Copy, PartialEq, Eq, Structural)]
pub enum Detector {
    Http,
    Tls,
    Dns,
    Ssh,
    Quic,
    WireGuard,
}

/// `p` is a prefix of `payload`.
pub open spec fn starts_with(payload: Seq<u8>, p: Seq<u8>) -> bool {
    p.len() <= payload.len() && payload.subrange(0, p.len() as int) == p
}

/// The protocol name and confidence a detector reports, if it matches.
pub open spec fn probe_spec(d: Detector, payload: Seq<u8>, pkt: ParsedPacket) -> Option<(Seq<char>, Confidence)> {
    match d {
        Detector::Http => if starts_with(payload, seq![71u8, 69, 84, 32]) || starts_with(
            payload,
            seq![80u8, 79, 83, 84, 32],
        ) || starts_with(payload, seq![72u8, 69, 65, 68, 32]) || starts_with(
            payload,
            seq![80u8, 85, 84, 32],
        ) || starts_with(payload, seq![72u8, 84, 84, 80, 47]) {
            Some(("HTTP"@, Confidence::High))
        } else {
            None
        },
        Detector::Ssh => if starts_with(payload, seq![83u8, 83, 72, 45]) {
            Some(("SSH"@, Confidence::High))
        } else {
            None
        },
        Detector::Tls => if payload.len() >= 3 && payload[0] == 0x16 && payload[1] == 0x03 {
            Some(("TLS"@, Confidence::High))
        } else {
            None
        },
        Detector::Dns => if payload.len() >= 12 && (pkt.src_port == Some(53u16) || pkt.dst_port
            == Some(53u16)) {
            Some(("DNS"@, Confidence::Medium))
        } else {
            None
        },
        Detector::Quic => if payload.len() >= 5 && (payload[0] & 0xc0) == 0xc0 && ({
            let ver = quic_version(payload[1], payload[2], payload[3], payload[4]);
            ver == 1 || (ver >> 8u32) == 0xff0000
        }) {
            Some(("QUIC"@, Confidence::High))
        } else {
            None
        },
        Detector::WireGuard => if payload.len() >= 4 && payload[0] == 1 && payload[1] == 0
            && payload[2] == 0 && payload[3] == 0 && (pkt.dst_port == Some(51820u16)
            || pkt.src_port == Some(51820u16)) {
            Some(("WireGuard"@, Confidence::Medium))
        } else {
            None
        },
    }
}

/// The big-endian 32-bit number in four bytes.
pub open spec fn quic_version(a: u8, b: u8, c: u8, d: u8) -> u32 {
    ((a as u32) << 24u32) | ((b as u32) << 16u32) | ((c as u32) << 8u32) | (d as u32)
}

/// The first detector in `ds` that matches decides; none matching gives
/// `Unknown`.
pub open spec fn classify(ds: Seq<Detector>, payload: Seq<u8>, pkt: ParsedPacket) -> Option<(Seq<char>, Confidence)>
    decreases ds.len(),
{
    if ds.len() == 0 {
        None
    } else {
        match probe_spec(ds[0], payload, pkt) {
            Some(r) => Some(r),
            None => classify(ds.drop_first(), payload, pkt),
        }
    }
}

/// `r` reports `c`.
pub open spec fn reports(r: DpiResult, c: Option<(Seq<char>, Confidence)>) -> bool {
    match c {
        Some((name, conf)) => r matches DpiResult::Matched { protocol, confidence } && protocol@
            == name && confidence == conf,
        None => r == DpiResult::Unknown,
    }
}

/// The detectors of the default engine, in the order they are tried.
pub open spec fn default_detectors() -> Seq<Detector> {
    seq![Detector::Http, Detector::Tls, Detector::Dns, Detector::Ssh, Detector::Quic, Detector::WireGuard]
}

fn starts_with_bytes(payload: &[u8], p: &[u8]) -> (r: bool)
    ensures
        r == starts_with(payload@, p@),
{
    if p.len() > payload.len() {
        return false;
    }
    let mut i: usize = 0;
    while i < p.len()
        invariant
            p@.len() <= payload@.len(),
            i <= p@.len(),
            forall|k: int| 0 <= k < i ==> payload@[k] == p@[k],
        decreases p@.len() - i,
    {
        if payload[i] != p[i] {
            assert(payload@.subrange(0, p@.len() as int)[i as int] != p@[i as int]);
            return false;
        }
        i = i + 1;
    }
    assert(payload@.subrange(0, p@.len() as int) == p@);
    true
}

fn port_is(p: Option<u16>, v: u16) -> (r: bool)
    ensures
        r == (p == Some(v)),
{
    match p {
        Some(x) => x == v,
        None => false,
    }
}

impl Detector {
    pub fn probe(self, payload: &[u8], pkt: &ParsedPacket) -> (r: Option<DpiResult>)
        ensures
            match probe_spec(self, payload@, *pkt) {
                Some(c) => r matches Some(x) && reports(x, Some(c)),
                None => r is None,
            },
    {
        match self {
            Detector::Http => {
                let get: [u8; 4] = [71, 69, 84, 32];
                let post: [u8; 5] = [80, 79, 83, 84, 32];
                let head: [u8; 5] = [72, 69, 65, 68, 32];
                let put: [u8; 4] = [80, 85, 84, 32];
                let http: [u8; 5] = [72, 84, 84, 80, 47];
                assert(get@ == seq![71u8, 69, 84, 32]);
                assert(post@ == seq![80u8, 79, 83, 84, 32]);
                assert(head@ == seq![72u8, 69, 65, 68, 32]);
                assert(put@ == seq![80u8, 85, 84, 32]);
                assert(http@ == seq![72u8, 84, 84, 80, 47]);
                if starts_with_bytes(payload, &get) || starts_with_bytes(payload, &post)
                    || starts_with_bytes(payload, &head) || starts_with_bytes(payload, &put)
                    || starts_with_bytes(payload, &http) {
                    Some(DpiResult::Matched { protocol: "HTTP", confidence: Confidence::High })
                } else {
                    None
                }
            },
            Detector::Ssh => {
                let ssh: [u8; 4] = [83, 83, 72, 45];
                assert(ssh@ == seq![83u8, 83, 72, 45]);
                if starts_with_bytes(payload, &ssh) {
                    Some(DpiResult::Matched { protocol: "SSH", confidence: Confidence::High })
                } else {
                    None
                }
            },
            Detector::Tls => {
                if payload.len() >= 3 && payload[0] == 0x16 && payload[1] == 0x03 {
                    Some(DpiResult::Matched { protocol: "TLS", confidence: Confidence::High })
                } else {
                    None
                }
            },
            Detector::Dns => {
                if payload.len() >= 12 && (port_is(pkt.src_port, 53) || port_is(pkt.dst_port, 53)) {
                    Some(DpiResult::Matched { protocol: "DNS", confidence: Confidence::Medium })
                } else {
                    None
                }
            },
            Detector::Quic => {
                if payload.len() >= 5 && (payload[0] & 0xc0) == 0xc0 {
                    let ver: u32 = ((payload[1] as u32) << 24u32) | ((payload[2] as u32) << 16u32)
                        | ((payload[3] as u32) << 8u32) | (payload[4] as u32);
                    if ver == 1 || (ver >> 8u32) == 0xff0000 {
                        return Some(DpiResult::Matched { protocol: "QUIC", confidence: Confidence::High });
                    }
                }
                None
            },
            Detector::WireGuard => {
                if payload.len() >= 4 && payload[0] == 1 && payload[1] == 0 && payload[2] == 0
                    && payload[3] == 0 && (port_is(pkt.dst_port, 51820) || port_is(pkt.src_port, 51820)) {
                    Some(DpiResult::Matched { protocol: "WireGuard", confidence: Confidence::Medium })
                } else {
                    None
                }
            },
        }
    }
}

/// Payload classifier: a chain of detectors tried in order.
pub struct DpiEngine {
    pub detectors: Vec<Detector>,
}

impl DpiEngine {
    /// The engine with every detector, HTTP first.
    pub fn default_set() -> (r: Self)
        ensures
            r.detectors@ == default_detectors(),
    {
        let mut detectors = Vec::new();
        detectors.push(Detector::Http);
        detectors.push(Detector::Tls);
        detectors.push(Detector::Dns);
        detectors.push(Detector::Ssh);
        detectors.push(Detector::Quic);
        detectors.push(Detector::WireGuard);
        DpiEngine { detectors }
    }

    /// The verdict of the first detector that recognises the payload.
    pub fn inspect(&self, payload: &[u8], pkt: &ParsedPacket) -> (r: DpiResult)
        ensures
            reports(r, classify(self.detectors@, payload@, *pkt)),
    {
        let mut i: usize = 0;
        assert(self.detectors@.subrange(0, self.detectors@.len() as int) == self.detectors@);
        while i < self.detectors.len()
            invariant
                i <= self.detectors@.len(),
                classify(self.detectors@, payload@, *pkt) == classify(
                    self.detectors@.subrange(i as int, self.detectors@.len() as int),
                    payload@,
                    *pkt,
                ),
            decreases self.detectors@.len() - i,
        {
            let ghost rest = self.detectors@.subrange(i as int, self.detectors@.len() as int);
            assert(rest.drop_first() == self.detectors@.subrange(i + 1, self.detectors@.len() as int));
            if let Some(r) = self.detectors[i].probe(payload, pkt) {
                return r;
            }
            i = i + 1;
        }
        DpiResult::Unknown
    }
}

impl Default for DpiEngine {
    fn default() -> (r: Self)
        ensures
            r.detectors@ == default_detectors(),
    {
        Self::default_set()
    }
}

/// The payload begins with the four bytes `a b c d`.
pub open spec fn lead4(payload: Seq<u8>, a: u8, b: u8, c: u8, d: u8) -> bool {
    payload.len() >= 4 && payload[0] == a && payload[1] == b && payload[2] == c && payload[3] == d
}

/// The payload begins with the five bytes `a b c d e`.
pub open spec fn lead5(payload: Seq<u8>, a: u8, b: u8, c: u8, d: u8, e: u8) -> bool {
    payload.len() >= 5 && payload[0] == a && payload[1] == b && payload[2] == c && payload[3] == d && payload[4] == e
}

proof fn lemma_starts4(payload: Seq<u8>, a: u8, b: u8, c: u8, d: u8)
    ensures
        starts_with(payload, seq![a, b, c, d]) == lead4(payload, a, b, c, d),
{
    let p = seq![a, b, c, d];
    if lead4(payload, a, b, c, d) {
        assert(payload.subrange(0, 4) =~= p);
    }
    if starts_with(payload, p) {
        assert(payload.subrange(0, 4)[0] == payload[0]);
        assert(payload.subrange(0, 4)[1] == payload[1]);
        assert(payload.subrange(0, 4)[2] == payload[2]);
        assert(payload.subrange(0, 4)[3] == payload[3]);
    }
}

proof fn lemma_starts5(payload: Seq<u8>, a: u8, b: u8, c: u8, d: u8, e: u8)
    ensures
        starts_with(payload, seq![a, b, c, d, e]) == lead5(payload, a, b, c, d, e),
{
    let p = seq![a, b, c, d, e];
    if lead5(payload, a, b, c, d, e) {
        assert(payload.subrange(0, 5) =~= p);
    }
    if starts_with(payload, p) {
        assert(payload.subrange(0, 5)[0] == payload[0]);
        assert(payload.subrange(0, 5)[1] == payload[1]);
        assert(payload.subrange(0, 5)[2] == payload[2]);
        assert(payload.subrange(0, 5)[3] == payload[3]);
        assert(payload.subrange(0, 5)[4] == payload[4]);
    }
}

/// The HTTP signatures: "GET ", "POST ", "HEAD ", "PUT " or "HTTP/".
pub open spec fn http_lead(payload: Seq<u8>) -> bool {
    lead4(payload, 71, 69, 84, 32) || lead5(payload, 80, 79, 83, 84, 32) || lead5(payload, 72, 69, 65, 68, 32)
        || lead4(payload, 80, 85, 84, 32) || lead5(payload, 72, 84, 84, 80, 47)
}

/// The SSH signature: "SSH-".
pub open spec fn ssh_lead(payload: Seq<u8>) -> bool {
    lead4(payload, 83, 83, 72, 45)
}

/// What each detector recognises, byte by byte: HTTP a request or status
/// line start ("GET ", "POST ", "HEAD ", "PUT ", "HTTP/"); SSH "SSH-"; TLS
/// a handshake record (0x16 0x03, at least three bytes); DNS at least
/// twelve bytes to or from port 53; QUIC a long header (top two bits set)
/// with version 1 or a draft version 0xff0000xx; WireGuard a handshake
/// initiation (1 0 0 0) to or from port 51820.
pub proof fn law_detector_signatures(payload: Seq<u8>, pkt: ParsedPacket)
    ensures
        probe_spec(Detector::Http, payload, pkt) == (if http_lead(payload) { Some(("HTTP"@, Confidence::High)) } else { None }),
        probe_spec(Detector::Ssh, payload, pkt) == (if ssh_lead(payload) { Some(("SSH"@, Confidence::High)) } else { None }),
        probe_spec(Detector::Tls, payload, pkt) == (if payload.len() >= 3 && payload[0] == 0x16u8 && payload[1] == 0x03u8 {
            Some(("TLS"@, Confidence::High))
        } else {
            None
        }),
        probe_spec(Detector::Dns, payload, pkt) == (if payload.len() >= 12 && (pkt.src_port == Some(53u16) || pkt.dst_port == Some(53u16)) {
            Some(("DNS"@, Confidence::Medium))
        } else {
            None
        }),
        probe_spec(Detector::Quic, payload, pkt) == (if payload.len() >= 5 && payload[0] >= 0xc0u8 && (
            (payload[1] == 0u8 && payload[2] == 0u8 && payload[3] == 0u8 && payload[4] == 1u8)
            || (payload[1] == 0xffu8 && payload[2] == 0u8 && payload[3] == 0u8)) {
            Some(("QUIC"@, Confidence::High))
        } else {
            None
        }),
        probe_spec(Detector::WireGuard, payload, pkt) == (if lead4(payload, 1, 0, 0, 0) && (pkt.src_port == Some(51820u16) || pkt.dst_port == Some(51820u16)) {
            Some(("WireGuard"@, Confidence::Medium))
        } else {
            None
        }),
{
    lemma_starts4(payload, 71, 69, 84, 32);
    lemma_starts5(payload, 80, 79, 83, 84, 32);
    lemma_starts5(payload, 72, 69, 65, 68, 32);
    lemma_starts4(payload, 80, 85, 84, 32);
    lemma_starts5(payload, 72, 84, 84, 80, 47);
    lemma_starts4(payload, 83, 83, 72, 45);
    lemma_starts4(payload, 1, 0, 0, 0);
    if payload.len() >= 5 {
        let (a, b, c, d, e) = (payload[0], payload[1], payload[2], payload[3], payload[4]);
        assert(((a & 0xc0u8) == 0xc0u8) == (a >= 0xc0u8)) by (bit_vector);
        let v = quic_version(b, c, d, e);
        assert(v == 1u32 <==> (b == 0u8 && c == 0u8 && d == 0u8 && e == 1u8)) by (bit_vector)
            requires
                v == ((b as u32) << 24u32) | ((c as u32) << 16u32) | ((d as u32) << 8u32) | (e as u32),
        ;
        assert((v >> 8u32) == 0xff0000u32 <==> (b == 0xffu8 && c == 0u8 && d == 0u8)) by (bit_vector)
            requires
                v == ((b as u32) << 24u32) | ((c as u32) << 16u32) | ((d as u32) << 8u32) | (e as u32),
        ;
    }
}

/// The default engine: an HTTP signature is HTTP; a TLS handshake record
/// is TLS; "SSH-" is SSH unless the packet is DNS-sized traffic on port 53;
/// otherwise twelve bytes or more on port 53 are DNS; a payload of fewer
/// than three bytes is unknown.
pub proof fn law_default_engine(payload: Seq<u8>, pkt: ParsedPacket)
    ensures
        http_lead(payload) ==> classify(default_detectors(), payload, pkt) == Some(("HTTP"@, Confidence::High)),
        payload.len() >= 3 && payload[0] == 0x16u8 && payload[1] == 0x03u8 ==> classify(default_detectors(), payload, pkt) == Some(("TLS"@, Confidence::High)),
        ssh_lead(payload) && !(payload.len() >= 12 && (pkt.src_port == Some(53u16) || pkt.dst_port == Some(53u16)))
            ==> classify(default_detectors(), payload, pkt) == Some(("SSH"@, Confidence::High)),
        !http_lead(payload) && !(payload.len() >= 3 && payload[0] == 0x16u8 && payload[1] == 0x03u8)
            && payload.len() >= 12 && (pkt.src_port == Some(53u16) || pkt.dst_port == Some(53u16))
            ==> classify(default_detectors(), payload, pkt) == Some(("DNS"@, Confidence::Medium)),
        payload.len() < 3 ==> classify(default_detectors(), payload, pkt) is None,
{
    law_detector_signatures(payload, pkt);
    let ds = default_detectors();
    assert(ds.drop_first() =~= seq![Detector::Tls, Detector::Dns, Detector::Ssh, Detector::Quic, Detector::WireGuard]);
    assert(ds.drop_first().drop_first() =~= seq![Detector::Dns, Detector::Ssh, Detector::Quic, Detector::WireGuard]);
    assert(ds.drop_first().drop_first().drop_first() =~= seq![Detector::Ssh, Detector::Quic, Detector::WireGuard]);
    assert(ds.drop_first().drop_first().drop_first().drop_first() =~= seq![Detector::Quic, Detector::WireGuard]);
    assert(ds.drop_first().drop_first().drop_first().drop_first().drop_first() =~= seq![Detector::WireGuard]);
    assert(ds.drop_first().drop_first().drop_first().drop_first().drop_first().drop_first() =~= Seq::<Detector>::empty());
    reveal_with_fuel(classify, 7);
}

} // verus!
