//! Ethernet frame decoding on top of `etherparse`.

use vstd::prelude::*;
use crate::error::ArwahError;
use crate::net::IpAddress;
use crate::packet::{ParsedPacket, RawPacket, TcpFlags, no_flags};
use crate::protocol::{AppProtocol, L3Protocol, L4Protocol, app_for_port};

verus! {

#[verifier::external_type_specification]
#[verifier::external_body]
pub struct ExNetSlice<'a>(etherparse::NetSlice<'a>);

#[verifier::external_type_specification]
#[verifier::external_body]
pub struct ExTransportSlice<'a>(etherparse::TransportSlice<'a>);

#[verifier::external_type_specification]
#[verifier::external_body]
pub struct ExTcpSlice<'a>(etherparse::TcpSlice<'a>);

/// What the decoder reads of the network layer.
#[derive(Debug, Clone, Copy, PartialEq, Eq, Structural)]
pub enum NetHeader {
    /// IPv4: source, destination, time to live.
    V4 { src: u32, dst: u32, ttl: u8 },
    /// IPv6: source and destination.
    V6 { src: u128, dst: u128 },
    /// No IP layer (absent, or ARP).
    Other,
}

/// What the decoder reads of the transport layer.
#[derive(Debug, Clone, Copy, PartialEq, Eq, Structural)]
pub enum TransportHeader {
    Tcp { src_port: u16, dst_port: u16, flags: TcpFlags, payload_len: usize },
    Udp { src_port: u16, dst_port: u16, payload_len: usize },
    Icmpv4 { payload_len: usize },
    Icmpv6 { payload_len: usize },
    /// No transport layer that the decoder reads.
    Other,
}

/// The headers of one Ethernet frame.
#[derive(Debug, Clone, Copy, PartialEq, Eq, Structural)]
pub struct FrameHeaders {
    pub net: NetHeader,
    pub transport: TransportHeader,
}

/// What `etherparse::SlicedPacket::from_ethernet` makes of a frame: its
/// headers, or the text of its slicing error.
pub uninterp spec fn ethernet_frame(data: Seq<u8>) -> Result<FrameHeaders, Seq<char>>;

pub open spec fn sliced(h: FrameHeaders) -> Result<FrameHeaders, Seq<char>> {
    Ok(h)
}

pub open spec fn slice_failed(e: Seq<char>) -> Result<FrameHeaders, Seq<char>> {
    Err(e)
}

/// Slices an Ethernet II frame (`etherparse::SlicedPacket::from_ethernet`)
/// and reads its IP and transport headers; on failure gives the error's
/// text. The contract names the outcome; it does not restate the header
/// formats.
#[verifier::external_body]
fn slice_ethernet(data: &[u8]) -> (r: Result<FrameHeaders, String>)
    ensures
        r matches Ok(h) ==> ethernet_frame(data@) == sliced(h),
        r matches Err(e) ==> ethernet_frame(data@) == slice_failed(e@),
{
    match etherparse::SlicedPacket::from_ethernet(data) {
        Ok(p) => Ok(FrameHeaders { net: net_header(&p.net), transport: transport_header(&p.transport) }),
        Err(e) => Err(e.to_string()),
    }
}

/// Copies the IPv4 / IPv6 header fields out of `etherparse`'s net slice.
#[verifier::external_body]
fn net_header(net: &Option<etherparse::NetSlice>) -> NetHeader {
    match net {
        Some(etherparse::NetSlice::Ipv4(ip)) => NetHeader::V4 {
            src: u32::from_be_bytes(ip.header().source()),
            dst: u32::from_be_bytes(ip.header().destination()),
            ttl: ip.header().ttl(),
        },
        Some(etherparse::NetSlice::Ipv6(ip)) => NetHeader::V6 {
            src: u128::from_be_bytes(ip.header().source()),
            dst: u128::from_be_bytes(ip.header().destination()),
        },
        _ => NetHeader::Other,
    }
}

/// Copies the TCP fields out of `etherparse`'s TCP slice.
#[verifier::external_body]
fn tcp_header(s: &etherparse::TcpSlice) -> TransportHeader {
    TransportHeader::Tcp {
        src_port: s.source_port(),
        dst_port: s.destination_port(),
        flags: TcpFlags { syn: s.syn(), ack: s.ack(), fin: s.fin(), rst: s.rst(), psh: s.psh(), urg: s.urg() },
        payload_len: s.payload().len(),
    }
}

/// Copies the TCP / UDP / ICMP fields out of `etherparse`'s transport slice.
#[verifier::external_body]
fn transport_header(t: &Option<etherparse::TransportSlice>) -> TransportHeader {
    match t {
        Some(etherparse::TransportSlice::Tcp(s)) => tcp_header(s),
        Some(etherparse::TransportSlice::Udp(s)) => TransportHeader::Udp {
            src_port: s.source_port(),
            dst_port: s.destination_port(),
            payload_len: s.payload().len(),
        },
        Some(etherparse::TransportSlice::Icmpv4(s)) => TransportHeader::Icmpv4 { payload_len: s.payload().len() },
        Some(etherparse::TransportSlice::Icmpv6(s)) => TransportHeader::Icmpv6 { payload_len: s.payload().len() },
        _ => TransportHeader::Other,
    }
}

/// The length of a frame as recorded in a packet: the byte count kept to its
/// low 32 bits (`as u32`).
pub open spec fn wire_len(n: nat) -> u32 {
    n as u32
}

fn frame_len(data: &Vec<u8>) -> (r: u32)
    ensures
        r == wire_len(data@.len()),
{
    data.len() as u32
}

/// The packet that a raw frame with the given headers decodes to.
pub open spec fn assembled(raw: RawPacket, h: FrameHeaders) -> ParsedPacket {
    let (l3, src_ip, dst_ip, ttl) = match h.net {
        NetHeader::V4 { src, dst, ttl } => (
            L3Protocol::IPv4,
            Some(IpAddress::V4(src)),
            Some(IpAddress::V4(dst)),
            Some(ttl),
        ),
        NetHeader::V6 { src, dst } => (
            L3Protocol::IPv6,
            Some(IpAddress::V6(src)),
            Some(IpAddress::V6(dst)),
            None,
        ),
        NetHeader::Other => (L3Protocol::Other(0), None, None, None),
    };
    let (l4, src_port, dst_port, flags, payload_len) = match h.transport {
        TransportHeader::Tcp { src_port, dst_port, flags, payload_len } => (
            Some(L4Protocol::Tcp),
            Some(src_port),
            Some(dst_port),
            flags,
            payload_len,
        ),
        TransportHeader::Udp { src_port, dst_port, payload_len } => (
            Some(L4Protocol::Udp),
            Some(src_port),
            Some(dst_port),
            no_flags(),
            payload_len,
        ),
        TransportHeader::Icmpv4 { payload_len } => (Some(L4Protocol::Icmp), None, None, no_flags(), payload_len),
        TransportHeader::Icmpv6 { payload_len } => (Some(L4Protocol::IcmpV6), None, None, no_flags(), payload_len),
        TransportHeader::Other => (None, None, None, no_flags(), 0usize),
    };
    ParsedPacket {
        timestamp: raw.timestamp,
        interface: raw.interface,
        len: wire_len(raw.data@.len()),
        l3,
        l4,
        app: match dst_port {
            Some(p) => app_for_port(p),
            None => AppProtocol::Unknown,
        },
        src_ip,
        dst_ip,
        src_port,
        dst_port,
        ttl,
        flags,
        payload_len,
    }
}

/// Stateless packet decoder backed by the `etherparse` library.
#[derive(Debug)]
pub struct EtherparseDecoder;

impl EtherparseDecoder {
    /// Decodes a raw frame: `Dissection` with `etherparse`'s error text when
    /// the frame cannot be sliced, else the packet that its headers give.
    pub fn decode(&self, raw: &RawPacket) -> (r: Result<ParsedPacket, ArwahError>)
        ensures
            match ethernet_frame(raw.data@) {
                Ok(h) => r matches Ok(p) && p == assembled(*raw, h),
                Err(e) => r matches Err(ArwahError::Dissection(m)) && m@ == e,
            },
    {
        match slice_ethernet(raw.data.as_slice()) {
            Ok(h) => Ok(Self::assemble(raw, &h)),
            Err(e) => Err(ArwahError::Dissection(e)),
        }
    }

    /// Builds the decoded packet from a raw frame and its headers.
    pub fn assemble(raw: &RawPacket, h: &FrameHeaders) -> (r: ParsedPacket)
        ensures
            r == assembled(*raw, *h),
    {
        let (l3, src_ip, dst_ip, ttl) = match h.net {
            NetHeader::V4 { src, dst, ttl } => (
                L3Protocol::IPv4,
                Some(IpAddress::V4(src)),
                Some(IpAddress::V4(dst)),
                Some(ttl),
            ),
            NetHeader::V6 { src, dst } => (
                L3Protocol::IPv6,
                Some(IpAddress::V6(src)),
                Some(IpAddress::V6(dst)),
                None,
            ),
            NetHeader::Other => (L3Protocol::Other(0), None, None, None),
        };
        let (l4, src_port, dst_port, flags, payload_len) = match h.transport {
            TransportHeader::Tcp { src_port, dst_port, flags, payload_len } => (
                Some(L4Protocol::Tcp),
                Some(src_port),
                Some(dst_port),
                flags,
                payload_len,
            ),
            TransportHeader::Udp { src_port, dst_port, payload_len } => (
                Some(L4Protocol::Udp),
                Some(src_port),
                Some(dst_port),
                TcpFlags::default(),
                payload_len,
            ),
            TransportHeader::Icmpv4 { payload_len } => (
                Some(L4Protocol::Icmp),
                None,
                None,
                TcpFlags::default(),
                payload_len,
            ),
            TransportHeader::Icmpv6 { payload_len } => (
                Some(L4Protocol::IcmpV6),
                None,
                None,
                TcpFlags::default(),
                payload_len,
            ),
            TransportHeader::Other => (None, None, None, TcpFlags::default(), 0usize),
        };
        let app = match dst_port {
            Some(p) => AppProtocol::from_port(p),
            None => AppProtocol::Unknown,
        };
        ParsedPacket {
            timestamp: raw.timestamp,
            interface: raw.interface.clone(),
            len: frame_len(&raw.data),
            l3,
            l4,
            app,
            src_ip,
            dst_ip,
            src_port,
            dst_port,
            ttl,
            flags,
            payload_len,
        }
    }
}

} // verus!
