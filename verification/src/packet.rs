//! Captured and decoded packets.

use vstd::prelude::*;
use crate::net::IpAddress;
use crate::protocol::{AppProtocol, L3Protocol, L4Protocol};

verus! {

/// Raw captured packet with metadata.
pub struct RawPacket {
    /// Capture time, microseconds since the Unix epoch (UTC).
    pub timestamp: i64,
    /// Interface the packet was captured on.
    pub interface: String,
    /// Entire frame bytes (link-layer header included).
    pub data: Vec<u8>,
}

/// Parsed, protocol-decoded packet.
#[derive(Debug)]
pub struct ParsedPacket {
    /// Capture time, microseconds since the Unix epoch (UTC).
    pub timestamp: i64,
    pub interface: String,
    pub len: u32,
    pub l3: L3Protocol,
    pub l4: Option<L4Protocol>,
    pub app: AppProtocol,
    pub src_ip: Option<IpAddress>,
    pub dst_ip: Option<IpAddress>,
    pub src_port: Option<u16>,
    pub dst_port: Option<u16>,
    pub ttl: Option<u8>,
    pub flags: TcpFlags,
    pub payload_len: usize,
}

impl ParsedPacket {
    /// A field-for-field copy of the packet.
    pub fn duplicate(&self) -> (r: ParsedPacket)
        ensures
            r == *self,
    {
        ParsedPacket {
            timestamp: self.timestamp,
            interface: self.interface.clone(),
            len: self.len,
            l3: self.l3,
            l4: self.l4,
            app: self.app,
            src_ip: self.src_ip,
            dst_ip: self.dst_ip,
            src_port: self.src_port,
            dst_port: self.dst_port,
            ttl: self.ttl,
            flags: self.flags,
            payload_len: self.payload_len,
        }
    }
}

/// TCP control-bit flags extracted from the TCP header.
#[derive(Debug, Clone, Copy, PartialEq, Eq, Structural)]
pub struct TcpFlags {
    pub syn: bool,
    pub ack: bool,
    pub fin: bool,
    pub rst: bool,
    pub psh: bool,
    pub urg: bool,
}

/// No flag set.
pub open spec fn no_flags() -> TcpFlags {
    TcpFlags { syn: false, ack: false, fin: false, rst: false, psh: false, urg: false }
}

impl Default for TcpFlags {
    fn default() -> (r: Self)
        ensures
            r == no_flags(),
    {
        TcpFlags { syn: false, ack: false, fin: false, rst: false, psh: false, urg: false }
    }
}

impl TcpFlags {
    /// SYN set and none of ACK, FIN, RST.
    pub fn is_syn_only(self) -> (r: bool)
        ensures
            r == (self.syn && !self.ack && !self.fin && !self.rst),
    {
        self.syn && !self.ack && !self.fin && !self.rst
    }

    /// SYN set without ACK: the first segment of a handshake.
    pub fn is_connection_start(self) -> (r: bool)
        ensures
            r == (self.syn && !self.ack),
    {
        self.syn && !self.ack
    }
}

} // verus!
