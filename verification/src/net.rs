//! IP addresses and networks, held as plain integers.

use vstd::prelude::*;

verus! {

/// An IPv4 or IPv6 address; the integer is the address in network byte
/// order read as a big-endian number, as `u32::from(Ipv4Addr)` and
/// `u128::from(Ipv6Addr)` give it.
#[derive(Debug, Clone, Copy, PartialEq, Eq, Hash, Structural)]
pub enum IpAddress {
    V4(u32),
    V6(u128),
}

/// The order of `core::net::IpAddr`: every IPv4 address before every IPv6
/// address, then by numeric value.
pub open spec fn ip_le(a: IpAddress, b: IpAddress) -> bool {
    match (a, b) {
        (IpAddress::V4(x), IpAddress::V4(y)) => x <= y,
        (IpAddress::V6(x), IpAddress::V6(y)) => x <= y,
        (IpAddress::V4(_), IpAddress::V6(_)) => true,
        (IpAddress::V6(_), IpAddress::V4(_)) => false,
    }
}

/// Lexicographic order on (address, port) pairs, as tuples order in std.
pub open spec fn endpoint_le(a: (IpAddress, u16), b: (IpAddress, u16)) -> bool {
    if a.0 == b.0 {
        a.1 <= b.1
    } else {
        ip_le(a.0, b.0)
    }
}

pub fn ip_lt_or_eq(a: IpAddress, b: IpAddress) -> (r: bool)
    ensures
        r == ip_le(a, b),
{
    match (a, b) {
        (IpAddress::V4(x), IpAddress::V4(y)) => x <= y,
        (IpAddress::V6(x), IpAddress::V6(y)) => x <= y,
        (IpAddress::V4(_), IpAddress::V6(_)) => true,
        (IpAddress::V6(_), IpAddress::V4(_)) => false,
    }
}

pub fn ip_eq(a: IpAddress, b: IpAddress) -> (r: bool)
    ensures
        r == (a == b),
{
    match (a, b) {
        (IpAddress::V4(x), IpAddress::V4(y)) => x == y,
        (IpAddress::V6(x), IpAddress::V6(y)) => x == y,
        _ => false,
    }
}

pub fn opt_ip_eq(a: Option<IpAddress>, b: Option<IpAddress>) -> (r: bool)
    ensures
        r == (a == b),
{
    match (a, b) {
        (Some(x), Some(y)) => ip_eq(x, y),
        (None, None) => true,
        _ => false,
    }
}

/// The address that the text `s` denotes, as `core::net::IpAddr::from_str`
/// reads it, or `None` where it rejects the text.
pub uninterp spec fn ip_from_text(s: Seq<char>) -> Option<IpAddress>;

/// The text that `Display` for `core::net::IpAddr` writes for an address.
pub uninterp spec fn ip_text(ip: IpAddress) -> Seq<char>;

impl IpAddress {
    /// Parses an IPv4 or IPv6 address (`core::net::IpAddr::from_str`). The
    /// contract names the result; it does not restate the address grammar.
    #[verifier::external_body]
    pub(crate) fn parse(s: &str) -> (r: Option<IpAddress>)
        ensures
            r == ip_from_text(s@),
    {
        match s.parse::<core::net::IpAddr>() {
            Ok(core::net::IpAddr::V4(a)) => Some(IpAddress::V4(u32::from(a))),
            Ok(core::net::IpAddr::V6(a)) => Some(IpAddress::V6(u128::from(a))),
            Err(_) => None,
        }
    }

    /// Appends the text of the address as `Display` for `core::net::IpAddr`
    /// writes it (dotted quad, or RFC 5952 IPv6 text).
    #[verifier::external_body]
    pub(crate) fn push_text(&self, out: &mut String)
        ensures
            final(out)@ == old(out)@ + ip_text(*self),
    {
        let ip = match *self {
            IpAddress::V4(a) => core::net::IpAddr::V4(core::net::Ipv4Addr::from(a)),
            IpAddress::V6(a) => core::net::IpAddr::V6(core::net::Ipv6Addr::from(a)),
        };
        out.push_str(&ip.to_string());
    }
}

/// An IP network: an address and a prefix length, as `ipnet::IpNet` holds
/// them (the address keeps its host bits).
#[derive(Debug, Clone, Copy, PartialEq, Eq, Structural)]
pub struct IpNetwork {
    pub addr: IpAddress,
    pub prefix_len: u8,
}

/// The network that `s` denotes, as `ipnet::IpNet::from_str` reads it.
pub uninterp spec fn ipnet_from_text(s: Seq<char>) -> Option<IpNetwork>;

/// The prefix length fits the address family.
pub open spec fn network_wf(n: IpNetwork) -> bool {
    match n.addr {
        IpAddress::V4(_) => n.prefix_len <= 32,
        IpAddress::V6(_) => n.prefix_len <= 128,
    }
}

pub open spec fn v4_netmask(p: u8) -> u32 {
    if p == 0 {
        0
    } else {
        0xffff_ffffu32 << ((32 - p) as u32)
    }
}

pub open spec fn v6_netmask(p: u8) -> u128 {
    if p == 0 {
        0
    } else {
        0xffff_ffff_ffff_ffff_ffff_ffff_ffff_ffffu128 << ((128 - p) as u128)
    }
}

/// `ipnet`'s `contains` for an address: same family, and the address lies
/// between the network address and the broadcast address.
pub open spec fn network_contains(n: IpNetwork, ip: IpAddress) -> bool {
    match (n.addr, ip) {
        (IpAddress::V4(a), IpAddress::V4(x)) => {
            let m = v4_netmask(n.prefix_len);
            (a & m) <= x && x <= (a | !m)
        },
        (IpAddress::V6(a), IpAddress::V6(x)) => {
            let m = v6_netmask(n.prefix_len);
            (a & m) <= x && x <= (a | !m)
        },
        _ => false,
    }
}

impl IpNetwork {
    /// Parses a network in CIDR notation (`ipnet::IpNet::from_str`).
    #[verifier::external_body]
    pub(crate) fn parse(s: &str) -> (r: Option<IpNetwork>)
        ensures
            r == ipnet_from_text(s@),
            r matches Some(n) ==> network_wf(n),
    {
        match s.parse::<ipnet::IpNet>() {
            Ok(n) => Some(IpNetwork {
                addr: match n.addr() {
                    core::net::IpAddr::V4(a) => IpAddress::V4(u32::from(a)),
                    core::net::IpAddr::V6(a) => IpAddress::V6(u128::from(a)),
                },
                prefix_len: n.prefix_len(),
            }),
            Err(_) => None,
        }
    }

    /// Whether `ip` lies in this network (`ipnet::IpNet::contains`).
    pub fn contains(&self, ip: IpAddress) -> (r: bool)
        requires
            network_wf(*self),
        ensures
            r == network_contains(*self, ip),
    {
        match (self.addr, ip) {
            (IpAddress::V4(a), IpAddress::V4(x)) => {
                let m: u32 = if self.prefix_len == 0 {
                    0
                } else {
                    0xffff_ffffu32 << ((32 - self.prefix_len) as u32)
                };
                (a & m) <= x && x <= (a | !m)
            },
            (IpAddress::V6(a), IpAddress::V6(x)) => {
                let m: u128 = if self.prefix_len == 0 {
                    0
                } else {
                    0xffff_ffff_ffff_ffff_ffff_ffff_ffff_ffffu128 << ((128 - self.prefix_len) as u128)
                };
                (a & m) <= x && x <= (a | !m)
            },
            _ => false,
        }
    }
}

/// An IPv4 network holds exactly the IPv4 addresses whose first
/// `prefix_len` bits are the network's (every IPv4 address for a prefix of
/// 0), and no IPv6 address.
pub proof fn law_v4_network_prefix(a: u32, p: u8, x: u32)
    requires
        p <= 32,
    ensures
        network_contains(IpNetwork { addr: IpAddress::V4(a), prefix_len: p }, IpAddress::V4(x)) <==> (p == 0 || (x >> ((32 - p) as u32)) == (a >> ((32 - p) as u32))),
        forall|y: u128| !#[trigger] network_contains(IpNetwork { addr: IpAddress::V4(a), prefix_len: p }, IpAddress::V6(y)),
{
    if p == 0 {
        let m = v4_netmask(p);
        assert(m == 0);
        assert((a & 0u32) <= x && x <= (a | !0u32)) by (bit_vector);
    } else {
        let sh = (32 - p) as u32;
        assert(sh < 32);
        let m = v4_netmask(p);
        assert(m == 0xffff_ffffu32 << sh);
        assert(((a & m) <= x && x <= (a | !m)) <==> ((x >> sh) == (a >> sh))) by (bit_vector)
            requires
                sh < 32,
                m == 0xffff_ffffu32 << sh,
        ;
    }
}

} // verus!
