use vstd::prelude::*;

verus! {

/// Layer-3 network protocol.
#[derive(Debug, Clone, Copy, PartialEq, Eq, Hash, Structural)]
#[non_exhaustive]
pub enum L3Protocol {
    IPv4,
    IPv6,
    Arp,
    Other(u16),
}

/// Layer-4 transport protocol.
#[derive(Debug, Clone, Copy, PartialEq, Eq, Hash, Structural)]
#[non_exhaustive]
pub enum L4Protocol {
    Tcp,
    Udp,
    Icmp,
    IcmpV6,
    Sctp,
    Other(u8),
}

/// Well-known application-layer protocol inferred from port or payload.
#[derive(Debug, Clone, Copy, PartialEq, Eq, Hash, Structural)]
#[non_exhaustive]
pub enum AppProtocol {
    Http,
    Https,
    Dns,
    Dhcp,
    Ssh,
    Ftp,
    Smtp,
    Imap,
    Pop3,
    Rdp,
    Smb,
    Ntp,
    Mdns,
    Quic,
    Unknown,
}

/// The application protocol conventionally served on `port`.
pub open spec fn app_for_port(port: u16) -> AppProtocol {
    if port == 80 || port == 8080 {
        AppProtocol::Http
    } else if port == 443 || port == 8443 {
        AppProtocol::Https
    } else if port == 53 {
        AppProtocol::Dns
    } else if port == 67 || port == 68 {
        AppProtocol::Dhcp
    } else if port == 22 {
        AppProtocol::Ssh
    } else if port == 20 || port == 21 {
        AppProtocol::Ftp
    } else if port == 25 || port == 587 || port == 465 {
        AppProtocol::Smtp
    } else if port == 143 || port == 993 {
        AppProtocol::Imap
    } else if port == 110 || port == 995 {
        AppProtocol::Pop3
    } else if port == 3389 {
        AppProtocol::Rdp
    } else if port == 445 || port == 139 {
        AppProtocol::Smb
    } else if port == 123 {
        AppProtocol::Ntp
    } else if port == 5353 {
        AppProtocol::Mdns
    } else {
        AppProtocol::Unknown
    }
}

impl AppProtocol {
    /// Infer application protocol from destination port (best-effort).
    pub fn from_port(port: u16) -> (r: Self)
        ensures
            r == app_for_port(port),
    {
        match port {
            80 | 8080 => AppProtocol::Http,
            443 | 8443 => AppProtocol::Https,
            53 => AppProtocol::Dns,
            67 | 68 => AppProtocol::Dhcp,
            22 => AppProtocol::Ssh,
            20 | 21 => AppProtocol::Ftp,
            25 | 587 | 465 => AppProtocol::Smtp,
            143 | 993 => AppProtocol::Imap,
            110 | 995 => AppProtocol::Pop3,
            3389 => AppProtocol::Rdp,
            445 | 139 => AppProtocol::Smb,
            123 => AppProtocol::Ntp,
            5353 => AppProtocol::Mdns,
            _ => AppProtocol::Unknown,
        }
    }
}

} // verus!
