//! The lines that the headless commands print.

use vstd::prelude::*;
use vstd::string::StringExecFns;
use crate::clock::{TimeFormat, time_text, format_time, time_pattern, pattern_of};
use crate::flow::FlowRecord;
use crate::net::{IpAddress, ip_text};
use crate::packet::ParsedPacket;
use crate::protocol::L4Protocol;
use crate::text::{
    decimal, pad_left, pad_right, push_decimal_wide, push_padded_left, push_padded_right, push_str,
    push_char,
};

verus! {

/// The decimal text of a byte.
pub open spec fn byte_text(n: u8) -> Seq<char> {
    decimal(n as nat)
}

/// The name of a transport protocol as its `Debug` form writes it.
pub open spec fn l4_debug(p: L4Protocol) -> Seq<char> {
    match p {
        L4Protocol::Tcp => "Tcp"@,
        L4Protocol::Udp => "Udp"@,
        L4Protocol::Icmp => "Icmp"@,
        L4Protocol::IcmpV6 => "IcmpV6"@,
        L4Protocol::Sctp => "Sctp"@,
        L4Protocol::Other(n) => "Other("@ + byte_text(n) + ")"@,
    }
}

fn push_byte(out: &mut String, n: u8)
    ensures
        final(out)@ == old(out)@ + byte_text(n),
{
    push_decimal_wide(out, n as u128);
}

fn push_l4_debug(out: &mut String, p: L4Protocol)
    ensures
        final(out)@ == old(out)@ + l4_debug(p),
{
    match p {
        L4Protocol::Tcp => push_str(out, "Tcp"),
        L4Protocol::Udp => push_str(out, "Udp"),
        L4Protocol::Icmp => push_str(out, "Icmp"),
        L4Protocol::IcmpV6 => push_str(out, "IcmpV6"),
        L4Protocol::Sctp => push_str(out, "Sctp"),
        L4Protocol::Other(n) => {
            push_str(out, "Other(");
            push_byte(out, n);
            push_str(out, ")");
        },
    }
}

/// An address as `Display` writes it, or `none` for no address.
pub open spec fn addr_or(a: Option<IpAddress>, none: Seq<char>) -> Seq<char> {
    match a {
        Some(ip) => ip_text(ip),
        None => none,
    }
}

/// A port, or 0 for none.
pub open spec fn port_or_zero(p: Option<u16>) -> nat {
    match p {
        Some(x) => x as nat,
        None => 0,
    }
}

fn push_addr_or(out: &mut String, a: Option<IpAddress>, none: &str)
    ensures
        final(out)@ == old(out)@ + addr_or(a, none@),
{
    match a {
        Some(ip) => ip.push_text(out),
        None => push_str(out, none),
    }
}

fn push_port(out: &mut String, p: Option<u16>)
    ensures
        final(out)@ == old(out)@ + decimal(port_or_zero(p)),
{
    let v: u128 = match p {
        Some(x) => x as u128,
        None => 0,
    };
    push_decimal_wide(out, v);
}

/// The line printed for a captured packet, stamped with the time-of-day
/// text `t`: `[t] interface "Protocol" src:port → dst:port (n bytes)`.
pub open spec fn capture_line(t: Seq<char>, pkt: ParsedPacket) -> Seq<char> {
    let proto = match pkt.l4 {
        Some(p) => l4_debug(p),
        None => Seq::empty(),
    };
    "["@ + t + "] "@ + pkt.interface@ + " \""@ + proto + "\" "@ + addr_or(pkt.src_ip, Seq::empty()) + ":"@
        + decimal(port_or_zero(pkt.src_port)) + " → "@ + addr_or(pkt.dst_ip, Seq::empty()) + ":"@
        + decimal(port_or_zero(pkt.dst_port)) + " ("@ + decimal(pkt.len as nat) + " bytes)"@
}

/// The capture line of a packet, given its time-of-day text.
pub fn capture_line_with(t: &str, pkt: &ParsedPacket) -> (r: String)
    ensures
        r@ == capture_line(t@, *pkt),
{
    let mut r = String::from_str("[");
    push_str(&mut r, t);
    push_str(&mut r, "] ");
    push_str(&mut r, pkt.interface.as_str());
    push_str(&mut r, " \"");
    let ghost before = r@;
    match pkt.l4 {
        Some(p) => push_l4_debug(&mut r, p),
        None => {
            assert(before + Seq::<char>::empty() =~= before);
        },
    }
    let ghost proto = match pkt.l4 {
        Some(p) => l4_debug(p),
        None => Seq::<char>::empty(),
    };
    assert(r@ == before + proto);
    push_str(&mut r, "\" ");
    push_addr_or(&mut r, pkt.src_ip, "");
    push_str(&mut r, ":");
    push_port(&mut r, pkt.src_port);
    push_str(&mut r, " → ");
    push_addr_or(&mut r, pkt.dst_ip, "");
    push_str(&mut r, ":");
    push_port(&mut r, pkt.dst_port);
    push_str(&mut r, " (");
    push_decimal_wide(&mut r, pkt.len as u128);
    push_str(&mut r, " bytes)");
    proof {
        reveal_strlit("");
    }
    r
}

/// The capture line of a packet, stamped with its capture time to the
/// millisecond; `None` where that time cannot be written.
pub fn capture_line_of(pkt: &ParsedPacket) -> (r: Option<String>)
    ensures
        match time_text(pkt.timestamp, pattern_of(TimeFormat::ClockMillis)) {
            Some(t) => r matches Some(l) && l@ == capture_line(t, *pkt),
            None => r is None,
        },
{
    match format_time(pkt.timestamp, time_pattern(TimeFormat::ClockMillis)) {
        Some(t) => Some(capture_line_with(t.as_str(), pkt)),
        None => None,
    }
}

/// A capture of `count` packets (0: no limit) is done after `captured`.
pub fn capture_done(count: u64, captured: u64) -> (r: bool)
    ensures
        r == (count > 0 && captured >= count),
{
    count > 0 && captured >= count
}

/// A stats run of `duration` seconds (0: no limit) is done once
/// `elapsed` microseconds have passed since it started.
pub fn stats_done(duration: u64, elapsed: u64) -> (r: bool)
    ensures
        r == (duration > 0 && elapsed >= duration * 1_000_000),
{
    let whole = elapsed / 1_000_000;
    assert((whole >= duration) == (elapsed >= duration * 1_000_000)) by (nonlinear_arith)
        requires
            whole == elapsed / 1_000_000,
    ;
    duration > 0 && whole >= duration
}

/// `Debug` of an optional transport protocol.
pub open spec fn opt_l4_debug(p: Option<L4Protocol>) -> Seq<char> {
    match p {
        Some(x) => "Some("@ + l4_debug(x) + ")"@,
        None => "None"@,
    }
}

/// The line printed for a packet read from a file, stamped with the
/// time-of-day text `t`: `t Some(Protocol) src:port → dst:port n bytes`,
/// `?` standing for a missing address.
pub open spec fn read_line(t: Seq<char>, pkt: ParsedPacket) -> Seq<char> {
    t + " "@ + opt_l4_debug(pkt.l4) + " "@ + addr_or(pkt.src_ip, "?"@) + ":"@ + decimal(port_or_zero(pkt.src_port))
        + " → "@ + addr_or(pkt.dst_ip, "?"@) + ":"@ + decimal(port_or_zero(pkt.dst_port)) + " "@
        + decimal(pkt.len as nat) + " bytes"@
}

/// The read line of a packet, given its time-of-day text.
pub fn read_line_with(t: &str, pkt: &ParsedPacket) -> (r: String)
    ensures
        r@ == read_line(t@, *pkt),
{
    let mut r = String::from_str(t);
    push_str(&mut r, " ");
    match pkt.l4 {
        Some(p) => {
            push_str(&mut r, "Some(");
            push_l4_debug(&mut r, p);
            push_str(&mut r, ")");
        },
        None => push_str(&mut r, "None"),
    }
    push_str(&mut r, " ");
    push_addr_or(&mut r, pkt.src_ip, "?");
    push_str(&mut r, ":");
    push_port(&mut r, pkt.src_port);
    push_str(&mut r, " → ");
    push_addr_or(&mut r, pkt.dst_ip, "?");
    push_str(&mut r, ":");
    push_port(&mut r, pkt.dst_port);
    push_str(&mut r, " ");
    push_decimal_wide(&mut r, pkt.len as u128);
    push_str(&mut r, " bytes");
    r
}

/// The read line of a packet, stamped with its capture time to the
/// microsecond; `None` where that time cannot be written.
pub fn read_line_of(pkt: &ParsedPacket) -> (r: Option<String>)
    ensures
        match time_text(pkt.timestamp, pattern_of(TimeFormat::ClockMicros)) {
            Some(t) => r matches Some(l) && l@ == read_line(t, *pkt),
            None => r is None,
        },
{
    match format_time(pkt.timestamp, time_pattern(TimeFormat::ClockMicros)) {
        Some(t) => Some(read_line_with(t.as_str(), pkt)),
        None => None,
    }
}

/// The closing line of a file read: a blank line, then the packet count.
pub open spec fn read_summary(count: u64) -> Seq<char> {
    "\n"@ + decimal(count as nat) + " packets"@
}

pub fn read_summary_line(count: u64) -> (r: String)
    ensures
        r@ == read_summary(count),
{
    let mut r = String::from_str("\n");
    push_decimal_wide(&mut r, count as u128);
    push_str(&mut r, " packets");
    r
}

/// The periodic statistics line.
pub open spec fn stats_line(packets: u64, bytes: u64, flows: usize) -> Seq<char> {
    "packets: "@ + decimal(packets as nat) + "  bytes: "@ + decimal(bytes as nat) + "  flows: "@ + decimal(flows as nat)
}

pub fn stats_line_of(packets: u64, bytes: u64, flows: usize) -> (r: String)
    ensures
        r@ == stats_line(packets, bytes, flows),
{
    let mut r = String::from_str("packets: ");
    push_decimal_wide(&mut r, packets as u128);
    push_str(&mut r, "  bytes: ");
    push_decimal_wide(&mut r, bytes as u128);
    push_str(&mut r, "  flows: ");
    push_decimal_wide(&mut r, flows as u128);
    r
}

/// `address:port`.
pub open spec fn endpoint_text(ip: IpAddress, port: u16) -> Seq<char> {
    ip_text(ip) + ":"@ + decimal(port as nat)
}

/// A row of the flow table: source and destination endpoints in columns
/// of 45, bytes and packets right-aligned in columns of 10.
pub open spec fn flow_row(f: FlowRecord) -> Seq<char> {
    pad_right(endpoint_text(f.key.src_ip, f.key.src_port), 45) + " "@ + pad_right(endpoint_text(f.key.dst_ip, f.key.dst_port), 45)
        + " "@ + pad_left(decimal((f.bytes_fwd + f.bytes_rev) as nat), 10) + " "@ + pad_left(decimal((f.packets_fwd + f.packets_rev) as nat), 10)
}

fn endpoint_string(ip: IpAddress, port: u16) -> (r: String)
    ensures
        r@ == endpoint_text(ip, port),
{
    let mut r = String::new();
    ip.push_text(&mut r);
    push_str(&mut r, ":");
    push_decimal_wide(&mut r, port as u128);
    r
}

fn decimal_string(n: u128) -> (r: String)
    ensures
        r@ == decimal(n as nat),
{
    let mut r = String::new();
    push_decimal_wide(&mut r, n);
    r
}

pub fn flow_row_of(f: &FlowRecord) -> (r: String)
    ensures
        r@ == flow_row(*f),
{
    let mut r = String::new();
    let s = endpoint_string(f.key.src_ip, f.key.src_port);
    push_padded_right(&mut r, s.as_str(), 45);
    push_str(&mut r, " ");
    let d = endpoint_string(f.key.dst_ip, f.key.dst_port);
    push_padded_right(&mut r, d.as_str(), 45);
    push_str(&mut r, " ");
    let b = decimal_string((f.bytes_fwd as u128) + (f.bytes_rev as u128));
    push_padded_left(&mut r, b.as_str(), 10);
    push_str(&mut r, " ");
    let p = decimal_string((f.packets_fwd as u128) + (f.packets_rev as u128));
    push_padded_left(&mut r, p.as_str(), 10);
    r
}

/// The header of the flow table.
pub open spec fn flow_header() -> Seq<char> {
    pad_right("SRC"@, 45) + " "@ + pad_right("DST"@, 45) + " "@ + pad_left("BYTES"@, 10) + " "@ + pad_left("PKTS"@, 10)
}

pub fn flow_header_line() -> (r: String)
    ensures
        r@ == flow_header(),
{
    let mut r = String::new();
    push_padded_right(&mut r, "SRC", 45);
    push_str(&mut r, " ");
    push_padded_right(&mut r, "DST", 45);
    push_str(&mut r, " ");
    push_padded_left(&mut r, "BYTES", 10);
    push_str(&mut r, " ");
    push_padded_left(&mut r, "PKTS", 10);
    r
}

/// `n` dashes, the rule under a table header.
pub open spec fn dashes(n: nat) -> Seq<char> {
    Seq::new(n, |i: int| '-')
}

pub fn rule_line(n: usize) -> (r: String)
    ensures
        r@ == dashes(n as nat),
{
    let mut r = String::new();
    let mut i: usize = 0;
    while i < n
        invariant
            i <= n,
            r@ == dashes(i as nat),
        decreases n - i,
    {
        push_char(&mut r, '-');
        assert(dashes((i + 1) as nat) == dashes(i as nat).push('-'));
        i = i + 1;
    }
    r
}

/// A row of the interface list: the name in a column of 20, then the
/// description.
pub open spec fn interface_row(name: Seq<char>, desc: Seq<char>) -> Seq<char> {
    pad_right(name, 20) + " "@ + desc
}

pub fn interface_row_of(name: &str, desc: &str) -> (r: String)
    ensures
        r@ == interface_row(name@, desc@),
{
    let mut r = String::new();
    push_padded_right(&mut r, name, 20);
    push_str(&mut r, " ");
    push_str(&mut r, desc);
    r
}

} // verus!
