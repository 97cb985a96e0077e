//! Detection engine: per-packet rules that raise alerts, with per-source
//! SYN and ICMP counters and the port-scan probes seen.

use vstd::prelude::*;
use vstd::string::StringExecFns;
use crate::clock::now_micros;
use crate::net::{IpAddress, ip_text};
use crate::packet::ParsedPacket;
use crate::protocol::L4Protocol;
use crate::table::{CounterTable, counts, no_counts, counter_table_new, counter_get, counter_set, counter_clear};
use crate::text::{decimal, push_decimal, push_str};

verus! {

/// How serious an alert is.
#[derive(Debug, Clone, Copy, PartialEq, Eq, Structural)]
pub enum Severity {
    Info,
    Low,
    Medium,
    High,
    Critical,
}

/// What kind of activity an alert reports.
#[derive(Debug, Clone, Copy, PartialEq, Eq, Structural)]
pub enum AlertCategory {
    PortScan,
    SynFlood,
    LargeTransfer,
    DnsExfiltration,
    TlsAnomalyNoSni,
    SuspiciousPort,
    IcmpFlood,
    AbnormalTtl,
}

/// An alert raised for a packet.
#[derive(Debug)]
pub struct Alert {
    pub id: u64,
    /// Microseconds since the Unix epoch (UTC).
    pub timestamp: i64,
    pub severity: Severity,
    pub category: AlertCategory,
    pub message: String,
    pub src_ip: Option<IpAddress>,
    pub dst_ip: Option<IpAddress>,
    pub src_port: Option<u16>,
    pub dst_port: Option<u16>,
    /// The transport protocol of the packet.
    pub proto: Option<L4Protocol>,
}

/// What a rule reports: severity, category and message text.
pub type Finding = (Severity, AlertCategory, Seq<char>);

/// `a` reports finding `f` about `pkt`, raised at `now` under number `id`.
pub open spec fn describes(a: Alert, f: Finding, pkt: ParsedPacket, now: i64, id: u64) -> bool {
    &&& a.id == id
    &&& a.timestamp == now
    &&& a.severity == f.0
    &&& a.category == f.1
    &&& a.message@ == f.2
    &&& a.src_ip == pkt.src_ip
    &&& a.dst_ip == pkt.dst_ip
    &&& a.src_port == pkt.src_port
    &&& a.dst_port == pkt.dst_port
    &&& a.proto == pkt.l4
}

/// Nothing remembered.
pub open spec fn fresh_state() -> DetectState {
    (no_counts(), no_counts(), Seq::empty(), Seq::empty())
}

/// A detection rule.
#[derive(Debug, Clone, Copy, PartialEq, Eq, Structural)]
pub enum Rule {
    /// Fires once per source, when its count of connection-opening TCP
    /// segments first exceeds `threshold`.
    SynFlood { threshold: u64 },
    /// Fires once per source, when its count of ICMP packets first exceeds
    /// `threshold`.
    IcmpFlood { threshold: u64 },
    /// Fires on a time to live of at most one, outside ICMP.
    BadTtl,
    /// Fires on a destination port from a list of known backdoor ports.
    SuspPort,
    /// Fires once per source and destination, when the destination ports
    /// its probes reach first number more than `threshold`.
    VerticalScan { threshold: u64 },
    /// Fires once per source and destination port, when the hosts its
    /// probes reach on that port first number more than `threshold`.
    HorizontalScan { threshold: u64 },
}

/// The rules of an engine, in the order they run.
pub open spec fn default_rules() -> Seq<Rule> {
    seq![
        Rule::SynFlood { threshold: 200 },
        Rule::IcmpFlood { threshold: 500 },
        Rule::BadTtl,
        Rule::SuspPort,
        Rule::VerticalScan { threshold: 20 },
        Rule::HorizontalScan { threshold: 15 },
    ]
}

/// A probe that a port scan may be made of: source, destination and
/// destination port of a packet.
pub type Probe = (IpAddress, IpAddress, u16);

/// What the rules remember: SYN counts and ICMP counts per source, and the
/// distinct probes seen by the vertical and by the horizontal scan rule, in
/// the order first seen.
pub type DetectState = (Map<IpAddress, u64>, Map<IpAddress, u64>, Seq<Probe>, Seq<Probe>);

/// The probe a packet is: any packet that carries both addresses and a
/// destination port.
pub open spec fn probe_of(pkt: ParsedPacket) -> Option<Probe> {
    match (pkt.src_ip, pkt.dst_ip, pkt.dst_port) {
        (Some(s), Some(d), Some(p)) => Some((s, d, p)),
        _ => None,
    }
}

/// `e` comes from `t`'s source and goes to `t`'s destination port
/// (`by_port`) or to `t`'s destination host.
pub open spec fn same_group(e: Probe, t: Probe, by_port: bool) -> bool {
    e.0 == t.0 && if by_port {
        e.2 == t.2
    } else {
        e.1 == t.1
    }
}

/// How many probes of `s` are in `t`'s group.
pub open spec fn group_count(s: Seq<Probe>, t: Probe, by_port: bool) -> nat
    decreases s.len(),
{
    if s.len() == 0 {
        0
    } else {
        group_count(s.drop_last(), t, by_port) + if same_group(s.last(), t, by_port) {
            1nat
        } else {
            0nat
        }
    }
}

/// The counter of `k` after one more sighting.
pub open spec fn bumped(m: Map<IpAddress, u64>, k: IpAddress) -> int {
    (if m.contains_key(k) { m[k] as int } else { 0 }) + 1
}

/// Ports that backdoors and botnets are known to use.
pub open spec fn is_backdoor_port(p: u16) -> bool {
    p == 4444 || p == 31337 || p == 1337 || p == 6667 || p == 9001 || p == 9030 || p == 14433
}

pub open spec fn syn_message(src: IpAddress, c: u64) -> Seq<char> {
    "SYN flood from "@ + ip_text(src) + ": "@ + decimal(c as nat) + " SYNs"@
}

pub open spec fn flood_message(src: IpAddress) -> Seq<char> {
    "ICMP flood from "@ + ip_text(src)
}

pub open spec fn ttl_message(t: u8) -> Seq<char> {
    "TTL="@ + decimal(t as nat)
}

pub open spec fn port_message(p: u16) -> Seq<char> {
    "Suspicious port "@ + decimal(p as nat)
}

pub open spec fn vscan_message(src: IpAddress, dst: IpAddress, c: nat) -> Seq<char> {
    "Vertical port scan from "@ + ip_text(src) + " to "@ + ip_text(dst) + ": "@ + decimal(c) + " ports"@
}

pub open spec fn hscan_message(src: IpAddress, port: u16, c: nat) -> Seq<char> {
    "Horizontal port scan from "@ + ip_text(src) + " on port "@ + decimal(port as nat) + ": "@ + decimal(c) + " hosts"@
}

pub open spec fn counted(c: int) -> u64 {
    c as u64
}

/// A scan rule applied to a probe: the probes it has seen after it, and
/// what it reports.
pub open spec fn scan_step(seen: Seq<Probe>, pkt: ParsedPacket, threshold: u64, by_port: bool) -> (Seq<Probe>, Option<Finding>) {
    match probe_of(pkt) {
        None => (seen, None),
        Some(t) => if seen.contains(t) {
            (seen, None)
        } else {
            let after = seen.push(t);
            let c = group_count(after, t, by_port);
            (
                after,
                if c == threshold + 1 {
                    Some(
                        (
                            Severity::High,
                            AlertCategory::PortScan,
                            if by_port {
                                hscan_message(t.0, t.2, c)
                            } else {
                                vscan_message(t.0, t.1, c)
                            },
                        ),
                    )
                } else {
                    None
                },
            )
        },
    }
}

/// One rule applied to a packet: what the rules remember after it, and
/// what it reports.
pub open spec fn apply_rule(rule: Rule, st: DetectState, pkt: ParsedPacket) -> (DetectState, Option<Finding>) {
    let (syn, pings, vseen, hseen) = st;
    match rule {
        Rule::SynFlood { threshold } => if pkt.l4 != Some(L4Protocol::Tcp) || !(pkt.flags.syn
            && !pkt.flags.ack) {
            ((syn, pings, vseen, hseen), None)
        } else {
            match pkt.src_ip {
                None => ((syn, pings, vseen, hseen), None),
                Some(src) => {
                    let c = counted(bumped(syn, src));
                    (
                        (syn.insert(src, c), pings, vseen, hseen),
                        if c == threshold + 1 {
                            Some((Severity::High, AlertCategory::SynFlood, syn_message(src, c)))
                        } else {
                            None
                        },
                    )
                },
            }
        },
        Rule::IcmpFlood { threshold } => if pkt.l4 != Some(L4Protocol::Icmp) {
            ((syn, pings, vseen, hseen), None)
        } else {
            match pkt.src_ip {
                None => ((syn, pings, vseen, hseen), None),
                Some(src) => {
                    let c = counted(bumped(pings, src));
                    (
                        (syn, pings.insert(src, c), vseen, hseen),
                        if c == threshold + 1 {
                            Some((Severity::Medium, AlertCategory::IcmpFlood, flood_message(src)))
                        } else {
                            None
                        },
                    )
                },
            }
        },
        Rule::BadTtl => {
            let t = match pkt.ttl {
                Some(t) => t,
                None => 128u8,
            };
            if t <= 1 && pkt.l4 != Some(L4Protocol::Icmp) {
                (
                    (syn, pings, vseen, hseen),
                    Some(
                        (
                            Severity::Low,
                            AlertCategory::AbnormalTtl,
                            ttl_message(
                                match pkt.ttl {
                                    Some(t) => t,
                                    None => 0u8,
                                },
                            ),
                        ),
                    ),
                )
            } else {
                ((syn, pings, vseen, hseen), None)
            }
        },
        Rule::SuspPort => match pkt.dst_port {
            Some(p) => if is_backdoor_port(p) {
                ((syn, pings, vseen, hseen), Some((Severity::Medium, AlertCategory::SuspiciousPort, port_message(p))))
            } else {
                ((syn, pings, vseen, hseen), None)
            },
            None => ((syn, pings, vseen, hseen), None),
        },
        Rule::VerticalScan { threshold } => {
            let (v2, f) = scan_step(vseen, pkt, threshold, false);
            ((syn, pings, v2, hseen), f)
        },
        Rule::HorizontalScan { threshold } => {
            let (h2, f) = scan_step(hseen, pkt, threshold, true);
            ((syn, pings, vseen, h2), f)
        },
    }
}

/// The rules applied in order: what they remember after it, and the
/// findings in order.
pub open spec fn apply_rules(rules: Seq<Rule>, st: DetectState, pkt: ParsedPacket) -> (DetectState, Seq<Finding>)
    decreases rules.len(),
{
    if rules.len() == 0 {
        (st, Seq::empty())
    } else {
        let (s1, f) = apply_rule(rules[0], st, pkt);
        let (s2, fs) = apply_rules(rules.drop_first(), s1, pkt);
        (
            s2,
            match f {
                Some(x) => seq![x] + fs,
                None => fs,
            },
        )
    }
}

/// The `i`-th number handed out from `next`, wrapping past `u64::MAX` as an
/// atomic `fetch_add` does.
pub open spec fn nth_id(next: u64, i: int) -> u64 {
    ((next + i) % 0x1_0000_0000_0000_0000) as u64
}

/// Counting one more sighting of a source cannot overflow.
pub open spec fn below_max(m: Map<IpAddress, u64>, src: Option<IpAddress>) -> bool {
    match src {
        Some(s) => m.contains_key(s) ==> m[s] < u64::MAX,
        None => true,
    }
}

/// `f` as a sequence of at most one finding.
pub open spec fn opt_seq(f: Option<Finding>) -> Seq<Finding> {
    match f {
        Some(x) => seq![x],
        None => Seq::empty(),
    }
}

/// Running one more rule after a list of rules adds that rule's effect at
/// the end.
pub proof fn lemma_apply_rules_push(rules: Seq<Rule>, r: Rule, st: DetectState, pkt: ParsedPacket)
    ensures
        ({
            let (s, fs) = apply_rules(rules, st, pkt);
            let (s2, f) = apply_rule(r, s, pkt);
            let (a, c) = apply_rules(rules.push(r), st, pkt);
            &&& a == s2
            &&& c =~= fs + opt_seq(f)
        }),
    decreases rules.len(),
{
    if rules.len() == 0 {
        assert(rules.push(r).drop_first() == rules);
        assert(rules.push(r)[0] == r);
        let (s2, f) = apply_rule(r, st, pkt);
        assert(apply_rules(rules, st, pkt) == (st, Seq::<Finding>::empty()));
        assert(apply_rules(rules.push(r).drop_first(), s2, pkt) == (s2, Seq::<Finding>::empty()));
        assert(Seq::<Finding>::empty() + opt_seq(f) == opt_seq(f));
        match f {
            Some(x) => {
                assert(seq![x] + Seq::<Finding>::empty() == seq![x]);
            },
            None => {},
        }
    } else {
        let (s1, f0) = apply_rule(rules[0], st, pkt);
        lemma_apply_rules_push(rules.drop_first(), r, s1, pkt);
        assert(rules.push(r).drop_first() == rules.drop_first().push(r));
        assert(rules.push(r)[0] == rules[0]);
        let (s, fs) = apply_rules(rules.drop_first(), s1, pkt);
        let (s2, f) = apply_rule(r, s, pkt);
        let (a, c) = apply_rules(rules.push(r), st, pkt);
        let (ta, tc) = apply_rules(rules.drop_first().push(r), s1, pkt);
        assert(a == ta);
        assert(a == s2);
        let (ra, rc) = apply_rules(rules, st, pkt);
        assert(ra == s);
        match f0 {
            Some(x) => {
                assert(rc == seq![x] + fs);
                assert(c == seq![x] + tc);
                assert(seq![x] + (fs + opt_seq(f)) == (seq![x] + fs) + opt_seq(f));
            },
            None => {
                assert(rc == fs);
                assert(c == tc);
            },
        }
    }
}

/// One more finding raises the next number by one.
proof fn lemma_nth_id_step(next: u64, k: int)
    requires
        0 <= k,
    ensures
        vstd::wrapping::u64_specs::wrapping_add(nth_id(next, k), 1) == nth_id(next, k + 1),
{
    assert(((next + k) % 0x1_0000_0000_0000_0000 + 1) % 0x1_0000_0000_0000_0000 == (next + k + 1) % 0x1_0000_0000_0000_0000) by (nonlinear_arith);
}

/// Counts one more sighting of `src` in `t` and gives the new count.
fn bump(t: &mut CounterTable, src: IpAddress) -> (r: u64)
    requires
        below_max(counts(*old(t)), Some(src)),
    ensures
        r == counted(bumped(counts(*old(t)), src)),
        counts(*final(t)) == counts(*old(t)).insert(src, r),
{
    let c = match counter_get(t, &src) {
        Some(v) => v + 1,
        None => 1,
    };
    counter_set(t, src, c);
    c
}

fn ttl_text(t: u8) -> (r: String)
    ensures
        r@ == ttl_message(t),
{
    let mut m = String::from_str("TTL=");
    push_decimal(&mut m, t as u64);
    m
}

fn port_text(p: u16) -> (r: String)
    ensures
        r@ == port_message(p),
{
    let mut m = String::from_str("Suspicious port ");
    push_decimal(&mut m, p as u64);
    m
}

fn syn_text(src: IpAddress, c: u64) -> (r: String)
    ensures
        r@ == syn_message(src, c),
{
    let mut m = String::from_str("SYN flood from ");
    src.push_text(&mut m);
    push_str(&mut m, ": ");
    push_decimal(&mut m, c);
    push_str(&mut m, " SYNs");
    m
}

fn flood_text(src: IpAddress) -> (r: String)
    ensures
        r@ == flood_message(src),
{
    let mut m = String::from_str("ICMP flood from ");
    src.push_text(&mut m);
    m
}

fn vscan_text(src: IpAddress, dst: IpAddress, c: usize) -> (r: String)
    ensures
        r@ == vscan_message(src, dst, c as nat),
{
    let mut m = String::from_str("Vertical port scan from ");
    src.push_text(&mut m);
    push_str(&mut m, " to ");
    dst.push_text(&mut m);
    push_str(&mut m, ": ");
    push_decimal(&mut m, c as u64);
    push_str(&mut m, " ports");
    m
}

fn hscan_text(src: IpAddress, port: u16, c: usize) -> (r: String)
    ensures
        r@ == hscan_message(src, port, c as nat),
{
    let mut m = String::from_str("Horizontal port scan from ");
    src.push_text(&mut m);
    push_str(&mut m, " on port ");
    push_decimal(&mut m, port as u64);
    push_str(&mut m, ": ");
    push_decimal(&mut m, c as u64);
    push_str(&mut m, " hosts");
    m
}

/// Records probe `t` in `log` unless it is there already; where it is new,
/// gives the number of probes in its group afterwards.
fn record_probe(log: &mut Vec<Probe>, t: Probe, by_port: bool) -> (r: Option<usize>)
    ensures
        if old(log)@.contains(t) {
            r is None && final(log)@ == old(log)@
        } else {
            final(log)@ == old(log)@.push(t) && (r matches Some(c) && c == group_count(final(log)@, t, by_port))
        },
{
    let ghost start = log@;
    let mut count: usize = 0;
    let mut i: usize = 0;
    while i < log.len()
        invariant
            log@ == start,
            i <= start.len(),
            count == group_count(start.subrange(0, i as int), t, by_port),
            count <= i,
            !start.subrange(0, i as int).contains(t),
        decreases start.len() - i,
    {
        let e = log[i];
        assert(start.subrange(0, i + 1).drop_last() == start.subrange(0, i as int));
        assert(start.subrange(0, i + 1).last() == e);
        if e.0 == t.0 && e.1 == t.1 && e.2 == t.2 {
            assert(start[i as int] == t);
            return None;
        }
        let same = e.0 == t.0 && if by_port {
            e.2 == t.2
        } else {
            e.1 == t.1
        };
        if same {
            count = count + 1;
        }
        assert forall|j: int| 0 <= j < i + 1 implies #[trigger] start.subrange(0, i + 1)[j] != t by {
            if j < i {
                assert(start.subrange(0, i + 1)[j] == start.subrange(0, i as int)[j]);
            }
        }
        i = i + 1;
    }
    assert(start.subrange(0, start.len() as int) == start);
    log.push(t);
    let n = log.len();
    assert(log@.drop_last() == start);
    Some(count + 1)
}

/// `r` carries finding `f`.
pub open spec fn carries(r: Option<(Severity, AlertCategory, String)>, f: Option<Finding>) -> bool {
    match f {
        Some(x) => r matches Some(y) && y.0 == x.0 && y.1 == x.1 && y.2@ == x.2,
        None => r is None,
    }
}

fn is_backdoor(p: u16) -> (r: bool)
    ensures
        r == is_backdoor_port(p),
{
    p == 4444 || p == 31337 || p == 1337 || p == 6667 || p == 9001 || p == 9030 || p == 14433
}

/// Rule engine with per-source counters; alerts are numbered in the order
/// they are raised.
pub struct AlertEngine {
    rules: Vec<Rule>,
    syn: CounterTable,
    pings: CounterTable,
    vprobes: Vec<Probe>,
    hprobes: Vec<Probe>,
    seq: u64,
}

impl AlertEngine {
    /// The rules, in the order they run.
    pub closed spec fn rule_list(&self) -> Seq<Rule> {
        self.rules@
    }

    /// Connection-opening TCP segments counted per source.
    pub closed spec fn syn_counts(&self) -> Map<IpAddress, u64> {
        counts(self.syn)
    }

    /// ICMP packets counted per source.
    pub closed spec fn ping_counts(&self) -> Map<IpAddress, u64> {
        counts(self.pings)
    }

    /// Everything the rules remember.
    pub closed spec fn state(&self) -> DetectState {
        (counts(self.syn), counts(self.pings), self.vprobes@, self.hprobes@)
    }

    /// The number the next alert gets.
    pub closed spec fn next_id(&self) -> u64 {
        self.seq
    }

    /// An engine with the default rules, nothing remembered, and alert
    /// numbers starting at one.
    pub fn new() -> (r: Self)
        ensures
            r.rule_list() == default_rules(),
            r.state() == fresh_state(),
            r.syn_counts() == no_counts(),
            r.ping_counts() == no_counts(),
            r.next_id() == 1,
    {
        let mut rules = Vec::new();
        rules.push(Rule::SynFlood { threshold: 200 });
        rules.push(Rule::IcmpFlood { threshold: 500 });
        rules.push(Rule::BadTtl);
        rules.push(Rule::SuspPort);
        rules.push(Rule::VerticalScan { threshold: 20 });
        rules.push(Rule::HorizontalScan { threshold: 15 });
        AlertEngine {
            rules,
            syn: counter_table_new(),
            pings: counter_table_new(),
            vprobes: Vec::new(),
            hprobes: Vec::new(),
            seq: 1,
        }
    }

    /// Forgets every counter and every probe seen; rules and alert
    /// numbering stay.
    pub fn reset(&mut self)
        ensures
            final(self).rule_list() == old(self).rule_list(),
            final(self).state() == fresh_state(),
            final(self).syn_counts() == no_counts(),
            final(self).ping_counts() == no_counts(),
            final(self).next_id() == old(self).next_id(),
    {
        counter_clear(&mut self.syn);
        counter_clear(&mut self.pings);
        self.vprobes = Vec::new();
        self.hprobes = Vec::new();
    }

    /// Whether counting one more sighting of the packet's source leaves
    /// both counters within range.
    pub fn has_room(&self, pkt: &ParsedPacket) -> (r: bool)
        ensures
            r == (below_max(self.syn_counts(), pkt.src_ip) && below_max(self.ping_counts(), pkt.src_ip)),
    {
        match pkt.src_ip {
            Some(s) => {
                let a = match counter_get(&self.syn, &s) {
                    Some(c) => c < u64::MAX,
                    None => true,
                };
                let b = match counter_get(&self.pings, &s) {
                    Some(c) => c < u64::MAX,
                    None => true,
                };
                a && b
            },
            None => true,
        }
    }

    /// Runs every rule on the packet, stamping alerts with the current time.
    pub fn inspect(&mut self, pkt: &ParsedPacket) -> (r: Vec<Alert>)
        requires
            old(self).rule_list() == default_rules(),
            below_max(old(self).syn_counts(), pkt.src_ip),
            below_max(old(self).ping_counts(), pkt.src_ip),
        ensures
            final(self).rule_list() == default_rules(),
            ({
                let (st, fs) = apply_rules(default_rules(), old(self).state(), *pkt);
                &&& final(self).state() == st
                &&& final(self).next_id() == nth_id(old(self).next_id(), fs.len() as int)
                &&& r@.len() == fs.len()
                &&& forall|k: int| 0 <= k < fs.len() ==> describes(#[trigger] r@[k], fs[k], *pkt, r@[k].timestamp, nth_id(old(self).next_id(), k))
                &&& forall|k: int| 0 <= k < fs.len() ==> #[trigger] r@[k].timestamp == r@[0].timestamp
            }),
    {
        let now = now_micros();
        self.inspect_at(pkt, now)
    }

    /// Runs every rule on the packet, in order; the alerts raised are
    /// numbered from the engine's next number and stamped `now`.
    pub fn inspect_at(&mut self, pkt: &ParsedPacket, now: i64) -> (r: Vec<Alert>)
        requires
            old(self).rule_list() == default_rules(),
            below_max(old(self).syn_counts(), pkt.src_ip),
            below_max(old(self).ping_counts(), pkt.src_ip),
        ensures
            final(self).rule_list() == default_rules(),
            ({
                let (st, fs) = apply_rules(default_rules(), old(self).state(), *pkt);
                &&& final(self).state() == st
                &&& final(self).next_id() == nth_id(old(self).next_id(), fs.len() as int)
                &&& r@.len() == fs.len()
                &&& forall|k: int| 0 <= k < fs.len() ==> describes(#[trigger] r@[k], fs[k], *pkt, now, nth_id(old(self).next_id(), k))
            }),
    {
        let mut out: Vec<Alert> = Vec::new();
        let ghost rules = self.rules@;
        let ghost start = self.state();
        let ghost start_seq = self.seq;
        assert(rules.subrange(0, 0) == Seq::<Rule>::empty());
        let mut i: usize = 0;
        while i < self.rules.len()
            invariant
                self.rules@ == rules,
                rules == default_rules(),
                i <= rules.len(),
                ({
                    let (st, fs) = apply_rules(rules.subrange(0, i as int), start, *pkt);
                    &&& self.state() == st
                    &&& self.seq == nth_id(start_seq, fs.len() as int)
                    &&& out@.len() == fs.len()
                    &&& forall|k: int| 0 <= k < fs.len() ==> describes(#[trigger] out@[k], fs[k], *pkt, now, nth_id(start_seq, k))
                }),
                i == 0 ==> self.state().0 == start.0,
                i <= 1 ==> self.state().1 == start.1,
                below_max(start.0, pkt.src_ip),
                below_max(start.1, pkt.src_ip),
            decreases rules.len() - i,
        {
            let rule = self.rules[i];
            let ghost before_out = out@;
            proof {
                lemma_apply_rules_push(rules.subrange(0, i as int), rule, start, *pkt);
                assert(rules.subrange(0, i as int).push(rule) == rules.subrange(0, i + 1));
            }
            proof {
                if i == 0 {
                } else if i == 1 {
                } else if i == 2 {
                } else if i == 3 {
                } else if i == 4 {
                } else {
                    assert(i == 5);
                }
            }
            let fired = self.run_rule(rule, pkt);
            let ghost (s0, fs0) = apply_rules(rules.subrange(0, i as int), start, *pkt);
            match fired {
                Some((severity, category, message)) => {
                    let a = Alert {
                        id: self.seq,
                        timestamp: now,
                        severity,
                        category,
                        message,
                        src_ip: pkt.src_ip,
                        dst_ip: pkt.dst_ip,
                        src_port: pkt.src_port,
                        dst_port: pkt.dst_port,
                        proto: pkt.l4,
                    };
                    out.push(a);
                    proof {
                        lemma_nth_id_step(start_seq, fs0.len() as int);
                    }
                    self.seq = self.seq.wrapping_add(1);
                },
                None => {},
            }
            proof {
                let (s1, f) = apply_rule(rule, s0, *pkt);
                let fs1 = fs0 + opt_seq(f);
                assert forall|k: int| 0 <= k < fs1.len() implies describes(#[trigger] out@[k], fs1[k], *pkt, now, nth_id(start_seq, k)) by {
                    if k < fs0.len() {
                        assert(out@[k] == before_out[k]);
                    }
                }
            }
            i = i + 1;
        }
        assert(rules.subrange(0, rules.len() as int) == rules);
        out
    }

    /// Applies one rule: updates the counter it keeps, and reports what it
    /// finds.
    fn run_rule(&mut self, rule: Rule, pkt: &ParsedPacket) -> (r: Option<(Severity, AlertCategory, String)>)
        requires
            rule is SynFlood ==> below_max(counts(old(self).syn), pkt.src_ip),
            rule is IcmpFlood ==> below_max(counts(old(self).pings), pkt.src_ip),
        ensures
            ({
                let (st, f) = apply_rule(rule, old(self).state(), *pkt);
                &&& final(self).state() == st
                &&& carries(r, f)
            }),
            final(self).rules@ == old(self).rules@,
            final(self).seq == old(self).seq,
    {
        match rule {
            Rule::SynFlood { threshold } => {
                let tcp = match pkt.l4 {
                    Some(L4Protocol::Tcp) => true,
                    _ => false,
                };
                if !tcp || !pkt.flags.is_connection_start() {
                    return None;
                }
                let src = match pkt.src_ip {
                    Some(s) => s,
                    None => return None,
                };
                let c = bump(&mut self.syn, src);
                if c > threshold && c - 1 == threshold {
                    Some((Severity::High, AlertCategory::SynFlood, syn_text(src, c)))
                } else {
                    None
                }
            },
            Rule::IcmpFlood { threshold } => {
                let is_v4_control = match pkt.l4 {
                    Some(L4Protocol::Icmp) => true,
                    _ => false,
                };
                if !is_v4_control {
                    return None;
                }
                let src = match pkt.src_ip {
                    Some(s) => s,
                    None => return None,
                };
                let c = bump(&mut self.pings, src);
                if c > threshold && c - 1 == threshold {
                    Some((Severity::Medium, AlertCategory::IcmpFlood, flood_text(src)))
                } else {
                    None
                }
            },
            Rule::BadTtl => {
                let t = match pkt.ttl {
                    Some(t) => t,
                    None => 128,
                };
                let is_v4_control = match pkt.l4 {
                    Some(L4Protocol::Icmp) => true,
                    _ => false,
                };
                if t <= 1 && !is_v4_control {
                    let shown = match pkt.ttl {
                        Some(t) => t,
                        None => 0,
                    };
                    Some((Severity::Low, AlertCategory::AbnormalTtl, ttl_text(shown)))
                } else {
                    None
                }
            },
            Rule::SuspPort => match pkt.dst_port {
                Some(p) => if is_backdoor(p) {
                    Some((Severity::Medium, AlertCategory::SuspiciousPort, port_text(p)))
                } else {
                    None
                },
                None => None,
            },
            Rule::VerticalScan { threshold } => self.run_scan(pkt, threshold, false),
            Rule::HorizontalScan { threshold } => self.run_scan(pkt, threshold, true),
        }
    }

    /// Applies a scan rule: records the packet's probe with the vertical
    /// (`!by_port`) or the horizontal rule, and reports what it finds.
    fn run_scan(&mut self, pkt: &ParsedPacket, threshold: u64, by_port: bool) -> (r: Option<(Severity, AlertCategory, String)>)
        ensures
            ({
                let st = old(self).state();
                let (seen, f) = scan_step(if by_port { st.3 } else { st.2 }, *pkt, threshold, by_port);
                &&& final(self).state() == if by_port {
                    (st.0, st.1, st.2, seen)
                } else {
                    (st.0, st.1, seen, st.3)
                }
                &&& carries(r, f)
            }),
            final(self).rules@ == old(self).rules@,
            final(self).seq == old(self).seq,
    {
        let t = match (pkt.src_ip, pkt.dst_ip, pkt.dst_port) {
            (Some(s), Some(d), Some(p)) => (s, d, p),
            _ => return None,
        };
        let c = if by_port {
            record_probe(&mut self.hprobes, t, true)
        } else {
            record_probe(&mut self.vprobes, t, false)
        };
        match c {
            None => None,
            Some(c) => if c as u64 > threshold && (c as u64) - 1 == threshold {
                if by_port {
                    Some((Severity::High, AlertCategory::PortScan, hscan_text(t.0, t.2, c)))
                } else {
                    Some((Severity::High, AlertCategory::PortScan, vscan_text(t.0, t.1, c)))
                }
            } else {
                None
            },
        }
    }
}

impl Default for AlertEngine {
    fn default() -> (r: Self)
        ensures
            r.rule_list() == default_rules(),
            r.state() == fresh_state(),
            r.syn_counts() == no_counts(),
            r.ping_counts() == no_counts(),
            r.next_id() == 1,
    {
        Self::new()
    }
}

/// `n - 1`, for a positive `n`.
pub open spec fn one_less(n: nat) -> nat {
    (n - 1) as nat
}

/// What the rules remember after the rule ran on `n` copies of `pkt`, and
/// how many of those raised an alert.
pub open spec fn repeated(rule: Rule, st: DetectState, pkt: ParsedPacket, n: nat) -> (DetectState, nat)
    decreases n,
{
    if n == 0 {
        (st, 0)
    } else {
        let (s0, c0) = repeated(rule, st, pkt, (n - 1) as nat);
        let (s1, f) = apply_rule(rule, s0, pkt);
        (s1, c0 + if f is Some { 1nat } else { 0nat })
    }
}

/// SYN flood detection: of `n` connection-opening TCP segments from a
/// source not counted before, exactly one raises an alert when `n` exceeds
/// the threshold, none otherwise; the source's count is then `n`.
pub proof fn law_syn_flood_fires_once(t: u64, st: DetectState, pkt: ParsedPacket, n: nat)
    requires
        pkt.l4 == Some(L4Protocol::Tcp),
        pkt.flags.syn && !pkt.flags.ack,
        pkt.src_ip is Some,
        !st.0.contains_key(pkt.src_ip->0),
        n <= u64::MAX,
    ensures
        repeated(Rule::SynFlood { threshold: t }, st, pkt, n).1 == (if n > t { 1nat } else { 0nat }),
        n > 0 ==> repeated(Rule::SynFlood { threshold: t }, st, pkt, n).0.0[pkt.src_ip->0] == n,
        repeated(Rule::SynFlood { threshold: t }, st, pkt, n).0.1 == st.1,
    decreases n,
{
    if n > 0 {
        law_syn_flood_fires_once(t, st, pkt, (n - 1) as nat);
    }
}

/// ICMP flood detection: of `n` ICMP packets from a source not counted
/// before, exactly one raises an alert when `n` exceeds the threshold, none
/// otherwise; the source's count is then `n`.
pub proof fn law_ping_flood_fires_once(t: u64, st: DetectState, pkt: ParsedPacket, n: nat)
    requires
        pkt.l4 == Some(L4Protocol::Icmp),
        pkt.src_ip is Some,
        !st.1.contains_key(pkt.src_ip->0),
        n <= u64::MAX,
    ensures
        repeated(Rule::IcmpFlood { threshold: t }, st, pkt, n).1 == (if n > t { 1nat } else { 0nat }),
        n > 0 ==> repeated(Rule::IcmpFlood { threshold: t }, st, pkt, n).0.1[pkt.src_ip->0] == n,
        repeated(Rule::IcmpFlood { threshold: t }, st, pkt, n).0.0 == st.0,
    decreases n,
{
    if n > 0 {
        law_ping_flood_fires_once(t, st, pkt, one_less(n));
    }
}

/// What the rules remember after the rule ran on each packet of `pkts` in
/// order, and how many of them raised an alert.
pub open spec fn run_all(rule: Rule, st: DetectState, pkts: Seq<ParsedPacket>) -> (DetectState, nat)
    decreases pkts.len(),
{
    if pkts.len() == 0 {
        (st, 0)
    } else {
        let (s0, c0) = run_all(rule, st, pkts.drop_last());
        let (s1, f) = apply_rule(rule, s0, pkts.last());
        (s1, c0 + if f is Some { 1nat } else { 0nat })
    }
}

/// The probes of `pkts` are `t`'s group and pairwise different.
pub open spec fn distinct_probes_in_group(pkts: Seq<ParsedPacket>, t: Probe, by_port: bool) -> bool {
    &&& forall|i: int| 0 <= i < pkts.len() ==> (#[trigger] probe_of(pkts[i])) is Some && same_group(probe_of(pkts[i])->0, t, by_port)
    &&& forall|i: int, j: int| 0 <= i < j < pkts.len() ==> #[trigger] probe_of(pkts[i]) != #[trigger] probe_of(pkts[j])
}

/// A group with no probe in `s` has count zero, and a probe pushed adds
/// one to its own group.
proof fn lemma_group_count(s: Seq<Probe>, t: Probe, by_port: bool)
    ensures
        (forall|i: int| 0 <= i < s.len() ==> !same_group(#[trigger] s[i], t, by_port)) ==> group_count(s, t, by_port) == 0,
        (forall|i: int| 0 <= i < s.len() ==> same_group(#[trigger] s[i], t, by_port)) ==> group_count(s, t, by_port) == s.len(),
    decreases s.len(),
{
    if s.len() > 0 {
        lemma_group_count(s.drop_last(), t, by_port);
        assert(s.last() == s[s.len() - 1]);
        assert forall|i: int| 0 <= i < s.drop_last().len() implies s.drop_last()[i] == s[i] by {}
    }
}

/// The probes the vertical (`!by_port`) or the horizontal rule has seen.
pub open spec fn seen_by(st: DetectState, by_port: bool) -> Seq<Probe> {
    if by_port {
        st.3
    } else {
        st.2
    }
}

/// The rule's probes after the packets of a group, on a state that held no
/// probe of that group: the earlier probes, then the packets' probes in
/// order; the alerts raised are one where the group grew past the
/// threshold, else none.
proof fn lemma_scan_run(rule: Rule, threshold: u64, by_port: bool, st: DetectState, pkts: Seq<ParsedPacket>, t: Probe)
    requires
        rule == (if by_port { Rule::HorizontalScan { threshold } } else { Rule::VerticalScan { threshold } }),
        distinct_probes_in_group(pkts, t, by_port),
        forall|i: int| 0 <= i < seen_by(st, by_port).len() ==> !same_group(#[trigger] seen_by(st, by_port)[i], t, by_port),
    ensures
        ({
            let r = run_all(rule, st, pkts);
            &&& seen_by(r.0, by_port).len() == seen_by(st, by_port).len() + pkts.len()
            &&& forall|i: int| 0 <= i < seen_by(st, by_port).len() ==> #[trigger] seen_by(r.0, by_port)[i] == seen_by(st, by_port)[i]
            &&& forall|i: int| 0 <= i < pkts.len() ==> seen_by(r.0, by_port)[seen_by(st, by_port).len() + i] == #[trigger] probe_of(pkts[i])->0
            &&& group_count(seen_by(r.0, by_port), t, by_port) == pkts.len()
            &&& r.1 == (if pkts.len() > threshold { 1nat } else { 0nat })
            &&& r.0.0 == st.0 && r.0.1 == st.1
            &&& (if by_port { r.0.2 == st.2 } else { r.0.3 == st.3 })
        }),
    decreases pkts.len(),
{
    let before = seen_by(st, by_port);
    if pkts.len() > 0 {
        let init = pkts.drop_last();
        assert(distinct_probes_in_group(init, t, by_port)) by {
            assert forall|i: int| 0 <= i < init.len() implies (#[trigger] probe_of(init[i])) is Some && same_group(probe_of(init[i])->0, t, by_port) by {
                assert(init[i] == pkts[i]);
            }
            assert forall|i: int, j: int| 0 <= i < j < init.len() implies #[trigger] probe_of(init[i]) != #[trigger] probe_of(init[j]) by {
                assert(init[i] == pkts[i]);
                assert(init[j] == pkts[j]);
            }
        }
        lemma_scan_run(rule, threshold, by_port, st, init, t);
        let (s0, c0) = run_all(rule, st, init);
        let seen = seen_by(s0, by_port);
        let last = pkts.last();
        let n = pkts.len() - 1;
        assert(last == pkts[n]);
        let p = probe_of(last)->0;
        assert(probe_of(pkts[n]) is Some);
        assert(!seen.contains(p)) by {
            if seen.contains(p) {
                let j = choose|j: int| 0 <= j < seen.len() && seen[j] == p;
                if j < before.len() {
                    assert(seen[j] == before[j]);
                    assert(same_group(p, t, by_port));
                } else {
                    let k = j - before.len();
                    assert(init[k] == pkts[k]);
                    assert(seen[before.len() + k] == probe_of(init[k])->0);
                    assert(probe_of(pkts[k]) != probe_of(pkts[n]));
                }
            }
        }
        let after = seen.push(p);
        assert(after.drop_last() == seen);
        assert(same_group(p, t, by_port));
        assert(group_count(after, t, by_port) == n + 1);
        assert(same_group(after.last(), p, by_port));
        assert(group_count(after, p, by_port) == group_count(after, t, by_port)) by {
            lemma_same_count(after, p, t, by_port);
        }
        let r = run_all(rule, st, pkts);
        let fin = seen_by(r.0, by_port);
        assert(fin == after);
        assert forall|i: int| 0 <= i < pkts.len() implies fin[before.len() + i] == #[trigger] probe_of(pkts[i])->0 by {
            if i < n {
                assert(init[i] == pkts[i]);
            }
        }
    } else {
        lemma_group_count(before, t, by_port);
    }
}

/// Two probes of one group count that group alike.
proof fn lemma_same_count(s: Seq<Probe>, p: Probe, t: Probe, by_port: bool)
    requires
        same_group(p, t, by_port),
    ensures
        group_count(s, p, by_port) == group_count(s, t, by_port),
    decreases s.len(),
{
    if s.len() > 0 {
        lemma_same_count(s.drop_last(), p, t, by_port);
    }
}

/// Vertical scan detection: of probes from one source to one destination
/// on `n` different ports, where no probe from that source to that
/// destination was seen before, exactly one raises an alert when `n`
/// exceeds the threshold, none otherwise.
pub proof fn law_vertical_scan_fires_once(threshold: u64, st: DetectState, pkts: Seq<ParsedPacket>, src: IpAddress, dst: IpAddress)
    requires
        forall|i: int| 0 <= i < pkts.len() ==> ((#[trigger] probe_of(pkts[i])) matches Some(q) && q.0 == src && q.1 == dst),
        forall|i: int, j: int| 0 <= i < j < pkts.len() ==> #[trigger] pkts[i].dst_port != #[trigger] pkts[j].dst_port,
        forall|i: int| 0 <= i < st.2.len() ==> !(#[trigger] st.2[i].0 == src && st.2[i].1 == dst),
    ensures
        run_all(Rule::VerticalScan { threshold }, st, pkts).1 == (if pkts.len() > threshold { 1nat } else { 0nat }),
{
    let t: Probe = (src, dst, 0);
    assert(distinct_probes_in_group(pkts, t, false)) by {
        assert forall|i: int, j: int| 0 <= i < j < pkts.len() implies #[trigger] probe_of(pkts[i]) != #[trigger] probe_of(pkts[j]) by {
            assert(pkts[i].dst_port != pkts[j].dst_port);
        }
    }
    lemma_scan_run(Rule::VerticalScan { threshold }, threshold, false, st, pkts, t);
}

/// Horizontal scan detection: of probes from one source to one port on
/// `n` different hosts, where no probe from that source to that port was
/// seen before, exactly one raises an alert when `n` exceeds the
/// threshold, none otherwise.
pub proof fn law_horizontal_scan_fires_once(threshold: u64, st: DetectState, pkts: Seq<ParsedPacket>, src: IpAddress, port: u16)
    requires
        forall|i: int| 0 <= i < pkts.len() ==> ((#[trigger] probe_of(pkts[i])) matches Some(q) && q.0 == src && q.2 == port),
        forall|i: int, j: int| 0 <= i < j < pkts.len() ==> #[trigger] pkts[i].dst_ip != #[trigger] pkts[j].dst_ip,
        forall|i: int| 0 <= i < st.3.len() ==> !(#[trigger] st.3[i].0 == src && st.3[i].2 == port),
    ensures
        run_all(Rule::HorizontalScan { threshold }, st, pkts).1 == (if pkts.len() > threshold { 1nat } else { 0nat }),
{
    let t: Probe = (src, src, port);
    assert(distinct_probes_in_group(pkts, t, true)) by {
        assert forall|i: int, j: int| 0 <= i < j < pkts.len() implies #[trigger] probe_of(pkts[i]) != #[trigger] probe_of(pkts[j]) by {
            assert(pkts[i].dst_ip != pkts[j].dst_ip);
        }
    }
    lemma_scan_run(Rule::HorizontalScan { threshold }, threshold, true, st, pkts, t);
}

/// The ports the suspicious-port rule watches: 4444, 31337, 1337, 6667,
/// 9001, 9030 and 14433.
pub open spec fn watched_port(p: u16) -> bool {
    p == 4444u16 || p == 31337u16 || p == 1337u16 || p == 6667u16 || p == 9001u16 || p == 9030u16 || p == 14433u16
}

/// The finding of the suspicious-port rule for destination port `p`.
pub open spec fn watched_port_finding(p: u16) -> Finding {
    (Severity::Medium, AlertCategory::SuspiciousPort, "Suspicious port "@ + decimal(p as nat))
}

/// Only the suspicious-port rule reports the `SuspiciousPort` category, and
/// it reports it for a watched destination port; it leaves what the rules
/// remember as it was.
proof fn lemma_port_rule(r: Rule, st: DetectState, pkt: ParsedPacket)
    ensures
        apply_rule(r, st, pkt).1 matches Some(f) ==> (f.1 == AlertCategory::SuspiciousPort ==> r == Rule::SuspPort && (pkt.dst_port matches Some(p) && watched_port(p) && f == watched_port_finding(p))),
        r == Rule::SuspPort ==> apply_rule(r, st, pkt).0 == st,
        r == Rule::SuspPort && (pkt.dst_port matches Some(p) && watched_port(p)) ==> apply_rule(r, st, pkt).1 == Some(watched_port_finding(pkt.dst_port->0)),
{
}

/// Running rules that include the suspicious-port rule on a packet to a
/// watched port reports that port, and a packet to any other port gets no
/// `SuspiciousPort` finding.
proof fn lemma_port_rule_in(rules: Seq<Rule>, st: DetectState, pkt: ParsedPacket)
    ensures
        rules.contains(Rule::SuspPort) && (pkt.dst_port matches Some(p) && watched_port(p)) ==> apply_rules(rules, st, pkt).1.contains(watched_port_finding(pkt.dst_port->0)),
        !(pkt.dst_port matches Some(p) && watched_port(p)) ==> forall|k: int| 0 <= k < apply_rules(rules, st, pkt).1.len() ==> (#[trigger] apply_rules(rules, st, pkt).1[k]).1 != AlertCategory::SuspiciousPort,
    decreases rules.len(),
{
    if rules.len() > 0 {
        let (s1, f) = apply_rule(rules[0], st, pkt);
        lemma_port_rule(rules[0], st, pkt);
        lemma_port_rule_in(rules.drop_first(), s1, pkt);
        let (s2, fs) = apply_rules(rules.drop_first(), s1, pkt);
        let all = apply_rules(rules, st, pkt).1;
        if rules.contains(Rule::SuspPort) && (pkt.dst_port matches Some(p) && watched_port(p)) {
            if rules[0] == Rule::SuspPort {
                assert(all[0] == watched_port_finding(pkt.dst_port->0));
            } else {
                let j = choose|j: int| 0 <= j < rules.len() && rules[j] == Rule::SuspPort;
                assert(rules.drop_first()[j - 1] == Rule::SuspPort);
                let k = choose|k: int| 0 <= k < fs.len() && fs[k] == watched_port_finding(pkt.dst_port->0);
                match f {
                    Some(x) => assert(all[k + 1] == fs[k]),
                    None => assert(all[k] == fs[k]),
                }
            }
        }
        if !(pkt.dst_port matches Some(p) && watched_port(p)) {
            assert forall|k: int| 0 <= k < all.len() implies (#[trigger] all[k]).1 != AlertCategory::SuspiciousPort by {
                match f {
                    Some(x) => {
                        if k > 0 {
                            assert(all[k] == fs[k - 1]);
                        }
                    },
                    None => assert(all[k] == fs[k]),
                }
            }
        }
    }
}

/// Suspicious ports: a packet to destination port 4444, 31337, 1337, 6667,
/// 9001, 9030 or 14433 makes the engine's rules report a Medium
/// `SuspiciousPort` finding "Suspicious port N"; a packet to any other port,
/// or with none, gets no `SuspiciousPort` finding.
pub proof fn law_suspicious_ports(st: DetectState, pkt: ParsedPacket)
    ensures
        (pkt.dst_port matches Some(p) && (p == 4444u16 || p == 31337u16 || p == 1337u16 || p == 6667u16 || p == 9001u16 || p == 9030u16 || p == 14433u16))
            ==> apply_rules(default_rules(), st, pkt).1.contains(
            (Severity::Medium, AlertCategory::SuspiciousPort, "Suspicious port "@ + decimal(pkt.dst_port->0 as nat)),
        ),
        !(pkt.dst_port matches Some(p) && (p == 4444u16 || p == 31337u16 || p == 1337u16 || p == 6667u16 || p == 9001u16 || p == 9030u16 || p == 14433u16))
            ==> forall|k: int| 0 <= k < apply_rules(default_rules(), st, pkt).1.len() ==> (#[trigger] apply_rules(default_rules(), st, pkt).1[k]).1 != AlertCategory::SuspiciousPort,
{
    assert(default_rules()[3] == Rule::SuspPort);
    lemma_port_rule_in(default_rules(), st, pkt);
}

/// `t` as a natural number.
pub open spec fn byte_nat(t: u8) -> nat {
    t as nat
}

/// The count one past `t`.
pub open spec fn past(t: u64) -> nat {
    t as nat + 1
}

/// The engine's rules and their thresholds: SYN flood past 200 SYNs from
/// one source, ICMP flood past 500 ICMP packets from one source, the TTL
/// rule, the suspicious-port rule, a vertical scan past 20 ports of one
/// host, a horizontal scan past 15 hosts on one port.
pub proof fn law_default_rule_thresholds()
    ensures
        default_rules().len() == 6,
        default_rules().contains(Rule::SynFlood { threshold: 200 }),
        default_rules().contains(Rule::IcmpFlood { threshold: 500 }),
        default_rules().contains(Rule::BadTtl),
        default_rules().contains(Rule::SuspPort),
        default_rules().contains(Rule::VerticalScan { threshold: 20 }),
        default_rules().contains(Rule::HorizontalScan { threshold: 15 }),
{
    assert(default_rules()[0] == Rule::SynFlood { threshold: 200 });
    assert(default_rules()[1] == Rule::IcmpFlood { threshold: 500 });
    assert(default_rules()[2] == Rule::BadTtl);
    assert(default_rules()[3] == Rule::SuspPort);
    assert(default_rules()[4] == Rule::VerticalScan { threshold: 20 });
    assert(default_rules()[5] == Rule::HorizontalScan { threshold: 15 });
}

/// Bad TTL: a packet that is not ICMP and carries a TTL of 0 or 1 is
/// reported Low, `AbnormalTtl`, "TTL=n"; one with a larger TTL, with none,
/// or over ICMP is not.
pub proof fn law_bad_ttl(st: DetectState, pkt: ParsedPacket)
    ensures
        pkt.l4 != Some(L4Protocol::Icmp) && (pkt.ttl matches Some(t) && t <= 1) ==> apply_rule(Rule::BadTtl, st, pkt).1
            == Some((Severity::Low, AlertCategory::AbnormalTtl, "TTL="@ + decimal(byte_nat(pkt.ttl->0)))),
        pkt.l4 == Some(L4Protocol::Icmp) || pkt.ttl is None || (pkt.ttl matches Some(t) && t > 1) ==> apply_rule(Rule::BadTtl, st, pkt).1 is None,
        apply_rule(Rule::BadTtl, st, pkt).0 == st,
{
}

/// The flood findings: a SYN flood is High, `SynFlood`, "SYN flood from
/// <source>: <count> SYNs"; an ICMP flood is Medium, `IcmpFlood`, "ICMP
/// flood from <source>".
pub proof fn law_flood_findings(st: DetectState, pkt: ParsedPacket, t: u64)
    ensures
        apply_rule(Rule::SynFlood { threshold: t }, st, pkt).1 matches Some(f) ==> f.0 == Severity::High && f.1 == AlertCategory::SynFlood
            && f.2 == "SYN flood from "@ + ip_text(pkt.src_ip->0) + ": "@ + decimal(past(t)) + " SYNs"@
            && pkt.l4 == Some(L4Protocol::Tcp) && pkt.flags.syn && !pkt.flags.ack,
        apply_rule(Rule::IcmpFlood { threshold: t }, st, pkt).1 matches Some(f) ==> f.0 == Severity::Medium && f.1 == AlertCategory::IcmpFlood
            && f.2 == "ICMP flood from "@ + ip_text(pkt.src_ip->0) && pkt.l4 == Some(L4Protocol::Icmp),
{
}

} // verus!
