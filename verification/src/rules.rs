//! Suricata-style rules: a subset of the rule syntax parsed from text, and
//! rules matched against decoded packets.
//!
//! ```text
//! alert <proto> <src_ip> <src_port> <dir> <dst_ip> <dst_port> \
//!     (msg:"<text>"; [content:"<bytes>";] sid:<n>; [rev:<n>;])
//! ```
//!
//! Only `alert` rules are loaded; lines with another action are refused.

use vstd::prelude::*;
use vstd::string::{StringExecFns, StrSliceExecFns};
use vstd::utf8::encode_utf8;
use crate::alert::{Alert, AlertCategory, Severity, Finding, describes};
use crate::clock::now_micros;
use crate::net::{IpAddress, ip_from_text};
use crate::packet::ParsedPacket;
use crate::protocol::L4Protocol;
use crate::text::{
    trim, words, trim_end_char, trim_char, first_occurrence, ascii_lowercase, parse_unsigned,
    decimal, chars_of, chars_window, string_of, push_chars, push_decimal, push_str, find,
    trim_window, word_windows, trim_end_char_window, trim_char_window, lowercase_chars,
    same_chars, parse_unsigned_window, line_windows, lines,
};

verus! {

/// Which transport protocol a rule applies to.
#[derive(Debug, Clone, Copy, PartialEq, Eq, Structural)]
pub enum ProtoMatch {
    Any,
    Tcp,
    Udp,
    Icmp,
}

impl ProtoMatch {
    pub open spec fn admits(self, l4: Option<L4Protocol>) -> bool {
        match self {
            ProtoMatch::Any => true,
            ProtoMatch::Tcp => l4 == Some(L4Protocol::Tcp),
            ProtoMatch::Udp => l4 == Some(L4Protocol::Udp),
            ProtoMatch::Icmp => l4 == Some(L4Protocol::Icmp),
        }
    }

    pub fn matches(&self, l4: Option<L4Protocol>) -> (r: bool)
        ensures
            r == self.admits(l4),
    {
        match self {
            ProtoMatch::Any => true,
            ProtoMatch::Tcp => matches!(l4, Some(L4Protocol::Tcp)),
            ProtoMatch::Udp => matches!(l4, Some(L4Protocol::Udp)),
            ProtoMatch::Icmp => matches!(l4, Some(L4Protocol::Icmp)),
        }
    }
}

/// Which address a rule applies to.
#[derive(Debug, Clone, Copy, PartialEq, Eq, Structural)]
pub enum AddrMatch {
    Any,
    Ip(IpAddress),
}

impl AddrMatch {
    pub open spec fn admits(self, addr: Option<IpAddress>) -> bool {
        match self {
            AddrMatch::Any => true,
            AddrMatch::Ip(ip) => addr == Some(ip),
        }
    }

    pub fn matches(&self, addr: Option<IpAddress>) -> (r: bool)
        ensures
            r == self.admits(addr),
    {
        match self {
            AddrMatch::Any => true,
            AddrMatch::Ip(ip) => crate::net::opt_ip_eq(addr, Some(*ip)),
        }
    }
}

/// Which port a rule applies to: any, one, or an inclusive range.
#[derive(Debug, Clone, Copy, PartialEq, Eq, Structural)]
pub enum PortMatch {
    Any,
    Port(u16),
    Range(u16, u16),
}

impl PortMatch {
    pub open spec fn admits(self, port: Option<u16>) -> bool {
        match self {
            PortMatch::Any => true,
            PortMatch::Port(p) => port == Some(p),
            PortMatch::Range(lo, hi) => port matches Some(p) && lo <= p && p <= hi,
        }
    }

    pub fn matches(&self, port: Option<u16>) -> (r: bool)
        ensures
            r == self.admits(port),
    {
        match self {
            PortMatch::Any => true,
            PortMatch::Port(p) => match port {
                Some(q) => q == *p,
                None => false,
            },
            PortMatch::Range(lo, hi) => match port {
                Some(q) => q >= *lo && q <= *hi,
                None => false,
            },
        }
    }
}

/// A loaded rule.
#[derive(Debug, Clone)]
pub struct SuricataRule {
    pub sid: u64,
    pub msg: String,
    pub proto: ProtoMatch,
    pub src: AddrMatch,
    pub src_port: PortMatch,
    pub dst: AddrMatch,
    pub dst_port: PortMatch,
    pub content: Option<Vec<u8>>,
}

/// A rule as values: signature id, message, protocol, source address and
/// port, destination address and port, content bytes.
pub type RuleView = (u64, Seq<char>, ProtoMatch, AddrMatch, PortMatch, AddrMatch, PortMatch, Option<Seq<u8>>);

pub open spec fn opt_bytes(c: Option<Vec<u8>>) -> Option<Seq<u8>> {
    match c {
        Some(v) => Some(v@),
        None => None,
    }
}

impl View for SuricataRule {
    type V = RuleView;

    open spec fn view(&self) -> RuleView {
        (self.sid, self.msg@, self.proto, self.src, self.src_port, self.dst, self.dst_port, opt_bytes(self.content))
    }
}

/// The rule applies to the packet: protocol, both addresses and both ports
/// match.
pub open spec fn rule_admits(r: RuleView, pkt: ParsedPacket) -> bool {
    &&& r.2.admits(pkt.l4)
    &&& r.3.admits(pkt.src_ip)
    &&& r.5.admits(pkt.dst_ip)
    &&& r.4.admits(pkt.src_port)
    &&& r.6.admits(pkt.dst_port)
}

/// The text of an alert raised by a rule.
pub open spec fn rule_message(sid: u64, msg: Seq<char>) -> Seq<char> {
    "[sid:"@ + decimal(sid as nat) + "] "@ + msg
}

/// What an alert raised by a rule reports.
pub open spec fn rule_finding(r: RuleView) -> Finding {
    (Severity::Medium, AlertCategory::SuspiciousPort, rule_message(r.0, r.1))
}

impl SuricataRule {
    /// Whether the rule applies to the packet.
    pub fn matches(&self, pkt: &ParsedPacket) -> (r: bool)
        ensures
            r == rule_admits(self@, *pkt),
    {
        if !self.proto.matches(pkt.l4) {
            return false;
        }
        if !self.src.matches(pkt.src_ip) {
            return false;
        }
        if !self.dst.matches(pkt.dst_ip) {
            return false;
        }
        if !self.src_port.matches(pkt.src_port) {
            return false;
        }
        if !self.dst_port.matches(pkt.dst_port) {
            return false;
        }
        true
    }

    /// The alert the rule raises for the packet, numbered 0 and stamped
    /// `now`.
    pub fn to_alert_at(&self, pkt: &ParsedPacket, now: i64) -> (a: Alert)
        ensures
            describes(a, rule_finding(self@), *pkt, now, 0),
    {
        let mut m = String::from_str("[sid:");
        push_decimal(&mut m, self.sid);
        push_str(&mut m, "] ");
        push_str(&mut m, self.msg.as_str());
        Alert {
            id: 0,
            timestamp: now,
            severity: Severity::Medium,
            category: AlertCategory::SuspiciousPort,
            message: m,
            src_ip: pkt.src_ip,
            dst_ip: pkt.dst_ip,
            src_port: pkt.src_port,
            dst_port: pkt.dst_port,
            proto: pkt.l4,
        }
    }

    /// The alert the rule raises for the packet, stamped with the current
    /// time.
    pub fn to_alert(&self, pkt: &ParsedPacket) -> (a: Alert)
        ensures
            describes(a, rule_finding(self@), *pkt, a.timestamp, 0),
    {
        self.to_alert_at(pkt, now_micros())
    }
}

/// The protocol a rule names: `tcp`, `udp` or `icmp` in any case, anything
/// else matching every protocol.
pub open spec fn proto_of(w: Seq<char>) -> ProtoMatch {
    let l = ascii_lowercase(w);
    if l == "tcp"@ {
        ProtoMatch::Tcp
    } else if l == "udp"@ {
        ProtoMatch::Udp
    } else if l == "icmp"@ {
        ProtoMatch::Icmp
    } else {
        ProtoMatch::Any
    }
}

/// The address a rule names: `any` and the network variables match every
/// address, an IP address matches itself, anything else every address.
pub open spec fn addr_of(w: Seq<char>) -> AddrMatch {
    if w == "any"@ || w == "$HOME_NET"@ || w == "$EXTERNAL_NET"@ {
        AddrMatch::Any
    } else {
        match ip_from_text(w) {
            Some(ip) => AddrMatch::Ip(ip),
            None => AddrMatch::Any,
        }
    }
}

/// A port number as `str::parse::<u16>` reads it.
pub open spec fn port_number(w: Seq<char>) -> Option<u16> {
    match parse_unsigned(w, 65535) {
        Some(n) => Some(n as u16),
        None => None,
    }
}

/// The port a rule names: `any`, a number, or `low:high`; anything else
/// matches every port.
pub open spec fn port_of(w: Seq<char>) -> PortMatch {
    if w == "any"@ {
        PortMatch::Any
    } else if port_number(w) is Some {
        PortMatch::Port(port_number(w)->0)
    } else {
        match first_occurrence(w, seq![':']) {
            Some(i) => {
                let lo = port_number(w.subrange(0, i));
                let hi = port_number(w.subrange(i + 1, w.len() as int));
                if lo is Some && hi is Some {
                    PortMatch::Range(lo->0, hi->0)
                } else {
                    PortMatch::Any
                }
            },
            None => PortMatch::Any,
        }
    }
}

/// The value of option `key` in the option text: what follows the first
/// `key:` up to the next `;` (or the end), trimmed.
pub open spec fn option_value(opts: Seq<char>, key: Seq<char>) -> Option<Seq<char>> {
    let needle = key.push(':');
    match first_occurrence(opts, needle) {
        Some(i) => {
            let rest = opts.subrange(i + needle.len(), opts.len() as int);
            let end = match first_occurrence(rest, seq![';']) {
                Some(j) => j,
                None => rest.len() as int,
            };
            Some(trim(rest.subrange(0, end)))
        },
        None => None,
    }
}

/// The signature id: the `sid` option read as a number, else 0.
pub open spec fn sid_of(opts: Seq<char>) -> u64 {
    match option_value(opts, "sid"@) {
        Some(v) => match parse_unsigned(v, u64::MAX as nat) {
            Some(n) => n as u64,
            None => 0,
        },
        None => 0,
    }
}

/// The message: the `msg` option without its quotes, else empty.
pub open spec fn msg_of(opts: Seq<char>) -> Seq<char> {
    match option_value(opts, "msg"@) {
        Some(v) => trim_char(v, '"'),
        None => Seq::empty(),
    }
}

/// The content: the UTF-8 bytes of the `content` option without its
/// quotes, if the option is there.
pub open spec fn content_of(opts: Seq<char>) -> Option<Seq<u8>> {
    match option_value(opts, "content"@) {
        Some(v) => Some(encode_utf8(trim_char(v, '"'))),
        None => None,
    }
}

/// The header of a rule line whose option list opens at `p`.
pub open spec fn header_of(s: Seq<char>, p: int) -> Seq<char> {
    trim(s.subrange(0, p))
}

/// The option text of a rule line whose option list opens at `p`: after the
/// parenthesis, closing parentheses and white space removed at the end.
pub open spec fn options_of(s: Seq<char>, p: int) -> Seq<char> {
    trim(trim_end_char(s.subrange(p + 1, s.len() as int), ')'))
}

/// The rule made of the header words and the option text.
pub open spec fn rule_from(parts: Seq<Seq<char>>, opts: Seq<char>) -> RuleView {
    (
        sid_of(opts),
        msg_of(opts),
        proto_of(parts[1]),
        addr_of(parts[2]),
        port_of(parts[3]),
        addr_of(parts[5]),
        port_of(parts[6]),
        content_of(opts),
    )
}

/// The rule a line denotes: it needs an opening parenthesis and at least
/// seven header words (action, protocol, source, source port, direction,
/// destination, destination port), and only `alert` rules are loaded.
pub open spec fn rule_of(s: Seq<char>) -> Option<RuleView> {
    match first_occurrence(s, seq!['(']) {
        Some(p) => {
            let parts = words(header_of(s, p));
            if parts.len() < 7 {
                None
            } else if parts[0] != "alert"@ {
                None
            } else {
                Some(rule_from(parts, options_of(s, p)))
            }
        },
        None => None,
    }
}

fn parse_proto(w: &[char]) -> (r: ProtoMatch)
    ensures
        r == proto_of(w@),
{
    let l = lowercase_chars(w);
    if same_chars(l.as_slice(), "tcp") {
        ProtoMatch::Tcp
    } else if same_chars(l.as_slice(), "udp") {
        ProtoMatch::Udp
    } else if same_chars(l.as_slice(), "icmp") {
        ProtoMatch::Icmp
    } else {
        ProtoMatch::Any
    }
}

fn parse_addr(cs: &[char], lo: usize, hi: usize) -> (r: AddrMatch)
    requires
        lo <= hi <= cs@.len(),
    ensures
        r == addr_of(cs@.subrange(lo as int, hi as int)),
{
    let w = chars_window(cs, lo, hi);
    if same_chars(w.as_slice(), "any") || same_chars(w.as_slice(), "$HOME_NET") || same_chars(w.as_slice(), "$EXTERNAL_NET") {
        return AddrMatch::Any;
    }
    let s = string_of(cs, lo, hi);
    match IpAddress::parse(s.as_str()) {
        Some(ip) => AddrMatch::Ip(ip),
        None => AddrMatch::Any,
    }
}

fn port_in(cs: &[char], lo: usize, hi: usize) -> (r: Option<u16>)
    requires
        lo <= hi <= cs@.len(),
    ensures
        r == port_number(cs@.subrange(lo as int, hi as int)),
{
    match parse_unsigned_window(cs, lo, hi, 65535) {
        Some(n) => Some(n as u16),
        None => None,
    }
}

fn parse_port(cs: &[char], lo: usize, hi: usize) -> (r: PortMatch)
    requires
        lo <= hi <= cs@.len(),
    ensures
        r == port_of(cs@.subrange(lo as int, hi as int)),
{
    let w = chars_window(cs, lo, hi);
    if same_chars(w.as_slice(), "any") {
        return PortMatch::Any;
    }
    if let Some(p) = port_in(cs, lo, hi) {
        return PortMatch::Port(p);
    }
    let mut colon: Vec<char> = Vec::new();
    colon.push(':');
    assert(colon@ =~= seq![':']);
    assert(w@ == cs@.subrange(lo as int, hi as int));
    match find(w.as_slice(), colon.as_slice()) {
        Some(i) => {
            proof {
                assert(w@.subrange(0, i as int) == cs@.subrange(lo as int, lo + i));
                assert(w@.subrange(i + 1, w@.len() as int) == cs@.subrange(lo + i + 1, hi as int));
            }
            let l = port_in(w.as_slice(), 0, i);
            let h = port_in(w.as_slice(), i + 1, w.len());
            match (l, h) {
                (Some(a), Some(b)) => PortMatch::Range(a, b),
                _ => PortMatch::Any,
            }
        },
        None => PortMatch::Any,
    }
}

/// The bounds in `opts` of the value of option `key`.
fn extract_opt(opts: &[char], key: &str) -> (r: Option<(usize, usize)>)
    ensures
        match option_value(opts@, key@) {
            Some(v) => r matches Some(w) && w.0 <= w.1 <= opts@.len() && opts@.subrange(w.0 as int, w.1 as int) == v,
            None => r is None,
        },
{
    let mut needle = chars_of(key);
    needle.push(':');
    match find(opts, needle.as_slice()) {
        Some(i) => {
            let n = opts.len();
            assert(i + needle@.len() <= n);
            let start = i + needle.len();
            let rest = chars_window(opts, start, opts.len());
            let mut semi: Vec<char> = Vec::new();
            semi.push(';');
            assert(semi@ =~= seq![';']);
            let end = match find(rest.as_slice(), semi.as_slice()) {
                Some(j) => start + j,
                None => opts.len(),
            };
            proof {
                assert(rest@.subrange(0, end - start) == opts@.subrange(start as int, end as int));
            }
            let w = trim_window(opts, start, end);
            Some(w)
        },
        None => None,
    }
}

/// The error text for a line that does not parse: no option list, too
/// few header words, or an action other than `alert`.
pub open spec fn rule_error(s: Seq<char>) -> Seq<char> {
    match first_occurrence(s, seq!['(']) {
        None => "missing '('"@,
        Some(p) => if words(header_of(s, p)).len() < 7 {
            "short header: "@ + s
        } else {
            "not an alert rule: "@ + s
        },
    }
}

fn parse_rule_window(cs: &[char], lo: usize, hi: usize) -> (r: Result<SuricataRule, String>)
    requires
        lo <= hi <= cs@.len(),
    ensures
        match rule_of(cs@.subrange(lo as int, hi as int)) {
            Some(v) => r matches Ok(rule) && rule@ == v,
            None => r matches Err(e) && e@ == rule_error(cs@.subrange(lo as int, hi as int)),
        },
{
    let ghost s = cs@.subrange(lo as int, hi as int);
    let line = chars_window(cs, lo, hi);
    let mut open: Vec<char> = Vec::new();
    open.push('(');
    assert(open@ =~= seq!['(']);
    let p = match find(line.as_slice(), open.as_slice()) {
        Some(p) => p,
        None => {
            return Err(String::from_str("missing '('"));
        },
    };
    let n = line.len();
    assert(p + 1 <= n);
    let (h0, h1) = trim_window(line.as_slice(), 0, p);
    let e = trim_end_char_window(line.as_slice(), p + 1, n, ')');
    let (o0, o1) = trim_window(line.as_slice(), p + 1, e);
    let opts = chars_window(line.as_slice(), o0, o1);
    let parts = word_windows(line.as_slice(), h0, h1);
    let ghost header = header_of(s, p as int);
    let ghost ws = words(header);
    assert(line@.subrange(h0 as int, h1 as int) == header);
    assert(opts@ == options_of(s, p as int));
    if parts.len() < 7 {
        let mut m = String::from_str("short header: ");
        push_chars(&mut m, cs, lo, hi);
        return Err(m);
    }
    let w0 = chars_window(line.as_slice(), parts[0].0, parts[0].1);
    if !same_chars(w0.as_slice(), "alert") {
        let mut m = String::from_str("not an alert rule: ");
        push_chars(&mut m, cs, lo, hi);
        return Err(m);
    }
    let w1 = chars_window(line.as_slice(), parts[1].0, parts[1].1);
    let proto = parse_proto(w1.as_slice());
    let src = parse_addr(line.as_slice(), parts[2].0, parts[2].1);
    let src_port = parse_port(line.as_slice(), parts[3].0, parts[3].1);
    let dst = parse_addr(line.as_slice(), parts[5].0, parts[5].1);
    let dst_port = parse_port(line.as_slice(), parts[6].0, parts[6].1);
    let msg = match extract_opt(opts.as_slice(), "msg") {
        Some((a, b)) => {
            let (x, y) = trim_char_window(opts.as_slice(), a, b, '"');
            string_of(opts.as_slice(), x, y)
        },
        None => String::new(),
    };
    let sid = match extract_opt(opts.as_slice(), "sid") {
        Some((a, b)) => match parse_unsigned_window(opts.as_slice(), a, b, u64::MAX) {
            Some(v) => v,
            None => 0,
        },
        None => 0,
    };
    let content = match extract_opt(opts.as_slice(), "content") {
        Some((a, b)) => {
            let (x, y) = trim_char_window(opts.as_slice(), a, b, '"');
            let t = string_of(opts.as_slice(), x, y);
            Some(t.as_str().as_bytes_vec())
        },
        None => None,
    };
    let rule = SuricataRule { sid, msg, proto, src, src_port, dst, dst_port, content };
    assert(rule@ == rule_from(ws, options_of(s, p as int)));
    Ok(rule)
}

/// Parses one rule line.
pub fn parse_rule(s: &str) -> (r: Result<SuricataRule, String>)
    ensures
        match rule_of(s@) {
            Some(v) => r matches Ok(rule) && rule@ == v,
            None => r matches Err(e) && e@ == rule_error(s@),
        },
{
    let cs = chars_of(s);
    assert(cs@.subrange(0, cs@.len() as int) == cs@);
    parse_rule_window(cs.as_slice(), 0, cs.len())
}

/// The rules of a rule file's lines, in order: each line trimmed; empty
/// lines, lines starting with `#`, and lines that do not parse skipped.
pub open spec fn loaded_rules(ls: Seq<Seq<char>>) -> Seq<RuleView>
    decreases ls.len(),
{
    if ls.len() == 0 {
        Seq::empty()
    } else {
        let prev = loaded_rules(ls.drop_last());
        let t = trim(ls.last());
        if t.len() > 0 && t[0] != '#' && rule_of(t) is Some {
            prev.push(rule_of(t)->0)
        } else {
            prev
        }
    }
}

/// The rules held in the text of a rule file.
pub fn parse_rules(text: &str) -> (r: Vec<SuricataRule>)
    ensures
        r@.len() == loaded_rules(lines(text@)).len(),
        forall|i: int| 0 <= i < r@.len() ==> (#[trigger] r@[i])@ == loaded_rules(lines(text@))[i],
{
    let cs = chars_of(text);
    let ws = line_windows(cs.as_slice());
    let ghost ls = lines(text@);
    let mut out: Vec<SuricataRule> = Vec::new();
    let mut k: usize = 0;
    while k < ws.len()
        invariant
            cs@ == text@,
            ls == lines(cs@),
            ws@.len() == ls.len(),
            forall|i: int| 0 <= i < ws@.len() ==> #[trigger] ws@[i].0 <= ws@[i].1 <= cs@.len(),
            forall|i: int| 0 <= i < ws@.len() ==> cs@.subrange(#[trigger] ws@[i].0 as int, ws@[i].1 as int) == ls[i],
            k <= ws@.len(),
            out@.len() == loaded_rules(ls.subrange(0, k as int)).len(),
            forall|i: int| 0 <= i < out@.len() ==> (#[trigger] out@[i])@ == loaded_rules(ls.subrange(0, k as int))[i],
        decreases ws@.len() - k,
    {
        let (a, b) = ws[k];
        assert(a <= b <= cs@.len());
        let (ta, tb) = trim_window(cs.as_slice(), a, b);
        let ghost t = trim(ls[k as int]);
        assert(cs@.subrange(ta as int, tb as int) == t);
        assert(ls.subrange(0, k + 1).drop_last() == ls.subrange(0, k as int));
        assert(ls.subrange(0, k + 1).last() == ls[k as int]);
        let ghost before = out@;
        if ta < tb && cs[ta] != '#' {
            assert(t[0] == cs@[ta as int]);
            match parse_rule_window(cs.as_slice(), ta, tb) {
                Ok(rule) => {
                    out.push(rule);
                    proof {
                        assert forall|i: int| 0 <= i < out@.len() implies (#[trigger] out@[i])@ == loaded_rules(ls.subrange(0, k + 1))[i] by {
                            if i < before.len() {
                                assert(out@[i] == before[i]);
                            }
                        }
                    }
                },
                Err(_) => {},
            }
        } else {
            if ta < tb {
                assert(t[0] == cs@[ta as int]);
            }
        }
        k = k + 1;
    }
    assert(ls.subrange(0, ws@.len() as int) == ls);
    out
}

/// Loaded rules used as one detector: the first rule that applies raises
/// the alert.
pub struct SuricataRuleSet {
    rules: Vec<SuricataRule>,
}

impl SuricataRuleSet {
    /// The rules, in the order they are tried.
    pub closed spec fn rule_list(&self) -> Seq<RuleView> {
        self.rules@.map_values(|x: SuricataRule| x@)
    }

    pub fn new(rules: Vec<SuricataRule>) -> (r: Self)
        ensures
            r.rule_list() == rules@.map_values(|x: SuricataRule| x@),
    {
        SuricataRuleSet { rules }
    }

    /// The alert of the first rule that applies to the packet, stamped
    /// `now`; `None` where no rule applies.
    pub fn check_at(&self, pkt: &ParsedPacket, now: i64) -> (r: Option<Alert>)
        ensures
            match r {
                Some(a) => exists|i: int|
                    0 <= i < self.rule_list().len()
                    && rule_admits(#[trigger] self.rule_list()[i], *pkt)
                    && (forall|j: int| 0 <= j < i ==> !rule_admits(self.rule_list()[j], *pkt))
                    && describes(a, rule_finding(self.rule_list()[i]), *pkt, now, 0),
                None => forall|i: int| 0 <= i < self.rule_list().len() ==> !rule_admits(#[trigger] self.rule_list()[i], *pkt),
            },
    {
        let mut i: usize = 0;
        while i < self.rules.len()
            invariant
                i <= self.rules@.len(),
                forall|j: int| 0 <= j < i ==> !rule_admits(#[trigger] self.rule_list()[j], *pkt),
            decreases self.rules@.len() - i,
        {
            if self.rules[i].matches(pkt) {
                let a = self.rules[i].to_alert_at(pkt, now);
                assert(self.rule_list()[i as int] == self.rules@[i as int]@);
                return Some(a);
            }
            assert(self.rule_list()[i as int] == self.rules@[i as int]@);
            i = i + 1;
        }
        None
    }

    /// As `check_at`, stamped with the current time.
    pub fn check(&self, pkt: &ParsedPacket) -> (r: Option<Alert>)
        ensures
            match r {
                Some(a) => exists|i: int|
                    0 <= i < self.rule_list().len()
                    && rule_admits(#[trigger] self.rule_list()[i], *pkt)
                    && (forall|j: int| 0 <= j < i ==> !rule_admits(self.rule_list()[j], *pkt))
                    && describes(a, rule_finding(self.rule_list()[i]), *pkt, a.timestamp, 0),
                None => forall|i: int| 0 <= i < self.rule_list().len() ==> !rule_admits(#[trigger] self.rule_list()[i], *pkt),
            },
    {
        self.check_at(pkt, now_micros())
    }
}

/// A rule that names no protocol, address or port applies to every packet.
pub proof fn law_unrestricted_rule_applies(sid: u64, msg: Seq<char>, content: Option<Seq<u8>>, pkt: ParsedPacket)
    ensures
        rule_admits((sid, msg, ProtoMatch::Any, AddrMatch::Any, PortMatch::Any, AddrMatch::Any, PortMatch::Any, content), pkt),
{
}


/// A rule applies to a packet exactly when every header field it names
/// agrees with the packet: its protocol, its source and destination
/// addresses, and its source and destination ports or port ranges
/// (inclusive); a field given as `any` agrees with every packet.
pub proof fn law_rule_header_fields(r: RuleView, pkt: ParsedPacket)
    ensures
        rule_admits(r, pkt) <==> {
            &&& (r.2 == ProtoMatch::Tcp ==> pkt.l4 == Some(L4Protocol::Tcp))
            &&& (r.2 == ProtoMatch::Udp ==> pkt.l4 == Some(L4Protocol::Udp))
            &&& (r.2 == ProtoMatch::Icmp ==> pkt.l4 == Some(L4Protocol::Icmp))
            &&& (forall|a: IpAddress| r.3 == AddrMatch::Ip(a) ==> pkt.src_ip == Some(a))
            &&& (forall|a: IpAddress| r.5 == AddrMatch::Ip(a) ==> pkt.dst_ip == Some(a))
            &&& (forall|p: u16| r.4 == PortMatch::Port(p) ==> pkt.src_port == Some(p))
            &&& (forall|p: u16| r.6 == PortMatch::Port(p) ==> pkt.dst_port == Some(p))
            &&& (forall|lo: u16, hi: u16| r.4 == PortMatch::Range(lo, hi) ==> (pkt.src_port matches Some(q) && lo <= q <= hi))
            &&& (forall|lo: u16, hi: u16| r.6 == PortMatch::Range(lo, hi) ==> (pkt.dst_port matches Some(q) && lo <= q <= hi))
        },
{
    match r.3 {
        AddrMatch::Ip(a) => assert(r.3 == AddrMatch::Ip(a)),
        _ => {},
    }
    match r.5 {
        AddrMatch::Ip(a) => assert(r.5 == AddrMatch::Ip(a)),
        _ => {},
    }
    match r.4 {
        PortMatch::Port(p) => assert(r.4 == PortMatch::Port(p)),
        PortMatch::Range(lo, hi) => assert(r.4 == PortMatch::Range(lo, hi)),
        _ => {},
    }
    match r.6 {
        PortMatch::Port(p) => assert(r.6 == PortMatch::Port(p)),
        PortMatch::Range(lo, hi) => assert(r.6 == PortMatch::Range(lo, hi)),
        _ => {},
    }
}

/// A rule that names a source address does not apply to a packet from
/// another source, nor one that names a destination address to a packet
/// for another destination.
pub proof fn law_rule_addresses_bind(r: RuleView, pkt: ParsedPacket, a: IpAddress)
    ensures
        r.3 == AddrMatch::Ip(a) && pkt.src_ip != Some(a) ==> !rule_admits(r, pkt),
        r.5 == AddrMatch::Ip(a) && pkt.dst_ip != Some(a) ==> !rule_admits(r, pkt),
{
}

} // verus!
