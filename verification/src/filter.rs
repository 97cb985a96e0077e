//! Packet filters: the filter traits, a pass-through filter, and the
//! Wireshark-style display-filter language.
//!
//! Display filters are parsed character by character; positions in error
//! values and split points count characters.

use vstd::prelude::*;
use vstd::string::StringExecFns;
use crate::error::ArwahError;
use crate::net::{IpAddress, ip_from_text, opt_ip_eq};
use crate::packet::ParsedPacket;
use crate::protocol::{AppProtocol, L4Protocol};
use crate::text::{window, chars_of, has_prefix, is_white_space, matches_at, occurs_at, parse_unsigned, parse_unsigned_window, push_chars, string_of, trim, trim_end, trim_start, trim_window};

verus! {

/// A compiled packet filter that can be applied to parsed packets.
pub trait PacketFilter {
    /// Returns `true` if the packet should be kept (passes the filter).
    fn matches(&self, packet: &ParsedPacket) -> bool;
}

/// A factory that compiles a filter expression string into a [`PacketFilter`].
pub trait FilterCompiler {
    type Filter: PacketFilter;

    /// Compile `expr` into an executable filter, returning an error if the
    /// syntax is invalid.
    fn compile(&self, expr: &str) -> Result<Self::Filter, ArwahError>;
}

/// A pass-through filter that accepts every packet.
#[derive(Debug, Clone, Copy)]
pub struct AcceptAll;

impl PacketFilter for AcceptAll {
    fn matches(&self, _packet: &ParsedPacket) -> (r: bool)
        ensures
            r,
    {
        true
    }
}

/// A display-filter predicate.
#[derive(Debug)]
pub enum FilterPredicate {
    Proto(L4Protocol),
    App(AppProtocol),
    SrcIp(IpAddress),
    DstIp(IpAddress),
    Port(u16),
    SrcPort(u16),
    DstPort(u16),
    And(Box<FilterPredicate>, Box<FilterPredicate>),
    Or(Box<FilterPredicate>, Box<FilterPredicate>),
    Not(Box<FilterPredicate>),
}

/// Whether `pkt` satisfies `p`.
pub open spec fn holds(p: FilterPredicate, pkt: ParsedPacket) -> bool
    decreases p,
{
    match p {
        FilterPredicate::Proto(q) => pkt.l4 == Some(q),
        FilterPredicate::App(a) => pkt.app == a,
        FilterPredicate::SrcIp(ip) => pkt.src_ip == Some(ip),
        FilterPredicate::DstIp(ip) => pkt.dst_ip == Some(ip),
        FilterPredicate::Port(q) => pkt.src_port == Some(q) || pkt.dst_port == Some(q),
        FilterPredicate::SrcPort(q) => pkt.src_port == Some(q),
        FilterPredicate::DstPort(q) => pkt.dst_port == Some(q),
        FilterPredicate::And(a, b) => holds(*a, pkt) && holds(*b, pkt),
        FilterPredicate::Or(a, b) => holds(*a, pkt) || holds(*b, pkt),
        FilterPredicate::Not(a) => !holds(*a, pkt),
    }
}

/// A syntax error: position and message.
pub type SyntaxError = (usize, Seq<char>);

/// Parenthesis depth after the first `k` characters of `s`; a `)` never
/// takes it below zero.
pub open spec fn depth_after(s: Seq<char>, k: int) -> nat
    decreases k,
{
    if k <= 0 {
        0
    } else {
        let d = depth_after(s, k - 1);
        if s[k - 1] == '(' {
            d + 1
        } else if s[k - 1] == ')' {
            if d == 0 {
                0
            } else {
                (d - 1) as nat
            }
        } else {
            d
        }
    }
}

/// `needle` occurs in `s` at `i`, outside parentheses.
pub open spec fn splits_at(s: Seq<char>, needle: Seq<char>, i: int) -> bool {
    &&& 0 <= i <= s.len() - needle.len()
    &&& depth_after(s, i + 1) == 0
    &&& occurs_at(s, needle, i)
}

/// The first position where `needle` splits `s` at the top level.
pub open spec fn top_split(s: Seq<char>, needle: Seq<char>) -> Option<int> {
    if exists|i: int| splits_at(s, needle, i) {
        Some(choose|i: int| splits_at(s, needle, i) && forall|j: int| 0 <= j < i ==> !splits_at(s, needle, j))
    } else {
        None
    }
}

proof fn lemma_first_split(s: Seq<char>, needle: Seq<char>, k: int)
    requires
        splits_at(s, needle, k),
    ensures
        exists|w: int| splits_at(s, needle, w) && forall|j: int| 0 <= j < w ==> !splits_at(s, needle, j),
    decreases k,
{
    if exists|j: int| 0 <= j < k && splits_at(s, needle, j) {
        let j = choose|j: int| 0 <= j < k && splits_at(s, needle, j);
        lemma_first_split(s, needle, j);
    } else {
        assert(splits_at(s, needle, k) && forall|j: int| 0 <= j < k ==> !splits_at(s, needle, j));
    }
}

/// A top-level split position is a genuine split, and the first one.
pub proof fn lemma_top_split(s: Seq<char>, needle: Seq<char>)
    ensures
        top_split(s, needle) matches Some(i) ==> splits_at(s, needle, i) && forall|j: int| 0 <= j < i ==> !splits_at(s, needle, j),
{
    if exists|i: int| splits_at(s, needle, i) {
        let i = choose|i: int| splits_at(s, needle, i);
        lemma_first_split(s, needle, i);
    }
}

pub open spec fn rest_after(s: Seq<char>, p: Seq<char>) -> Seq<char> {
    s.subrange(p.len() as int, s.len() as int)
}

/// The predicate a protocol keyword stands for.
pub open spec fn keyword_spec(s: Seq<char>) -> Option<FilterPredicate> {
    if s == "tcp"@ {
        Some(FilterPredicate::Proto(L4Protocol::Tcp))
    } else if s == "udp"@ {
        Some(FilterPredicate::Proto(L4Protocol::Udp))
    } else if s == "icmp"@ {
        Some(FilterPredicate::Proto(L4Protocol::Icmp))
    } else if s == "http"@ {
        Some(FilterPredicate::App(AppProtocol::Http))
    } else if s == "https"@ {
        Some(FilterPredicate::App(AppProtocol::Https))
    } else if s == "dns"@ {
        Some(FilterPredicate::App(AppProtocol::Dns))
    } else if s == "ssh"@ {
        Some(FilterPredicate::App(AppProtocol::Ssh))
    } else if s == "ftp"@ {
        Some(FilterPredicate::App(AppProtocol::Ftp))
    } else {
        None
    }
}

/// A single predicate: a protocol keyword or a `field == value` comparison.
pub open spec fn parse_atom_spec(s: Seq<char>) -> Result<FilterPredicate, SyntaxError> {
    if keyword_spec(s) is Some {
        Ok(keyword_spec(s)->0)
    } else if has_prefix(s, "ip.src == "@) {
        let rhs = rest_after(s, "ip.src == "@);
        match ip_from_text(trim(rhs)) {
            Some(ip) => Ok(FilterPredicate::SrcIp(ip)),
            None => Err((7usize, "invalid IP address: "@ + rhs)),
        }
    } else if has_prefix(s, "ip.dst == "@) {
        let rhs = rest_after(s, "ip.dst == "@);
        match ip_from_text(trim(rhs)) {
            Some(ip) => Ok(FilterPredicate::DstIp(ip)),
            None => Err((7usize, "invalid IP address: "@ + rhs)),
        }
    } else if has_prefix(s, "port == "@) {
        let rhs = rest_after(s, "port == "@);
        match parse_unsigned(trim(rhs), 0xffff) {
            Some(v) => Ok(FilterPredicate::Port(v as u16)),
            None => Err((7usize, "invalid port: "@ + rhs)),
        }
    } else if has_prefix(s, "src.port == "@) {
        let rhs = rest_after(s, "src.port == "@);
        match parse_unsigned(trim(rhs), 0xffff) {
            Some(v) => Ok(FilterPredicate::SrcPort(v as u16)),
            None => Err((11usize, "invalid port: "@ + rhs)),
        }
    } else if has_prefix(s, "dst.port == "@) {
        let rhs = rest_after(s, "dst.port == "@);
        match parse_unsigned(trim(rhs), 0xffff) {
            Some(v) => Ok(FilterPredicate::DstPort(v as u16)),
            None => Err((11usize, "invalid port: "@ + rhs)),
        }
    } else {
        Err((0usize, "unknown filter expression: '"@ + s + "'"@))
    }
}

pub proof fn lemma_trim_start_len(s: Seq<char>)
    ensures
        trim_start(s).len() <= s.len(),
    decreases s.len(),
{
    if s.len() > 0 && is_white_space(s[0]) {
        lemma_trim_start_len(s.drop_first());
    }
}

pub proof fn lemma_trim_end_len(s: Seq<char>)
    ensures
        trim_end(s).len() <= s.len(),
    decreases s.len(),
{
    if s.len() > 0 && is_white_space(s.last()) {
        lemma_trim_end_len(s.drop_last());
    }
}

pub proof fn lemma_trim_len(s: Seq<char>)
    ensures
        trim(s).len() <= s.len(),
{
    lemma_trim_start_len(s);
    lemma_trim_end_len(trim_start(s));
}

/// Combines the two sides of a binary operator, the left side's error first.
pub open spec fn combine(
    l: Result<FilterPredicate, SyntaxError>,
    r: Result<FilterPredicate, SyntaxError>,
    is_or: bool,
) -> Result<FilterPredicate, SyntaxError> {
    match l {
        Err(e) => Err(e),
        Ok(a) => match r {
            Err(e) => Err(e),
            Ok(b) => if is_or {
                Ok(FilterPredicate::Or(Box::new(a), Box::new(b)))
            } else {
                Ok(FilterPredicate::And(Box::new(a), Box::new(b)))
            },
        },
    }
}

/// A whole expression: split at the first top-level ` or `, else at the
/// first top-level ` and `, else a leading `not `, else a single predicate.
#[verifier::opaque]
pub open spec fn parse_expr_spec(s: Seq<char>) -> Result<FilterPredicate, SyntaxError>
    decreases s.len(),
{
    match top_split(s, " or "@) {
        Some(i) => {
            proof {
                reveal_strlit(" or ");
                lemma_top_split(s, " or "@);
                lemma_trim_len(s.subrange(0, i));
                lemma_trim_len(s.subrange(i + " or "@.len(), s.len() as int));
            }
            combine(
                parse_expr_spec(trim(s.subrange(0, i))),
                parse_expr_spec(trim(s.subrange(i + " or "@.len(), s.len() as int))),
                true,
            )
        },
        None => match top_split(s, " and "@) {
            Some(i) => {
                proof {
                    reveal_strlit(" and ");
                    lemma_top_split(s, " and "@);
                    lemma_trim_len(s.subrange(0, i));
                    lemma_trim_len(s.subrange(i + " and "@.len(), s.len() as int));
                }
                combine(
                    parse_expr_spec(trim(s.subrange(0, i))),
                    parse_expr_spec(trim(s.subrange(i + " and "@.len(), s.len() as int))),
                    false,
                )
            },
            None => if has_prefix(s, "not "@) {
                proof {
                    reveal_strlit("not ");
                    lemma_trim_len(rest_after(s, "not "@));
                }
                match parse_expr_spec(trim(rest_after(s, "not "@))) {
                    Ok(p) => Ok(FilterPredicate::Not(Box::new(p))),
                    Err(e) => Err(e),
                }
            } else {
                parse_atom_spec(s)
            },
        },
    }
}

/// What parsing `expr` gives: the predicate of the trimmed text.
pub open spec fn parse_filter_spec(expr: Seq<char>) -> Result<FilterPredicate, SyntaxError> {
    parse_expr_spec(trim(expr))
}

/// Display-filter expression for post-capture filtering.
///
/// Supported predicates (combinable with `and`/`or`/`not`):
/// - `tcp`, `udp`, `icmp`
/// - `http`, `https`, `dns`, `ssh`, `ftp`
/// - `ip.src == 1.2.3.4`, `ip.dst == 1.2.3.4`
/// - `port == 443`, `src.port == 80`, `dst.port == 80`
#[derive(Debug)]
pub struct DisplayFilter {
    pub expr: String,
    pub predicate: FilterPredicate,
}

/// `r` is the outcome `spec` describes.
pub open spec fn parse_outcome(
    r: Result<FilterPredicate, ArwahError>,
    spec: Result<FilterPredicate, SyntaxError>,
) -> bool {
    match spec {
        Ok(p) => r matches Ok(q) && q == p,
        Err((pos, msg)) => r matches Err(ArwahError::FilterSyntax { pos: q, msg: m }) && q == pos
            && m@ == msg,
    }
}

impl DisplayFilter {
    /// Parses a display filter.
    pub fn parse(expr: &str) -> (r: Result<Self, ArwahError>)
        ensures
            match parse_filter_spec(expr@) {
                Ok(p) => r matches Ok(f) && f.predicate == p && f.expr@ == expr@,
                Err((pos, msg)) => r matches Err(ArwahError::FilterSyntax { pos: q, msg: m })
                    && q == pos && m@ == msg,
            },
    {
        let cs = chars_of(expr);
        let (lo, hi) = trim_window(cs.as_slice(), 0, cs.len());
        assert(cs@.subrange(0, cs@.len() as int) == cs@);
        match parse_expr(cs.as_slice(), lo, hi) {
            Ok(p) => Ok(DisplayFilter { expr: String::from_str(expr), predicate: p }),
            Err(e) => Err(e),
        }
    }

    /// The text the filter was parsed from.
    pub fn expression(&self) -> (r: &str)
        ensures
            r@ == self.expr@,
    {
        self.expr.as_str()
    }
}

impl PacketFilter for DisplayFilter {
    fn matches(&self, pkt: &ParsedPacket) -> (r: bool)
        ensures
            r == holds(self.predicate, *pkt),
    {
        eval(&self.predicate, pkt)
    }
}

fn opt_u16_eq(a: Option<u16>, b: u16) -> (r: bool)
    ensures
        r == (a == Some(b)),
{
    match a {
        Some(x) => x == b,
        None => false,
    }
}

fn eval(pred: &FilterPredicate, pkt: &ParsedPacket) -> (r: bool)
    ensures
        r == holds(*pred, *pkt),
    decreases pred,
{
    match pred {
        FilterPredicate::Proto(p) => match pkt.l4 {
            Some(q) => q == *p,
            None => false,
        },
        FilterPredicate::App(a) => pkt.app == *a,
        FilterPredicate::SrcIp(ip) => opt_ip_eq(pkt.src_ip, Some(*ip)),
        FilterPredicate::DstIp(ip) => opt_ip_eq(pkt.dst_ip, Some(*ip)),
        FilterPredicate::Port(p) => opt_u16_eq(pkt.src_port, *p) || opt_u16_eq(pkt.dst_port, *p),
        FilterPredicate::SrcPort(p) => opt_u16_eq(pkt.src_port, *p),
        FilterPredicate::DstPort(p) => opt_u16_eq(pkt.dst_port, *p),
        FilterPredicate::And(a, b) => eval(a, pkt) && eval(b, pkt),
        FilterPredicate::Or(a, b) => eval(a, pkt) || eval(b, pkt),
        FilterPredicate::Not(inner) => !eval(inner, pkt),
    }
}

proof fn lemma_occurs_window(cs: Seq<char>, lo: int, hi: int, p: Seq<char>, i: int)
    requires
        0 <= lo <= hi <= cs.len(),
        0 <= i,
        i + p.len() <= hi - lo,
    ensures
        occurs_at(cs, p, lo + i) == occurs_at(cs.subrange(lo, hi), p, i),
{
    assert(cs.subrange(lo, hi).subrange(i, i + p.len()) == cs.subrange(lo + i, lo + i + p.len()));
}

/// The first position in `cs[lo..hi]` (counted from `lo`) where `needle`
/// occurs outside parentheses.
pub fn top_level_split(cs: &[char], lo: usize, hi: usize, needle: &[char]) -> (r: Option<usize>)
    requires
        lo <= hi <= cs@.len(),
        0 < needle@.len(),
    ensures
        match top_split(cs@.subrange(lo as int, hi as int), needle@) {
            Some(i) => r == Some(i as usize),
            None => r is None,
        },
{
    let ghost s = cs@.subrange(lo as int, hi as int);
    let len = hi - lo;
    let n = needle.len();
    let end = if len >= n { len - n + 1 } else { 0 };
    let mut depth: usize = 0;
    let mut i: usize = 0;
    while i < end
        invariant
            lo <= hi <= cs@.len(),
            s == cs@.subrange(lo as int, hi as int),
            len == hi - lo,
            n == needle@.len(),
            0 < n,
            end == (if len >= n { len - n + 1 } else { 0 }),
            i <= end,
            depth == depth_after(s, i as int),
            depth <= i,
            forall|j: int| 0 <= j < i ==> !splits_at(s, needle@, j),
        decreases end - i,
    {
        let c = cs[lo + i];
        assert(s[i as int] == c);
        if c == '(' {
            depth = depth + 1;
        } else if c == ')' {
            if depth > 0 {
                depth = depth - 1;
            }
        }
        assert(depth == depth_after(s, i + 1));
        if depth == 0 {
            proof {
                lemma_occurs_window(cs@, lo as int, hi as int, needle@, i as int);
            }
            if matches_at(cs, lo + i, needle) {
                proof {
                    assert(splits_at(s, needle@, i as int));
                    let w = choose|w: int| splits_at(s, needle@, w) && forall|j: int| 0 <= j < w ==> !splits_at(s, needle@, j);
                    assert(splits_at(s, needle@, w) && forall|j: int| 0 <= j < w ==> !splits_at(s, needle@, j)) by {
                        assert(splits_at(s, needle@, i as int) && forall|j: int| 0 <= j < i ==> !splits_at(s, needle@, j));
                    }
                    if w > i {
                        assert(!splits_at(s, needle@, i as int));
                    }
                }
                return Some(i);
            }
        }
        i = i + 1;
    }
    assert forall|j: int| !splits_at(s, needle@, j) by {
        if 0 <= j < i {
        }
    }
    None
}

/// `cs[lo..hi]` equals the characters of `word`.
fn window_is(cs: &[char], lo: usize, hi: usize, word: &str) -> (r: bool)
    requires
        lo <= hi <= cs@.len(),
    ensures
        r == (cs@.subrange(lo as int, hi as int) == word@),
{
    let w = chars_of(word);
    if hi - lo != w.len() {
        return false;
    }
    let m = matches_at(cs, lo, w.as_slice());
    assert(m == (cs@.subrange(lo as int, hi as int) == word@)) by {
        if m {
        } else {
            if cs@.subrange(lo as int, hi as int) == word@ {
                assert(occurs_at(cs@, w@, lo as int));
            }
        }
    }
    m
}

/// `cs[lo..hi]` starts with the characters of `prefix`; gives the prefix's
/// length.
fn window_prefix(cs: &[char], lo: usize, hi: usize, prefix: &str) -> (r: Option<usize>)
    requires
        lo <= hi <= cs@.len(),
    ensures
        match r {
            Some(k) => has_prefix(cs@.subrange(lo as int, hi as int), prefix@) && k == prefix@.len(),
            None => !has_prefix(cs@.subrange(lo as int, hi as int), prefix@),
        },
{
    let w = chars_of(prefix);
    if w.len() > hi - lo {
        return None;
    }
    proof {
        lemma_occurs_window(cs@, lo as int, hi as int, w@, 0);
        assert(cs@.subrange(lo as int, hi as int).subrange(0, w@.len() as int) == cs@.subrange(lo as int, hi as int).subrange(0, 0 + w@.len() as int));
    }
    if matches_at(cs, lo, w.as_slice()) {
        Some(w.len())
    } else {
        None
    }
}

/// The syntax error `pos` with message `head` followed by `cs[lo..hi]`.
fn syntax_error(pos: usize, head: &str, cs: &[char], lo: usize, hi: usize) -> (r: ArwahError)
    requires
        lo <= hi <= cs@.len(),
    ensures
        r matches ArwahError::FilterSyntax { pos: q, msg: m } && q == pos && m@ == head@
            + cs@.subrange(lo as int, hi as int),
{
    let mut msg = String::from_str(head);
    push_chars(&mut msg, cs, lo, hi);
    ArwahError::FilterSyntax { pos, msg }
}

/// Reads an address from `cs[lo..hi]` trimmed.
fn ip_in_window(cs: &[char], lo: usize, hi: usize) -> (r: Option<IpAddress>)
    requires
        lo <= hi <= cs@.len(),
    ensures
        r == ip_from_text(trim(cs@.subrange(lo as int, hi as int))),
{
    let (a, b) = trim_window(cs, lo, hi);
    let t = string_of(cs, a, b);
    IpAddress::parse(t.as_str())
}

/// Reads a port from `cs[lo..hi]` trimmed.
fn port_in_window(cs: &[char], lo: usize, hi: usize) -> (r: Option<u16>)
    requires
        lo <= hi <= cs@.len(),
    ensures
        match parse_unsigned(trim(cs@.subrange(lo as int, hi as int)), 0xffff) {
            Some(v) => r == Some(v as u16),
            None => r is None,
        },
{
    let (a, b) = trim_window(cs, lo, hi);
    assert(cs@.subrange(a as int, b as int) == cs@.subrange(a as int, b as int).subrange(0, (b - a) as int));
    match parse_unsigned_window(cs, a, b, 0xffff) {
        Some(v) => Some(v as u16),
        None => None,
    }
}

fn parse_keyword(cs: &[char], lo: usize, hi: usize) -> (r: Option<FilterPredicate>)
    requires
        lo <= hi <= cs@.len(),
    ensures
        r == keyword_spec(window(cs@, lo, hi)),
{
    if window_is(cs, lo, hi, "tcp") {
        Some(FilterPredicate::Proto(L4Protocol::Tcp))
    } else if window_is(cs, lo, hi, "udp") {
        Some(FilterPredicate::Proto(L4Protocol::Udp))
    } else if window_is(cs, lo, hi, "icmp") {
        Some(FilterPredicate::Proto(L4Protocol::Icmp))
    } else if window_is(cs, lo, hi, "http") {
        Some(FilterPredicate::App(AppProtocol::Http))
    } else if window_is(cs, lo, hi, "https") {
        Some(FilterPredicate::App(AppProtocol::Https))
    } else if window_is(cs, lo, hi, "dns") {
        Some(FilterPredicate::App(AppProtocol::Dns))
    } else if window_is(cs, lo, hi, "ssh") {
        Some(FilterPredicate::App(AppProtocol::Ssh))
    } else if window_is(cs, lo, hi, "ftp") {
        Some(FilterPredicate::App(AppProtocol::Ftp))
    } else {
        None
    }
}

fn parse_atom(cs: &[char], lo: usize, hi: usize) -> (r: Result<FilterPredicate, ArwahError>)
    requires
        lo <= hi <= cs@.len(),
    ensures
        parse_outcome(r, parse_atom_spec(cs@.subrange(lo as int, hi as int))),
{
    let ghost s = cs@.subrange(lo as int, hi as int);
    if let Some(p) = parse_keyword(cs, lo, hi) {
        return Ok(p);
    }
    if let Some(k) = window_prefix(cs, lo, hi, "ip.src == ") {
        assert(cs@.subrange(lo + k, hi as int) == rest_after(s, "ip.src == "@));
        return match ip_in_window(cs, lo + k, hi) {
            Some(ip) => Ok(FilterPredicate::SrcIp(ip)),
            None => Err(syntax_error(7, "invalid IP address: ", cs, lo + k, hi)),
        };
    }
    if let Some(k) = window_prefix(cs, lo, hi, "ip.dst == ") {
        assert(cs@.subrange(lo + k, hi as int) == rest_after(s, "ip.dst == "@));
        return match ip_in_window(cs, lo + k, hi) {
            Some(ip) => Ok(FilterPredicate::DstIp(ip)),
            None => Err(syntax_error(7, "invalid IP address: ", cs, lo + k, hi)),
        };
    }
    if let Some(k) = window_prefix(cs, lo, hi, "port == ") {
        assert(cs@.subrange(lo + k, hi as int) == rest_after(s, "port == "@));
        return match port_in_window(cs, lo + k, hi) {
            Some(p) => Ok(FilterPredicate::Port(p)),
            None => Err(syntax_error(7, "invalid port: ", cs, lo + k, hi)),
        };
    }
    if let Some(k) = window_prefix(cs, lo, hi, "src.port == ") {
        assert(cs@.subrange(lo + k, hi as int) == rest_after(s, "src.port == "@));
        return match port_in_window(cs, lo + k, hi) {
            Some(p) => Ok(FilterPredicate::SrcPort(p)),
            None => Err(syntax_error(11, "invalid port: ", cs, lo + k, hi)),
        };
    }
    if let Some(k) = window_prefix(cs, lo, hi, "dst.port == ") {
        assert(cs@.subrange(lo + k, hi as int) == rest_after(s, "dst.port == "@));
        return match port_in_window(cs, lo + k, hi) {
            Some(p) => Ok(FilterPredicate::DstPort(p)),
            None => Err(syntax_error(11, "invalid port: ", cs, lo + k, hi)),
        };
    }
    let mut msg = String::from_str("unknown filter expression: '");
    push_chars(&mut msg, cs, lo, hi);
    msg.append("'");
    Err(ArwahError::FilterSyntax { pos: 0, msg })
}

/// Parses the two sides of a binary operator of `wlen` characters found at
/// `idx` in `cs[lo..hi]`, and joins them.
fn parse_split(cs: &[char], lo: usize, hi: usize, idx: usize, wlen: usize, is_or: bool) -> (r: Result<FilterPredicate, ArwahError>)
    requires
        lo <= hi <= cs@.len(),
        0 < wlen,
        idx + wlen <= hi - lo,
    ensures
        parse_outcome(
            r,
            combine(
                parse_expr_spec(trim(cs@.subrange(lo as int, lo + idx))),
                parse_expr_spec(trim(cs@.subrange(lo + idx + wlen, hi as int))),
                is_or,
            ),
        ),
    decreases hi - lo, 0nat,
{
    let (a, b) = trim_window(cs, lo, lo + idx);
    let (c, d) = trim_window(cs, lo + idx + wlen, hi);
    let l = match parse_expr(cs, a, b) {
        Ok(p) => p,
        Err(e) => return Err(e),
    };
    let r = match parse_expr(cs, c, d) {
        Ok(p) => p,
        Err(e) => return Err(e),
    };
    if is_or {
        Ok(FilterPredicate::Or(Box::new(l), Box::new(r)))
    } else {
        Ok(FilterPredicate::And(Box::new(l), Box::new(r)))
    }
}

/// Parses what follows a leading `not ` in `cs[lo..hi]`, and negates it.
fn parse_negation(cs: &[char], lo: usize, hi: usize, k: usize) -> (r: Result<FilterPredicate, ArwahError>)
    requires
        lo <= hi <= cs@.len(),
        0 < k <= hi - lo,
    ensures
        parse_outcome(
            r,
            match parse_expr_spec(trim(cs@.subrange(lo + k, hi as int))) {
                Ok(p) => Ok(FilterPredicate::Not(Box::new(p))),
                Err(e) => Err(e),
            },
        ),
    decreases hi - lo, 0nat,
{
    let (a, b) = trim_window(cs, lo + k, hi);
    match parse_expr(cs, a, b) {
        Ok(p) => Ok(FilterPredicate::Not(Box::new(p))),
        Err(e) => Err(e),
    }
}

/// The word a binary operator is split at.
pub open spec fn split_word(is_or: bool) -> Seq<char> {
    if is_or {
        " or "@
    } else {
        " and "@
    }
}

/// An expression with a top-level ` or ` (`is_or`), else with no top-level
/// ` or ` and a top-level ` and `, joins its two sides.
proof fn lemma_expr_split(s: Seq<char>, i: int, is_or: bool)
    requires
        if is_or {
            top_split(s, " or "@) == Some(i)
        } else {
            top_split(s, " or "@) is None && top_split(s, " and "@) == Some(i)
        },
    ensures
        parse_expr_spec(s) == combine(
            parse_expr_spec(trim(s.subrange(0, i))),
            parse_expr_spec(trim(s.subrange(i + split_word(is_or).len(), s.len() as int))),
            is_or,
        ),
{
    reveal(parse_expr_spec);
}

/// An expression with no top-level operator and a leading `not ` negates
/// what follows.
proof fn lemma_expr_not(s: Seq<char>)
    requires
        top_split(s, " or "@) is None,
        top_split(s, " and "@) is None,
        has_prefix(s, "not "@),
    ensures
        parse_expr_spec(s) == match parse_expr_spec(trim(rest_after(s, "not "@))) {
            Ok(p) => Ok(FilterPredicate::Not(Box::new(p))),
            Err(e) => Err(e),
        },
{
    reveal(parse_expr_spec);
}

/// Anything else is a single predicate.
proof fn lemma_expr_atom(s: Seq<char>)
    requires
        top_split(s, " or "@) is None,
        top_split(s, " and "@) is None,
        !has_prefix(s, "not "@),
    ensures
        parse_expr_spec(s) == parse_atom_spec(s),
{
    reveal(parse_expr_spec);
}

fn parse_expr(cs: &[char], lo: usize, hi: usize) -> (r: Result<FilterPredicate, ArwahError>)
    requires
        lo <= hi <= cs@.len(),
    ensures
        parse_outcome(r, parse_expr_spec(cs@.subrange(lo as int, hi as int))),
    decreases hi - lo, 1nat,
{
    let ghost s = cs@.subrange(lo as int, hi as int);
    let or_word = chars_of(" or ");
    proof {
        reveal_strlit(" or ");
    }
    if let Some(idx) = top_level_split(cs, lo, hi, or_word.as_slice()) {
        proof {
            reveal_strlit(" or ");
            lemma_top_split(s, or_word@);
            assert(cs@.subrange(lo as int, lo + idx) == s.subrange(0, idx as int));
            assert(cs@.subrange(lo + idx + or_word@.len(), hi as int) == s.subrange(idx + " or "@.len(), s.len() as int));
            lemma_expr_split(s, idx as int, true);
        }
        return parse_split(cs, lo, hi, idx, or_word.len(), true);
    }
    let and_word = chars_of(" and ");
    proof {
        reveal_strlit(" and ");
    }
    if let Some(idx) = top_level_split(cs, lo, hi, and_word.as_slice()) {
        proof {
            reveal_strlit(" and ");
            lemma_top_split(s, and_word@);
            assert(cs@.subrange(lo as int, lo + idx) == s.subrange(0, idx as int));
            assert(cs@.subrange(lo + idx + and_word@.len(), hi as int) == s.subrange(idx + " and "@.len(), s.len() as int));
            lemma_expr_split(s, idx as int, false);
        }
        return parse_split(cs, lo, hi, idx, and_word.len(), false);
    }
    if let Some(k) = window_prefix(cs, lo, hi, "not ") {
        proof {
            reveal_strlit("not ");
        }
        assert(cs@.subrange(lo + k, hi as int) == rest_after(s, "not "@));
        proof {
            lemma_expr_not(s);
        }
        return parse_negation(cs, lo, hi, k);
    }
    proof {
        lemma_expr_atom(s);
    }
    parse_atom(cs, lo, hi)
}

/// What each single predicate asks of a packet: `port == N` holds when
/// either the source or the destination port is N; `src.port`/`dst.port`
/// look at one end only; `ip.src`/`ip.dst` at one address; a protocol name
/// at the transport or application protocol.
pub proof fn law_atom_meaning(pkt: ParsedPacket, q: u16, ip: IpAddress, l: L4Protocol, a: AppProtocol)
    ensures
        holds(FilterPredicate::Port(q), pkt) <==> (pkt.src_port == Some(q) || pkt.dst_port == Some(q)),
        holds(FilterPredicate::SrcPort(q), pkt) <==> pkt.src_port == Some(q),
        holds(FilterPredicate::DstPort(q), pkt) <==> pkt.dst_port == Some(q),
        holds(FilterPredicate::SrcIp(ip), pkt) <==> pkt.src_ip == Some(ip),
        holds(FilterPredicate::DstIp(ip), pkt) <==> pkt.dst_ip == Some(ip),
        holds(FilterPredicate::Proto(l), pkt) <==> pkt.l4 == Some(l),
        holds(FilterPredicate::App(a), pkt) <==> pkt.app == a,
{
}

/// `port == N` is `src.port == N or dst.port == N`: a reply from port N
/// matches as the request to port N does.
pub proof fn law_port_is_either_end(pkt: ParsedPacket, q: u16)
    ensures
        holds(FilterPredicate::Port(q), pkt) == holds(
            FilterPredicate::Or(Box::new(FilterPredicate::SrcPort(q)), Box::new(FilterPredicate::DstPort(q))),
            pkt,
        ),
        pkt.src_port == Some(q) ==> holds(FilterPredicate::Port(q), pkt),
        pkt.dst_port == Some(q) ==> holds(FilterPredicate::Port(q), pkt),
{
    assert(holds(FilterPredicate::SrcPort(q), pkt) == (pkt.src_port == Some(q)));
    assert(holds(FilterPredicate::DstPort(q), pkt) == (pkt.dst_port == Some(q)));
}

/// `and`, `or` and `not` combine as in logic.
pub proof fn law_connectives(pkt: ParsedPacket, x: FilterPredicate, y: FilterPredicate)
    ensures
        holds(FilterPredicate::And(Box::new(x), Box::new(y)), pkt) <==> (holds(x, pkt) && holds(y, pkt)),
        holds(FilterPredicate::Or(Box::new(x), Box::new(y)), pkt) <==> (holds(x, pkt) || holds(y, pkt)),
        holds(FilterPredicate::Not(Box::new(x)), pkt) <==> !holds(x, pkt),
        holds(FilterPredicate::Not(Box::new(FilterPredicate::Not(Box::new(x)))), pkt) == holds(x, pkt),
{
}

proof fn lemma_prefix_concat(p: Seq<char>, w: Seq<char>)
    ensures
        has_prefix(p + w, p),
        rest_after(p + w, p) == w,
{
    assert((p + w).subrange(0, p.len() as int) =~= p);
    assert((p + w).subrange(p.len() as int, (p + w).len() as int) =~= w);
}

proof fn lemma_not_prefix(s: Seq<char>, q: Seq<char>, k: int)
    requires
        0 <= k < q.len(),
        k < s.len(),
        s[k] != q[k],
    ensures
        !has_prefix(s, q),
{
    if has_prefix(s, q) {
        assert(s.subrange(0, q.len() as int)[k] == s[k]);
    }
}

/// A text longer than five characters is no protocol keyword.
proof fn lemma_no_keyword(s: Seq<char>)
    requires
        s.len() > 5,
    ensures
        keyword_spec(s) is None,
{
    reveal_strlit("tcp");
    reveal_strlit("udp");
    reveal_strlit("icmp");
    reveal_strlit("http");
    reveal_strlit("https");
    reveal_strlit("dns");
    reveal_strlit("ssh");
    reveal_strlit("ftp");
}

/// The comparisons: `port == N`, `src.port == N` and `dst.port == N` with
/// N a number up to 65535 (white space around it allowed) give the
/// either-end, source and destination port predicates for N; `ip.src == A`
/// and `ip.dst == A` with an IP address A give the source and destination
/// address predicates for A.
pub proof fn law_comparison_atoms(w: Seq<char>)
    ensures
        parse_unsigned(trim(w), 0xffff) matches Some(v) ==> parse_atom_spec("port == "@ + w) == Result::<FilterPredicate, SyntaxError>::Ok(FilterPredicate::Port(v as u16)),
        parse_unsigned(trim(w), 0xffff) matches Some(v) ==> parse_atom_spec("src.port == "@ + w) == Result::<FilterPredicate, SyntaxError>::Ok(FilterPredicate::SrcPort(v as u16)),
        parse_unsigned(trim(w), 0xffff) matches Some(v) ==> parse_atom_spec("dst.port == "@ + w) == Result::<FilterPredicate, SyntaxError>::Ok(FilterPredicate::DstPort(v as u16)),
        ip_from_text(trim(w)) matches Some(a) ==> parse_atom_spec("ip.src == "@ + w) == Result::<FilterPredicate, SyntaxError>::Ok(FilterPredicate::SrcIp(a)),
        ip_from_text(trim(w)) matches Some(a) ==> parse_atom_spec("ip.dst == "@ + w) == Result::<FilterPredicate, SyntaxError>::Ok(FilterPredicate::DstIp(a)),
{
    reveal_strlit("port == ");
    reveal_strlit("src.port == ");
    reveal_strlit("dst.port == ");
    reveal_strlit("ip.src == ");
    reveal_strlit("ip.dst == ");
    let port = "port == "@ + w;
    let sport = "src.port == "@ + w;
    let dport = "dst.port == "@ + w;
    let sip = "ip.src == "@ + w;
    let dip = "ip.dst == "@ + w;
    lemma_no_keyword(port);
    lemma_no_keyword(sport);
    lemma_no_keyword(dport);
    lemma_no_keyword(sip);
    lemma_no_keyword(dip);
    lemma_prefix_concat("port == "@, w);
    lemma_prefix_concat("src.port == "@, w);
    lemma_prefix_concat("dst.port == "@, w);
    lemma_prefix_concat("ip.src == "@, w);
    lemma_prefix_concat("ip.dst == "@, w);
    assert(port[0] == 'p');
    assert(sport[0] == 's');
    assert(dport[0] == 'd');
    assert(sip[3] == 's');
    lemma_not_prefix(port, "ip.src == "@, 0);
    lemma_not_prefix(port, "ip.dst == "@, 0);
    lemma_not_prefix(sport, "ip.src == "@, 0);
    lemma_not_prefix(sport, "ip.dst == "@, 0);
    lemma_not_prefix(sport, "port == "@, 0);
    lemma_not_prefix(dport, "ip.src == "@, 0);
    lemma_not_prefix(dport, "ip.dst == "@, 0);
    lemma_not_prefix(dport, "port == "@, 0);
    lemma_not_prefix(dport, "src.port == "@, 0);
    lemma_not_prefix(dip, "ip.src == "@, 3);
}

} // verus!
