//! IP and domain blacklist read from flat text: one entry per line, lines
//! starting with `#` ignored. Entries are plain IP addresses (`1.2.3.4`),
//! networks in CIDR notation (`10.0.0.0/8`), and domain names
//! (`malware.example.com`, matched without regard to ASCII case).

use vstd::prelude::*;
use vstd::string::StringExecFns;
use crate::alert::{Alert, AlertCategory, Severity, Finding, describes};
use crate::clock::now_micros;
use crate::net::{IpAddress, IpNetwork, ip_from_text, ip_text, ipnet_from_text, network_contains, network_wf};
use crate::packet::ParsedPacket;
use crate::text::{trim, ascii_lowercase, lines, chars_of, line_windows, trim_window, chars_window, lowercase_chars, string_of, chars_eq};

verus! {

/// Listed addresses, listed networks (in file order), listed domains (in
/// lower case).
pub type BlacklistView = (Set<IpAddress>, Seq<IpNetwork>, Set<Seq<char>>);

/// The entries of a blacklist file's lines: each line trimmed; empty lines
/// and lines starting with `#` skipped; an IP address is listed as an
/// address, else a network as a network, else the line in lower case as a
/// domain.
pub open spec fn listed(ls: Seq<Seq<char>>) -> BlacklistView
    decreases ls.len(),
{
    if ls.len() == 0 {
        (Set::empty(), Seq::empty(), Set::empty())
    } else {
        let prev = listed(ls.drop_last());
        let t = trim(ls.last());
        if t.len() == 0 || t[0] == '#' {
            prev
        } else {
            match ip_from_text(t) {
                Some(ip) => (prev.0.insert(ip), prev.1, prev.2),
                None => match ipnet_from_text(t) {
                    Some(n) => (prev.0, prev.1.push(n), prev.2),
                    None => (prev.0, prev.1, prev.2.insert(ascii_lowercase(t))),
                },
            }
        }
    }
}

/// `ip` is listed, or lies in a listed network.
pub open spec fn blocks_ip(b: BlacklistView, ip: IpAddress) -> bool {
    b.0.contains(ip) || exists|i: int| 0 <= i < b.1.len() && network_contains(#[trigger] b.1[i], ip)
}

/// The address of a packet that the blacklist hits: its source if that is
/// blocked, else its destination if that is.
pub open spec fn hit_of(b: BlacklistView, pkt: ParsedPacket) -> Option<IpAddress> {
    match pkt.src_ip {
        Some(s) if blocks_ip(b, s) => Some(s),
        _ => match pkt.dst_ip {
            Some(d) if blocks_ip(b, d) => Some(d),
            _ => None,
        },
    }
}

/// What a blacklist alert reports.
pub open spec fn blacklist_finding(hit: IpAddress) -> Finding {
    (Severity::Critical, AlertCategory::SuspiciousPort, "Blacklisted IP: "@ + ip_text(hit))
}

/// What a blacklist alert on a DNS query reports.
pub open spec fn domain_finding(query: Seq<char>) -> Finding {
    (Severity::Critical, AlertCategory::SuspiciousPort, "Blacklisted domain: "@ + query)
}

/// A blacklist of addresses, networks and domains.
pub struct Blacklist {
    ips: Vec<IpAddress>,
    nets: Vec<IpNetwork>,
    domains: Vec<Vec<char>>,
}

impl View for Blacklist {
    type V = BlacklistView;

    closed spec fn view(&self) -> BlacklistView {
        (self.ips@.to_set(), self.nets@, self.domains@.map_values(|d: Vec<char>| d@).to_set())
    }
}

impl Blacklist {
    /// Every listed network has a prefix length that fits its family.
    pub closed spec fn wf(&self) -> bool {
        forall|i: int| 0 <= i < self.nets@.len() ==> network_wf(#[trigger] self.nets@[i])
    }

    /// An empty blacklist.
    pub fn new() -> (r: Self)
        ensures
            r.wf(),
            r@ == listed(Seq::empty()),
    {
        let r = Blacklist { ips: Vec::new(), nets: Vec::new(), domains: Vec::new() };
        assert(r@.0 =~= Set::empty());
        assert(r@.2 =~= Set::empty());
        r
    }

    /// The blacklist that a file's text lists.
    pub fn from_text(text: &str) -> (r: Self)
        ensures
            r.wf(),
            r@ == listed(lines(text@)),
    {
        let cs = chars_of(text);
        let ws = line_windows(cs.as_slice());
        let ghost ls = lines(text@);
        let mut bl = Blacklist::new();
        assert(forall|i: int| 0 <= i < ws@.len() ==> #[trigger] ws@[i].0 <= ws@[i].1 <= cs@.len());
        let mut k: usize = 0;
        while k < ws.len()
            invariant
                cs@ == text@,
                ls == lines(cs@),
                ws@.len() == ls.len(),
                forall|i: int| 0 <= i < ws@.len() ==> #[trigger] ws@[i].0 <= ws@[i].1 <= cs@.len(),
                forall|i: int| 0 <= i < ws@.len() ==> cs@.subrange(#[trigger] ws@[i].0 as int, ws@[i].1 as int) == ls[i],
                k <= ws@.len(),
                bl.wf(),
                bl@ == listed(ls.subrange(0, k as int)),
            decreases ws@.len() - k,
        {
            let (a, b) = ws[k];
            let (ta, tb) = trim_window(cs.as_slice(), a, b);
            let ghost t = trim(ls[k as int]);
            assert(cs@.subrange(ta as int, tb as int) == t);
            assert(ls.subrange(0, k + 1).drop_last() == ls.subrange(0, k as int));
            assert(ls.subrange(0, k + 1).last() == ls[k as int]);
            if ta < tb && cs[ta] != '#' {
                assert(t[0] == cs@[ta as int]);
                let line = string_of(cs.as_slice(), ta, tb);
                match IpAddress::parse(line.as_str()) {
                    Some(ip) => bl.add_ip(ip),
                    None => match IpNetwork::parse(line.as_str()) {
                        Some(n) => {
                            let ghost before = bl.nets@;
                            bl.nets.push(n);
                            assert(bl.nets@ == before.push(n));
                        },
                        None => {
                            let w = chars_window(cs.as_slice(), ta, tb);
                            let d = lowercase_chars(w.as_slice());
                            bl.add_domain(d);
                        },
                    },
                }
            } else {
                if ta < tb {
                    assert(t[0] == cs@[ta as int]);
                }
            }
            k = k + 1;
        }
        assert(ls.subrange(0, ws@.len() as int) == ls);
        bl
    }

    fn add_ip(&mut self, ip: IpAddress)
        requires
            old(self).wf(),
        ensures
            final(self).wf(),
            final(self)@ == (old(self)@.0.insert(ip), old(self)@.1, old(self)@.2),
    {
        let ghost before = self.ips@;
        if !self.has_listed_ip(ip) {
            self.ips.push(ip);
            proof {
                before.lemma_push_to_set_commute(ip);
            }
        } else {
            assert(before.to_set() =~= before.to_set().insert(ip));
        }
        assert(self@.2 == old(self)@.2);
    }

    fn add_domain(&mut self, d: Vec<char>)
        requires
            old(self).wf(),
        ensures
            final(self).wf(),
            final(self)@ == (old(self)@.0, old(self)@.1, old(self)@.2.insert(d@)),
    {
        let ghost before = self.domains@.map_values(|x: Vec<char>| x@);
        let ghost dv = d@;
        let mut i: usize = 0;
        let mut found = false;
        while i < self.domains.len()
            invariant
                i <= self.domains@.len(),
                found ==> before.contains(dv),
                d@ == dv,
                before == self.domains@.map_values(|x: Vec<char>| x@),
            decreases self.domains@.len() - i,
        {
            if chars_eq(self.domains[i].as_slice(), d.as_slice()) {
                assert(before[i as int] == self.domains@[i as int]@);
                assert(before.contains(before[i as int]));
                found = true;
            }
            i = i + 1;
        }
        if !found {
            self.domains.push(d);
            assert(self.domains@.map_values(|x: Vec<char>| x@) =~= before.push(dv));
            proof {
                before.lemma_push_to_set_commute(dv);
            }
        } else {
            assert(before.to_set() =~= before.to_set().insert(dv));
        }
    }

    fn has_listed_ip(&self, ip: IpAddress) -> (r: bool)
        ensures
            r == self@.0.contains(ip),
    {
        let mut i: usize = 0;
        while i < self.ips.len()
            invariant
                i <= self.ips@.len(),
                forall|j: int| 0 <= j < i ==> self.ips@[j] != ip,
            decreases self.ips@.len() - i,
        {
            if crate::net::ip_eq(self.ips[i], ip) {
                assert(self.ips@.to_set().contains(self.ips@[i as int]));
                return true;
            }
            i = i + 1;
        }
        assert(!self.ips@.contains(ip));
        false
    }

    /// Whether `ip` is listed or lies in a listed network.
    pub fn contains_ip(&self, ip: IpAddress) -> (r: bool)
        requires
            self.wf(),
        ensures
            r == blocks_ip(self@, ip),
    {
        if self.has_listed_ip(ip) {
            return true;
        }
        let mut i: usize = 0;
        while i < self.nets.len()
            invariant
                self.wf(),
                i <= self.nets@.len(),
                forall|j: int| 0 <= j < i ==> !network_contains(#[trigger] self.nets@[j], ip),
            decreases self.nets@.len() - i,
        {
            if self.nets[i].contains(ip) {
                assert(network_contains(self@.1[i as int], ip));
                return true;
            }
            i = i + 1;
        }
        false
    }

    /// Whether `domain` is listed, without regard to ASCII case.
    pub fn contains_domain(&self, domain: &str) -> (r: bool)
        ensures
            r == self@.2.contains(ascii_lowercase(domain@)),
    {
        let cs = chars_of(domain);
        let d = lowercase_chars(cs.as_slice());
        let ghost all = self.domains@.map_values(|x: Vec<char>| x@);
        let mut i: usize = 0;
        while i < self.domains.len()
            invariant
                i <= self.domains@.len(),
                all == self.domains@.map_values(|x: Vec<char>| x@),
                d@ == ascii_lowercase(domain@),
                forall|j: int| 0 <= j < i ==> all[j] != d@,
            decreases self.domains@.len() - i,
        {
            if chars_eq(self.domains[i].as_slice(), d.as_slice()) {
                assert(all[i as int] == self.domains@[i as int]@);
                assert(all.contains(all[i as int]));
                return true;
            }
            i = i + 1;
        }
        assert(!all.contains(d@)) by {
            assert forall|j: int| 0 <= j < all.len() implies all[j] != d@ by {
                assert(all[j] == self.domains@[j]@);
            }
        }
        false
    }

    /// The blacklist alert for the packet, numbered 0 and stamped `now`:
    /// raised where its source, else its destination, is blocked.
    pub fn check_packet_at(&self, pkt: &ParsedPacket, now: i64) -> (r: Option<Alert>)
        requires
            self.wf(),
        ensures
            match hit_of(self@, *pkt) {
                Some(hit) => r matches Some(a) && describes(a, blacklist_finding(hit), *pkt, now, 0),
                None => r is None,
            },
    {
        let hit = match pkt.src_ip {
            Some(s) if self.contains_ip(s) => s,
            _ => match pkt.dst_ip {
                Some(d) if self.contains_ip(d) => d,
                _ => return None,
            },
        };
        let mut m = String::from_str("Blacklisted IP: ");
        hit.push_text(&mut m);
        Some(Alert {
            id: 0,
            timestamp: now,
            severity: Severity::Critical,
            category: AlertCategory::SuspiciousPort,
            message: m,
            src_ip: pkt.src_ip,
            dst_ip: pkt.dst_ip,
            src_port: pkt.src_port,
            dst_port: pkt.dst_port,
            proto: pkt.l4,
        })
    }

    /// As `check_packet_at`, stamped with the current time.
    pub fn check_packet(&self, pkt: &ParsedPacket) -> (r: Option<Alert>)
        requires
            self.wf(),
        ensures
            match hit_of(self@, *pkt) {
                Some(hit) => r matches Some(a) && describes(a, blacklist_finding(hit), *pkt, a.timestamp, 0),
                None => r is None,
            },
    {
        self.check_packet_at(pkt, now_micros())
    }

    /// The blacklist alert for a DNS query for `query` carried by the
    /// packet, numbered 0 and stamped `now`: raised where the queried name
    /// is listed, without regard to ASCII case.
    pub fn check_domain_at(&self, query: &str, pkt: &ParsedPacket, now: i64) -> (r: Option<Alert>)
        ensures
            if self@.2.contains(ascii_lowercase(query@)) {
                r matches Some(a) && describes(a, domain_finding(query@), *pkt, now, 0)
            } else {
                r is None
            },
    {
        if !self.contains_domain(query) {
            return None;
        }
        let mut m = String::from_str("Blacklisted domain: ");
        m.append(query);
        Some(Alert {
            id: 0,
            timestamp: now,
            severity: Severity::Critical,
            category: AlertCategory::SuspiciousPort,
            message: m,
            src_ip: pkt.src_ip,
            dst_ip: pkt.dst_ip,
            src_port: pkt.src_port,
            dst_port: pkt.dst_port,
            proto: pkt.l4,
        })
    }

    /// As `check_domain_at`, stamped with the current time.
    pub fn check_domain(&self, query: &str, pkt: &ParsedPacket) -> (r: Option<Alert>)
        ensures
            if self@.2.contains(ascii_lowercase(query@)) {
                r matches Some(a) && describes(a, domain_finding(query@), *pkt, a.timestamp, 0)
            } else {
                r is None
            },
    {
        self.check_domain_at(query, pkt, now_micros())
    }
}

impl Default for Blacklist {
    fn default() -> (r: Self)
        ensures
            r.wf(),
            r@ == listed(Seq::empty()),
    {
        Blacklist::new()
    }
}

/// Reading one more line keeps every earlier entry.
proof fn lemma_listed_grows(ls: Seq<Seq<char>>)
    requires
        ls.len() > 0,
    ensures
        listed(ls.drop_last()).0.subset_of(listed(ls).0),
        listed(ls.drop_last()).1.len() <= listed(ls).1.len(),
        forall|j: int| 0 <= j < listed(ls.drop_last()).1.len() ==> #[trigger] listed(ls).1[j] == listed(ls.drop_last()).1[j],
        listed(ls.drop_last()).2.subset_of(listed(ls).2),
{
}

/// The line holds an entry: trimmed, it is neither empty nor a comment.
pub open spec fn is_entry(l: Seq<char>) -> bool {
    trim(l).len() > 0 && trim(l)[0] != '#'
}

/// An address listed on any line is blocked.
pub proof fn law_listed_address_blocked(ls: Seq<Seq<char>>, i: int, ip: IpAddress)
    requires
        0 <= i < ls.len(),
        is_entry(ls[i]),
        ip_from_text(trim(ls[i])) == Some(ip),
    ensures
        blocks_ip(listed(ls), ip),
    decreases ls.len(),
{
    if i < ls.len() - 1 {
        law_listed_address_blocked(ls.drop_last(), i, ip);
        lemma_listed_grows(ls);
        let prev = listed(ls.drop_last());
        if !prev.0.contains(ip) {
            let j = choose|j: int| 0 <= j < prev.1.len() && network_contains(#[trigger] prev.1[j], ip);
            assert(network_contains(listed(ls).1[j], ip));
        }
    }
}

/// Every address in a network listed on any line is blocked.
pub proof fn law_listed_network_blocks(ls: Seq<Seq<char>>, i: int, n: IpNetwork, ip: IpAddress)
    requires
        0 <= i < ls.len(),
        is_entry(ls[i]),
        ip_from_text(trim(ls[i])) is None,
        ipnet_from_text(trim(ls[i])) == Some(n),
        network_contains(n, ip),
    ensures
        blocks_ip(listed(ls), ip),
    decreases ls.len(),
{
    if i < ls.len() - 1 {
        law_listed_network_blocks(ls.drop_last(), i, n, ip);
        lemma_listed_grows(ls);
        let prev = listed(ls.drop_last());
        if !prev.0.contains(ip) {
            let j = choose|j: int| 0 <= j < prev.1.len() && network_contains(#[trigger] prev.1[j], ip);
            assert(network_contains(listed(ls).1[j], ip));
        }
    } else {
        let l = listed(ls).1;
        assert(l[l.len() - 1] == n);
    }
}

/// A domain listed on any line is found in any ASCII case: its lower-case
/// form is listed.
pub proof fn law_listed_domain_found(ls: Seq<Seq<char>>, i: int)
    requires
        0 <= i < ls.len(),
        is_entry(ls[i]),
        ip_from_text(trim(ls[i])) is None,
        ipnet_from_text(trim(ls[i])) is None,
    ensures
        listed(ls).2.contains(ascii_lowercase(trim(ls[i]))),
    decreases ls.len(),
{
    if i < ls.len() - 1 {
        law_listed_domain_found(ls.drop_last(), i);
        lemma_listed_grows(ls);
        assert(ls.drop_last()[i] == ls[i]);
    }
}

/// A packet hits the blacklist when its source or its destination is
/// blocked; the source is reported where both are; the alert is Critical,
/// "Blacklisted IP: <address>".
pub proof fn law_blacklist_hit(b: BlacklistView, pkt: ParsedPacket)
    ensures
        (pkt.src_ip matches Some(s) && blocks_ip(b, s)) ==> hit_of(b, pkt) == Some(pkt.src_ip->0),
        !(pkt.src_ip matches Some(s) && blocks_ip(b, s)) && (pkt.dst_ip matches Some(d) && blocks_ip(b, d)) ==> hit_of(b, pkt) == Some(pkt.dst_ip->0),
        !(pkt.src_ip matches Some(s) && blocks_ip(b, s)) && !(pkt.dst_ip matches Some(d) && blocks_ip(b, d)) ==> hit_of(b, pkt) is None,
        hit_of(b, pkt) matches Some(h) ==> blacklist_finding(h) == (Severity::Critical, AlertCategory::SuspiciousPort, "Blacklisted IP: "@ + ip_text(h)),
        forall|ip: IpAddress| b.0.contains(ip) ==> blocks_ip(b, ip),
        forall|ip: IpAddress, i: int| 0 <= i < b.1.len() && #[trigger] network_contains(b.1[i], ip) ==> blocks_ip(b, ip),
{
}

} // verus!
