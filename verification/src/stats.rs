//! Rolling traffic statistics: totals, per-protocol and per-application
//! counters, and per-address talker counters.

use vstd::prelude::*;
use crate::clock::now_micros;
use crate::net::IpAddress;
use crate::packet::ParsedPacket;
use crate::protocol::{AppProtocol, L4Protocol};

verus! {

/// Interface-level capture statistics returned from the kernel.
#[derive(Debug, Clone, Copy, PartialEq, Eq, Structural)]
pub struct CaptureStats {
    pub received: u64,
    pub dropped_kernel: u64,
    pub dropped_iface: u64,
}

/// A key of a counter table.
pub trait TallyKey: Sized + Copy {
    fn same(&self, other: &Self) -> (r: bool)
        ensures
            r == (*self == *other);
}

impl TallyKey for L4Protocol {
    fn same(&self, other: &Self) -> (r: bool) {
        *self == *other
    }
}

impl TallyKey for AppProtocol {
    fn same(&self, other: &Self) -> (r: bool) {
        *self == *other
    }
}

impl TallyKey for IpAddress {
    fn same(&self, other: &Self) -> (r: bool) {
        crate::net::ip_eq(*self, *other)
    }
}

/// Packet and byte counts.
pub type Counts = (u64, u64);

/// The counts of `k` in a list of entries: those of its first entry.
pub open spec fn lookup<K>(e: Seq<(K, u64, u64)>, k: K) -> Option<Counts>
    decreases e.len(),
{
    if e.len() == 0 {
        None
    } else if e[0].0 == k {
        Some((e[0].1, e[0].2))
    } else {
        lookup(e.drop_first(), k)
    }
}

/// No key occurs in two entries.
pub open spec fn keys_distinct<K>(e: Seq<(K, u64, u64)>) -> bool {
    forall|i: int, j: int| 0 <= i < j < e.len() ==> #[trigger] e[i].0 != #[trigger] e[j].0
}

/// The counts per key.
pub open spec fn tally_map<K>(e: Seq<(K, u64, u64)>) -> Map<K, Counts> {
    Map::new(|k: K| lookup(e, k) is Some, |k: K| lookup(e, k)->0)
}

/// The packets of all entries together.
pub open spec fn packet_sum<K>(e: Seq<(K, u64, u64)>) -> int
    decreases e.len(),
{
    if e.len() == 0 {
        0
    } else {
        packet_sum(e.drop_last()) + e.last().1
    }
}

/// The bytes of all entries together.
pub open spec fn byte_sum<K>(e: Seq<(K, u64, u64)>) -> int
    decreases e.len(),
{
    if e.len() == 0 {
        0
    } else {
        byte_sum(e.drop_last()) + e.last().2
    }
}

proof fn lemma_sums_update<K>(e: Seq<(K, u64, u64)>, i: int, x: (K, u64, u64))
    requires
        0 <= i < e.len(),
    ensures
        packet_sum(e.update(i, x)) == packet_sum(e) - e[i].1 + x.1,
        byte_sum(e.update(i, x)) == byte_sum(e) - e[i].2 + x.2,
    decreases e.len(),
{
    if i < e.len() - 1 {
        lemma_sums_update(e.drop_last(), i, x);
        assert(e.update(i, x).drop_last() == e.drop_last().update(i, x));
    } else {
        assert(e.update(i, x).drop_last() == e.drop_last());
    }
}

proof fn lemma_sums_push<K>(e: Seq<(K, u64, u64)>, x: (K, u64, u64))
    ensures
        packet_sum(e.push(x)) == packet_sum(e) + x.1,
        byte_sum(e.push(x)) == byte_sum(e) + x.2,
{
    assert(e.push(x).drop_last() == e);
}

/// Counts for keys, kept as a list of entries without repeated keys.
pub struct Tally<K> {
    pub entries: Vec<(K, u64, u64)>,
}

/// The counts before one more packet of `bytes` bytes.
pub open spec fn current<K>(m: Map<K, Counts>, k: K) -> Counts {
    if m.contains_key(k) {
        m[k]
    } else {
        (0, 0)
    }
}

/// One more packet of `bytes` bytes fits the counts of `k`.
pub open spec fn fits<K>(m: Map<K, Counts>, k: K, bytes: u64) -> bool {
    current(m, k).0 < u64::MAX && current(m, k).1 + bytes <= u64::MAX
}

/// The counts after one more packet of `bytes` bytes for `k`.
pub open spec fn add_packet<K>(m: Map<K, Counts>, k: K, bytes: u64) -> Map<K, Counts> {
    m.insert(k, ((current(m, k).0 + 1) as u64, (current(m, k).1 + bytes) as u64))
}

proof fn lemma_lookup_index<K>(e: Seq<(K, u64, u64)>, k: K, i: int)
    requires
        keys_distinct(e),
        0 <= i < e.len(),
        e[i].0 == k,
    ensures
        lookup(e, k) == Some((e[i].1, e[i].2)),
    decreases e.len(),
{
    if i > 0 {
        assert(e[0].0 != e[i].0);
        assert forall|a: int, b: int| 0 <= a < b < e.drop_first().len() implies #[trigger] e.drop_first()[a].0 != #[trigger] e.drop_first()[b].0 by {
            assert(e[a + 1].0 != e[b + 1].0);
        }
        lemma_lookup_index(e.drop_first(), k, i - 1);
    }
}

proof fn lemma_lookup_none<K>(e: Seq<(K, u64, u64)>, k: K)
    requires
        forall|i: int| 0 <= i < e.len() ==> #[trigger] e[i].0 != k,
    ensures
        lookup(e, k) is None,
    decreases e.len(),
{
    if e.len() > 0 {
        assert forall|i: int| 0 <= i < e.drop_first().len() implies #[trigger] e.drop_first()[i].0 != k by {
            assert(e[i + 1].0 != k);
        }
        lemma_lookup_none(e.drop_first(), k);
    }
}

impl<K: TallyKey> Tally<K> {
    pub open spec fn wf(&self) -> bool {
        keys_distinct(self.entries@)
    }

    pub open spec fn counts(&self) -> Map<K, Counts> {
        tally_map(self.entries@)
    }

    pub fn new() -> (r: Self)
        ensures
            r.wf(),
            r.entries@.len() == 0,
    {
        Tally { entries: Vec::new() }
    }

    /// Counts one more packet of `bytes` bytes for `k`.
    pub fn add(&mut self, k: K, bytes: u64)
        requires
            old(self).wf(),
            fits(old(self).counts(), k, bytes),
        ensures
            final(self).wf(),
            final(self).counts() == add_packet(old(self).counts(), k, bytes),
            packet_sum(final(self).entries@) == packet_sum(old(self).entries@) + 1,
            byte_sum(final(self).entries@) == byte_sum(old(self).entries@) + bytes,
    {
        let ghost e0 = self.entries@;
        let mut i: usize = 0;
        while i < self.entries.len()
            invariant
                self.entries@ == e0,
                old(self).entries@ == e0,
                keys_distinct(e0),
                fits(tally_map(e0), k, bytes),
                i <= e0.len(),
                forall|j: int| 0 <= j < i ==> #[trigger] e0[j].0 != k,
            decreases e0.len() - i,
        {
            if self.entries[i].0.same(&k) {
                proof {
                    lemma_lookup_index(e0, k, i as int);
                }
                let (key, p, b) = self.entries[i];
                assert(tally_map(e0).contains_key(k) && tally_map(e0)[k] == (p, b));
                self.entries.set(i, (key, p + 1, b + bytes));
                proof {
                    lemma_sums_update(e0, i as int, (key, (p + 1) as u64, (b + bytes) as u64));
                    let e1 = self.entries@;
                    assert forall|a: int, c: int| 0 <= a < c < e1.len() implies #[trigger] e1[a].0 != #[trigger] e1[c].0 by {
                        assert(e0[a].0 != e0[c].0);
                    }
                    assert forall|q: K| #[trigger] tally_map(e1).dom().contains(q) == add_packet(tally_map(e0), k, bytes).dom().contains(q) && (tally_map(e1).dom().contains(q) ==> tally_map(e1)[q] == add_packet(tally_map(e0), k, bytes)[q]) by {
                        if q == k {
                            lemma_lookup_index(e1, k, i as int);
                        } else {
                            if exists|j: int| 0 <= j < e0.len() && e0[j].0 == q {
                                let j = choose|j: int| 0 <= j < e0.len() && e0[j].0 == q;
                                lemma_lookup_index(e0, q, j);
                                lemma_lookup_index(e1, q, j);
                            } else {
                                lemma_lookup_none(e0, q);
                                assert forall|j: int| 0 <= j < e1.len() implies #[trigger] e1[j].0 != q by {
                                    assert(e0[j].0 != q);
                                }
                                lemma_lookup_none(e1, q);
                            }
                        }
                    }
                    assert(tally_map(e1) =~= add_packet(tally_map(e0), k, bytes));
                }
                assert(self.counts() == add_packet(tally_map(e0), k, bytes));
                assert(old(self).counts() == tally_map(e0));
                return;
            }
            i = i + 1;
        }
        proof {
            lemma_lookup_none(e0, k);
        }
        self.entries.push((k, 1, bytes));
        proof {
            lemma_sums_push(e0, (k, 1u64, bytes));
            let e1 = self.entries@;
            assert forall|a: int, c: int| 0 <= a < c < e1.len() implies #[trigger] e1[a].0 != #[trigger] e1[c].0 by {
                if c < e0.len() {
                    assert(e0[a].0 != e0[c].0);
                }
            }
            assert forall|q: K| #[trigger] tally_map(e1).dom().contains(q) == add_packet(tally_map(e0), k, bytes).dom().contains(q) && (tally_map(e1).dom().contains(q) ==> tally_map(e1)[q] == add_packet(tally_map(e0), k, bytes)[q]) by {
                if q == k {
                    lemma_lookup_index(e1, k, e0.len() as int);
                } else {
                    if exists|j: int| 0 <= j < e0.len() && e0[j].0 == q {
                        let j = choose|j: int| 0 <= j < e0.len() && e0[j].0 == q;
                        lemma_lookup_index(e0, q, j);
                        lemma_lookup_index(e1, q, j);
                    } else {
                        lemma_lookup_none(e0, q);
                        assert forall|j: int| 0 <= j < e1.len() implies #[trigger] e1[j].0 != q by {
                            if j < e0.len() {
                                assert(e0[j].0 != q);
                            }
                        }
                        lemma_lookup_none(e1, q);
                    }
                }
            }
            assert(tally_map(e1) =~= add_packet(tally_map(e0), k, bytes));
        }
    }
}


/// `r` lists the `n` entries of `e` with the most bytes (all entries when
/// there are fewer), most bytes first, each entry at most once; no entry
/// left out has more bytes than the last one listed.
pub open spec fn is_top_by_bytes<K>(e: Seq<(K, u64, u64)>, r: Seq<(K, u64)>, n: nat) -> bool {
    &&& r.len() == (if n < e.len() { n } else { e.len() })
    &&& exists|idx: Seq<int>|
        {
            &&& idx.len() == r.len()
            &&& idx.no_duplicates()
            &&& forall|i: int| 0 <= i < idx.len() ==> 0 <= #[trigger] idx[i] < e.len()
            &&& forall|i: int| 0 <= i < idx.len() ==> #[trigger] r[i] == (e[idx[i]].0, e[idx[i]].2)
            &&& forall|j: int| 0 <= j < e.len() && !idx.contains(j) && r.len() > 0 ==> e[j].2 <= r[r.len() - 1].1
        }
    &&& forall|i: int, j: int| 0 <= i < j < r.len() ==> #[trigger] r[i].1 >= #[trigger] r[j].1
}

impl<K: TallyKey> Tally<K> {
    /// The counts of `k`, if it has any.
    pub fn get(&self, k: &K) -> (r: Option<Counts>)
        requires
            self.wf(),
        ensures
            r == self.counts().get(*k),
    {
        let mut i: usize = 0;
        while i < self.entries.len()
            invariant
                keys_distinct(self.entries@),
                i <= self.entries@.len(),
                forall|j: int| 0 <= j < i ==> #[trigger] self.entries@[j].0 != *k,
            decreases self.entries@.len() - i,
        {
            if self.entries[i].0.same(k) {
                proof {
                    lemma_lookup_index(self.entries@, *k, i as int);
                }
                return Some((self.entries[i].1, self.entries[i].2));
            }
            i = i + 1;
        }
        proof {
            lemma_lookup_none(self.entries@, *k);
        }
        None
    }

    /// Each key with its packet count, in entry order.
    pub fn packet_list(&self) -> (r: Vec<(K, u64)>)
        ensures
            r@.len() == self.entries@.len(),
            forall|i: int| 0 <= i < r@.len() ==> #[trigger] r@[i] == (self.entries@[i].0, self.entries@[i].1),
    {
        let mut r: Vec<(K, u64)> = Vec::new();
        let mut i: usize = 0;
        while i < self.entries.len()
            invariant
                i <= self.entries@.len(),
                r@.len() == i,
                forall|j: int| 0 <= j < i ==> #[trigger] r@[j] == (self.entries@[j].0, self.entries@[j].1),
            decreases self.entries@.len() - i,
        {
            r.push((self.entries[i].0, self.entries[i].1));
            i = i + 1;
        }
        r
    }

    /// Each key with its byte count, in entry order.
    pub fn byte_list(&self) -> (r: Vec<(K, u64)>)
        ensures
            r@.len() == self.entries@.len(),
            forall|i: int| 0 <= i < r@.len() ==> #[trigger] r@[i] == (self.entries@[i].0, self.entries@[i].2),
    {
        let mut r: Vec<(K, u64)> = Vec::new();
        let mut i: usize = 0;
        while i < self.entries.len()
            invariant
                i <= self.entries@.len(),
                r@.len() == i,
                forall|j: int| 0 <= j < i ==> #[trigger] r@[j] == (self.entries@[j].0, self.entries@[j].2),
            decreases self.entries@.len() - i,
        {
            r.push((self.entries[i].0, self.entries[i].2));
            i = i + 1;
        }
        r
    }

    /// The `n` keys with the most bytes, most first.
    pub fn top_by_bytes(&self, n: usize) -> (r: Vec<(K, u64)>)
        ensures
            is_top_by_bytes(self.entries@, r@, n as nat),
    {
        let e = &self.entries;
        let m = e.len();
        let mut remaining: Vec<usize> = Vec::new();
        let mut j: usize = 0;
        while j < m
            invariant
                m == e@.len(),
                j <= m,
                remaining@.len() == j,
                forall|q: int| 0 <= q < j ==> #[trigger] remaining@[q] == q,
            decreases m - j,
        {
            remaining.push(j);
            j = j + 1;
        }
        let mut out: Vec<(K, u64)> = Vec::new();
        let ghost mut idx: Seq<int> = Seq::empty();
        assert(remaining@.no_duplicates());
        assert forall|x: int| 0 <= x < m implies (remaining@.contains(x as usize) <==> !idx.contains(x)) by {
            assert(remaining@[x] == x as usize);
        }
        while out.len() < n && remaining.len() > 0
            invariant
                m == e@.len(),
                out@.len() == idx.len(),
                remaining@.len() + idx.len() == m,
                remaining@.no_duplicates(),
                idx.no_duplicates(),
                forall|q: int| 0 <= q < remaining@.len() ==> #[trigger] remaining@[q] < m,
                forall|i: int| 0 <= i < idx.len() ==> 0 <= #[trigger] idx[i] < m,
                forall|x: int| 0 <= x < m ==> (remaining@.contains(x as usize) <==> !idx.contains(x)),
                forall|i: int| 0 <= i < idx.len() ==> #[trigger] out@[i] == (e@[idx[i]].0, e@[idx[i]].2),
                forall|x: int| 0 <= x < m && !idx.contains(x) && out@.len() > 0 ==> e@[x].2 <= out@[out@.len() - 1].1,
                forall|a: int, b: int| 0 <= a < b < out@.len() ==> #[trigger] out@[a].1 >= #[trigger] out@[b].1,
                out@.len() <= n,
            decreases remaining@.len(),
        {
            let mut best: usize = 0;
            let mut p: usize = 1;
            while p < remaining.len()
                invariant
                    m == e@.len(),
                    0 < remaining@.len(),
                    best < remaining@.len(),
                    1 <= p <= remaining@.len(),
                    forall|q: int| 0 <= q < remaining@.len() ==> #[trigger] remaining@[q] < m,
                    forall|q: int| 0 <= q < p ==> e@[remaining@[q] as int].2 <= e@[remaining@[best as int] as int].2,
                decreases remaining@.len() - p,
            {
                if e[remaining[p]].2 > e[remaining[best]].2 {
                    best = p;
                }
                p = p + 1;
            }
            let ghost old_rem = remaining@;
            let ghost old_out = out@;
            let ghost old_idx = idx;
            let pick = remaining.remove(best);
            out.push((e[pick].0, e[pick].2));
            proof {
                idx = idx.push(pick as int);
                assert forall|x: int| 0 <= x < m implies (remaining@.contains(x as usize) <==> !idx.contains(x)) by {
                    if x == pick {
                        assert(idx[idx.len() - 1] == x);
                        if remaining@.contains(x as usize) {
                            let w = choose|w: int| 0 <= w < remaining@.len() && remaining@[w] == x as usize;
                            if w < best {
                                assert(old_rem[w] == old_rem[best as int]);
                            } else {
                                assert(old_rem[w + 1] == old_rem[best as int]);
                            }
                        }
                    } else {
                        if old_rem.contains(x as usize) {
                            let w = choose|w: int| 0 <= w < old_rem.len() && old_rem[w] == x as usize;
                            if w < best {
                                assert(remaining@[w] == x as usize);
                            } else {
                                assert(w != best);
                                assert(remaining@[w - 1] == x as usize);
                            }
                        } else {
                            if remaining@.contains(x as usize) {
                                let w = choose|w: int| 0 <= w < remaining@.len() && remaining@[w] == x as usize;
                                if w < best {
                                    assert(old_rem[w] == x as usize);
                                } else {
                                    assert(old_rem[w + 1] == x as usize);
                                }
                            }
                        }
                        if idx.contains(x) {
                            let w = choose|w: int| 0 <= w < idx.len() && idx[w] == x;
                            if w < old_idx.len() {
                                assert(old_idx[w] == x);
                            }
                        }
                        if old_idx.contains(x) {
                            let w = choose|w: int| 0 <= w < old_idx.len() && old_idx[w] == x;
                            assert(idx[w] == x);
                        }
                    }
                }
                assert(!old_idx.contains(pick as int)) by {
                    assert(old_rem.contains(pick));
                }
                assert forall|a: int, b: int| 0 <= a < b < idx.len() implies idx[a] != idx[b] by {
                    if b == idx.len() - 1 {
                        assert(old_idx.contains(idx[a]));
                    } else {
                        assert(old_idx[a] != old_idx[b]);
                    }
                }
                assert forall|a: int, b: int| 0 <= a < b < remaining@.len() implies remaining@[a] != remaining@[b] by {
                    let a2 = if a < best { a } else { a + 1 };
                    let b2 = if b < best { b } else { b + 1 };
                    assert(old_rem[a2] != old_rem[b2]);
                }
                assert forall|x: int| 0 <= x < m && !idx.contains(x) && out@.len() > 0 implies e@[x].2 <= out@[out@.len() - 1].1 by {
                    assert(!old_idx.contains(x)) by {
                        if old_idx.contains(x) {
                            let w = choose|w: int| 0 <= w < old_idx.len() && old_idx[w] == x;
                            assert(idx[w] == x);
                        }
                    }
                    assert(old_rem.contains(x as usize));
                    let w = choose|w: int| 0 <= w < old_rem.len() && old_rem[w] == x as usize;
                    assert(e@[old_rem[w] as int].2 <= e@[old_rem[best as int] as int].2);
                }
                if old_out.len() > 0 {
                    assert(!old_idx.contains(pick as int));
                    assert(e@[pick as int].2 <= old_out[old_out.len() - 1].1);
                }
                assert forall|a: int, b: int| 0 <= a < b < out@.len() implies #[trigger] out@[a].1 >= #[trigger] out@[b].1 by {
                    if b == out@.len() - 1 && a < old_out.len() {
                        assert(old_out[a].1 >= old_out[old_out.len() - 1].1);
                    }
                }
            }
        }
        proof {
            assert(is_top_by_bytes(self.entries@, out@, n as nat)) by {
                assert(out@.len() == (if (n as nat) < e@.len() { n as nat } else { e@.len() }));
            }
        }
        out
    }
}

/// Rolling traffic statistics snapshot.
#[derive(Debug)]
pub struct TrafficSnapshot {
    /// When the snapshot was taken, microseconds since the Unix epoch (UTC).
    pub captured_at: Option<i64>,
    pub total_packets: u64,
    pub total_bytes: u64,
    pub top_talkers: Vec<(IpAddress, u64)>,
    pub proto_dist: Vec<(L4Protocol, u64)>,
    pub app_dist: Vec<(AppProtocol, u64)>,
}

/// Rolling statistics aggregator.
pub struct StatsEngine {
    total_packets: u64,
    total_bytes: u64,
    protos: Tally<L4Protocol>,
    apps: Tally<AppProtocol>,
    talkers: Tally<IpAddress>,
}

/// The talker counts after a packet: its source, then its destination,
/// each gets the packet and its bytes.
pub open spec fn talkers_after(m: Map<IpAddress, Counts>, pkt: ParsedPacket) -> Map<IpAddress, Counts> {
    let bytes = pkt.len as u64;
    let m1 = match pkt.src_ip {
        Some(s) => add_packet(m, s, bytes),
        None => m,
    };
    match pkt.dst_ip {
        Some(d) => add_packet(m1, d, bytes),
        None => m1,
    }
}

impl StatsEngine {
    pub closed spec fn packets(&self) -> u64 {
        self.total_packets
    }

    pub closed spec fn bytes(&self) -> u64 {
        self.total_bytes
    }

    /// Packets and bytes per transport protocol.
    pub closed spec fn proto_counts(&self) -> Map<L4Protocol, Counts> {
        self.protos.counts()
    }

    /// Packets and bytes per application protocol.
    pub closed spec fn app_counts(&self) -> Map<AppProtocol, Counts> {
        self.apps.counts()
    }

    /// Packets and bytes per address, counting both source and destination.
    pub closed spec fn talker_counts(&self) -> Map<IpAddress, Counts> {
        self.talkers.counts()
    }

    /// The talker entries, in the order the addresses were first seen.
    pub closed spec fn talker_entries(&self) -> Seq<(IpAddress, u64, u64)> {
        self.talkers.entries@
    }

    pub closed spec fn proto_entries(&self) -> Seq<(L4Protocol, u64, u64)> {
        self.protos.entries@
    }

    pub closed spec fn app_entries(&self) -> Seq<(AppProtocol, u64, u64)> {
        self.apps.entries@
    }

    pub closed spec fn wf(&self) -> bool {
        &&& self.protos.wf() && self.apps.wf() && self.talkers.wf()
        &&& packet_sum(self.apps.entries@) == self.total_packets
        &&& byte_sum(self.apps.entries@) == self.total_bytes
    }

    /// Every packet recorded is counted under exactly one application
    /// protocol: the application counts add up to the totals.
    pub proof fn law_app_counts_add_up(&self)
        requires
            self.wf(),
        ensures
            packet_sum(self.app_entries()) == self.packets(),
            byte_sum(self.app_entries()) == self.bytes(),
    {
    }

    /// Recording `pkt` overflows no counter.
    pub open spec fn room_for(&self, pkt: ParsedPacket) -> bool {
        let bytes = pkt.len as u64;
        &&& self.packets() < u64::MAX
        &&& self.bytes() + bytes <= u64::MAX
        &&& (pkt.l4 matches Some(l) ==> fits(self.proto_counts(), l, bytes))
        &&& fits(self.app_counts(), pkt.app, bytes)
        &&& (pkt.src_ip matches Some(s) ==> fits(self.talker_counts(), s, bytes))
        &&& (pkt.dst_ip matches Some(d) ==> fits(
            match pkt.src_ip {
                Some(s) => add_packet(self.talker_counts(), s, bytes),
                None => self.talker_counts(),
            },
            d,
            bytes,
        ))
    }

    pub fn new() -> (r: Self)
        ensures
            r.wf(),
            r.packets() == 0,
            r.bytes() == 0,
            r.proto_counts().dom().is_empty(),
            r.app_counts().dom().is_empty(),
            r.talker_counts().dom().is_empty(),
            r.proto_entries().len() == 0,
            r.app_entries().len() == 0,
            r.talker_entries().len() == 0,
    {
        StatsEngine {
            total_packets: 0,
            total_bytes: 0,
            protos: Tally::new(),
            apps: Tally::new(),
            talkers: Tally::new(),
        }
    }

    /// Counts one packet in every counter it concerns.
    pub fn record(&mut self, pkt: &ParsedPacket)
        requires
            old(self).wf(),
            old(self).room_for(*pkt),
        ensures
            final(self).wf(),
            final(self).packets() == old(self).packets() + 1,
            final(self).bytes() == old(self).bytes() + pkt.len,
            final(self).proto_counts() == match pkt.l4 {
                Some(l) => add_packet(old(self).proto_counts(), l, pkt.len as u64),
                None => old(self).proto_counts(),
            },
            final(self).app_counts() == add_packet(old(self).app_counts(), pkt.app, pkt.len as u64),
            final(self).talker_counts() == talkers_after(old(self).talker_counts(), *pkt),
    {
        let bytes = pkt.len as u64;
        self.total_packets = self.total_packets + 1;
        self.total_bytes = self.total_bytes + bytes;
        if let Some(l4) = pkt.l4 {
            self.protos.add(l4, bytes);
        }
        self.apps.add(pkt.app, bytes);
        if let Some(ip) = pkt.src_ip {
            self.talkers.add(ip, bytes);
        }
        if let Some(ip) = pkt.dst_ip {
            self.talkers.add(ip, bytes);
        }
    }

    /// Whether recording `pkt` would overflow no counter.
    pub fn can_record(&self, pkt: &ParsedPacket) -> (r: bool)
        requires
            self.wf(),
        ensures
            r == self.room_for(*pkt),
    {
        let bytes = pkt.len as u64;
        if self.total_packets == u64::MAX || self.total_bytes > u64::MAX - bytes {
            return false;
        }
        if let Some(l) = pkt.l4 {
            if !Self::room_in(self.protos.get(&l), bytes) {
                return false;
            }
        }
        if !Self::room_in(self.apps.get(&pkt.app), bytes) {
            return false;
        }
        let src_counts = match pkt.src_ip {
            Some(s) => {
                let c = self.talkers.get(&s);
                if !Self::room_in(c, bytes) {
                    return false;
                }
                Some((s, c))
            },
            None => None,
        };
        if let Some(d) = pkt.dst_ip {
            let mut c = self.talkers.get(&d);
            if let Some((s, sc)) = src_counts {
                if crate::net::ip_eq(s, d) {
                    c = match sc {
                        Some((p, b)) => Some((p + 1, b + bytes)),
                        None => Some((1, bytes)),
                    };
                }
            }
            if !Self::room_in(c, bytes) {
                return false;
            }
        }
        true
    }

    fn room_in(c: Option<Counts>, bytes: u64) -> (r: bool)
        ensures
            r == match c {
                Some((p, b)) => p < u64::MAX && b + bytes <= u64::MAX,
                None => true,
            },
    {
        match c {
            Some((p, b)) => p < u64::MAX && b <= u64::MAX - bytes,
            None => true,
        }
    }

    /// The snapshot as of now.
    pub fn snapshot(&self) -> (r: TrafficSnapshot)
        ensures
            r.captured_at is Some,
            r.total_packets == self.packets(),
            r.total_bytes == self.bytes(),
            is_top_by_bytes(self.talker_entries(), r.top_talkers@, 10),
            r.proto_dist@.len() == self.proto_entries().len(),
            forall|i: int| 0 <= i < r.proto_dist@.len() ==> #[trigger] r.proto_dist@[i] == (self.proto_entries()[i].0, self.proto_entries()[i].1),
            r.app_dist@.len() == self.app_entries().len(),
            forall|i: int| 0 <= i < r.app_dist@.len() ==> #[trigger] r.app_dist@[i] == (self.app_entries()[i].0, self.app_entries()[i].1),
    {
        let now = now_micros();
        self.snapshot_at(now)
    }

    /// Totals, the ten biggest talkers by bytes, and packet counts per
    /// transport and per application protocol, taken at `now`.
    pub fn snapshot_at(&self, now: i64) -> (r: TrafficSnapshot)
        ensures
            r.captured_at == Some(now),
            r.total_packets == self.packets(),
            r.total_bytes == self.bytes(),
            is_top_by_bytes(self.talker_entries(), r.top_talkers@, 10),
            r.proto_dist@.len() == self.proto_entries().len(),
            forall|i: int| 0 <= i < r.proto_dist@.len() ==> #[trigger] r.proto_dist@[i] == (self.proto_entries()[i].0, self.proto_entries()[i].1),
            r.app_dist@.len() == self.app_entries().len(),
            forall|i: int| 0 <= i < r.app_dist@.len() ==> #[trigger] r.app_dist@[i] == (self.app_entries()[i].0, self.app_entries()[i].1),
    {
        TrafficSnapshot {
            captured_at: Some(now),
            total_packets: self.total_packets,
            total_bytes: self.total_bytes,
            top_talkers: self.talkers.top_by_bytes(10),
            proto_dist: self.protos.packet_list(),
            app_dist: self.apps.packet_list(),
        }
    }

    /// Top `n` addresses by total bytes (source and destination counted).
    pub fn top_talkers(&self, n: usize) -> (r: Vec<(IpAddress, u64)>)
        ensures
            is_top_by_bytes(self.talker_entries(), r@, n as nat),
    {
        self.talkers.top_by_bytes(n)
    }

    /// Bytes per transport protocol.
    pub fn proto_byte_dist(&self) -> (r: Vec<(L4Protocol, u64)>)
        ensures
            r@.len() == self.proto_entries().len(),
            forall|i: int| 0 <= i < r@.len() ==> #[trigger] r@[i] == (self.proto_entries()[i].0, self.proto_entries()[i].2),
    {
        self.protos.byte_list()
    }

    /// Bytes per application protocol.
    pub fn app_byte_dist(&self) -> (r: Vec<(AppProtocol, u64)>)
        ensures
            r@.len() == self.app_entries().len(),
            forall|i: int| 0 <= i < r@.len() ==> #[trigger] r@[i] == (self.app_entries()[i].0, self.app_entries()[i].2),
    {
        self.apps.byte_list()
    }
}

impl Default for StatsEngine {
    fn default() -> (r: Self)
        ensures
            r.wf(),
            r.packets() == 0,
            r.bytes() == 0,
            r.proto_counts().dom().is_empty(),
            r.app_counts().dom().is_empty(),
            r.talker_counts().dom().is_empty(),
            r.proto_entries().len() == 0,
            r.app_entries().len() == 0,
            r.talker_entries().len() == 0,
    {
        Self::new()
    }
}

/// Counting a packet of `bytes` bytes under `k` adds one packet and those
/// bytes to `k`'s tally (a key not seen before starts from zero) and leaves
/// every other key's tally as it was.
pub proof fn law_tally_counts_one_packet<K>(m: Map<K, Counts>, k: K, bytes: u64, other: K)
    requires
        fits(m, k, bytes),
    ensures
        add_packet(m, k, bytes).contains_key(k),
        add_packet(m, k, bytes)[k].0 == (if m.contains_key(k) { m[k].0 + 1 } else { 1 }),
        add_packet(m, k, bytes)[k].1 == (if m.contains_key(k) { m[k].1 + bytes } else { bytes as int }),
        other != k ==> (add_packet(m, k, bytes).contains_key(other) == m.contains_key(other)),
        other != k && m.contains_key(other) ==> add_packet(m, k, bytes)[other] == m[other],
{
}

/// A packet whose two addresses differ adds one packet and its length to
/// the talker tally of its source and of its destination, and to no other
/// address.
pub proof fn law_talkers_count_both_ends(m: Map<IpAddress, Counts>, pkt: ParsedPacket, ip: IpAddress)
    requires
        pkt.src_ip != pkt.dst_ip,
        pkt.src_ip matches Some(s) ==> fits(m, s, pkt.len as u64),
        pkt.dst_ip matches Some(d) ==> fits(m, d, pkt.len as u64),
    ensures
        (pkt.src_ip == Some(ip) || pkt.dst_ip == Some(ip)) ==> current(talkers_after(m, pkt), ip) == ((current(m, ip).0 + 1) as u64, (current(m, ip).1 + pkt.len) as u64),
        !(pkt.src_ip == Some(ip) || pkt.dst_ip == Some(ip)) ==> current(talkers_after(m, pkt), ip) == current(m, ip),
{
}

} // verus!
