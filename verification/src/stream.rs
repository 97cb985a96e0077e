//! TCP stream reassembly: segments held by sequence number and handed out
//! in order once the gap before them has closed.

use vstd::prelude::*;
use std::collections::BTreeMap;
use crate::flow::FlowKey;

verus! {

/// Most bytes a half stream takes in over its life; later segments are
/// dropped.
pub const MAX_BYTES: usize = 0x10_0000;

/// `a + n` on 32-bit sequence numbers, wrapping past the largest.
pub open spec fn seq_add(a: u32, n: nat) -> u32 {
    if a + n > u32::MAX {
        (a + n - 0x1_0000_0000) as u32
    } else {
        (a + n) as u32
    }
}

/// The byte contents of held segments, by sequence number.
pub open spec fn segment_view(m: Map<u32, Vec<u8>>) -> Map<u32, Seq<u8>> {
    m.map_values(|v: Vec<u8>| v@)
}

/// `k` is the smallest sequence number held in `m`.
pub open spec fn is_least_key(m: Map<u32, Seq<u8>>, k: u32) -> bool {
    m.contains_key(k) && forall|j: u32| m.contains_key(j) ==> k <= j
}

pub open spec fn least_key(m: Map<u32, Seq<u8>>) -> u32 {
    choose|k: u32| is_least_key(m, k)
}

/// In-order delivery from held segments `m` when `next` is the sequence
/// number expected next: while the segment with the smallest number starts
/// at or before `next`, it is taken out and its bytes from `next` on, if
/// any, are handed out and `next` moves past them. Gives the segments left,
/// the next expected number, and the bytes handed out.
pub open spec fn deliver(m: Map<u32, Seq<u8>>, next: u32) -> (Map<u32, Seq<u8>>, u32, Seq<u8>)
    decreases m.dom().len(),
    when m.dom().finite()
{
    if !(exists|k: u32| is_least_key(m, k)) || least_key(m) > next {
        (m, next, Seq::empty())
    } else {
        let k = least_key(m);
        let data = m[k];
        let skip = (next - k) as nat;
        let piece = if skip < data.len() {
            data.subrange(skip as int, data.len() as int)
        } else {
            Seq::empty()
        };
        let moved = if skip < data.len() {
            seq_add(next, (data.len() - skip) as nat)
        } else {
            next
        };
        let rest = deliver(m.remove(k), moved);
        (rest.0, rest.1, piece + rest.2)
    }
}

/// The state of one direction: held segments, the sequence number expected
/// next, and the bytes taken in so far.
pub type HalfView = (Map<u32, Seq<u8>>, u32, nat);

/// The smallest key of `m`, or `None` for an empty map.
fn first_key(m: &BTreeMap<u32, Vec<u8>>) -> (r: Option<u32>)
    ensures
        r is None <==> m@.dom().is_empty(),
        r matches Some(k) ==> m@.contains_key(k) && forall|j: u32| m@.contains_key(j) ==> k <= j,
{
    let mut best: Option<u32> = None;
    for k in it: m.keys()
        invariant
            it.seq().unref().to_set() == m@.dom(),
            best is None <==> it.index() == 0,
            best matches Some(b) ==> m@.contains_key(b),
            best matches Some(b) ==> forall|i: int| 0 <= i < it.index() ==> b <= *it.seq()[i],
        ensures
            best is None <==> m@.dom().is_empty(),
            best matches Some(b) ==> m@.contains_key(b) && forall|j: u32| m@.contains_key(j) ==> b <= j,
    {
        proof {
            assert(it.seq().unref().to_set().contains(*it.seq()[it.index() as int]));
        }
        best = match best {
            Some(b) => if *k < b { Some(*k) } else { Some(b) },
            None => Some(*k),
        };
    }
    best
}


proof fn lemma_least_exists(m: Map<u32, Seq<u8>>)
    requires
        m.dom().finite(),
        m.dom().len() > 0,
    ensures
        exists|k: u32| is_least_key(m, k),
    decreases m.dom().len(),
{
    let x = m.dom().choose();
    assert(m.dom().contains(x));
    let r = m.remove(x);
    assert(r.dom() == m.dom().remove(x));
    if r.dom().len() == 0 {
        assert forall|j: u32| m.contains_key(j) implies x <= j by {
            if j != x {
                assert(r.dom().contains(j));
            }
        }
        assert(is_least_key(m, x));
    } else {
        lemma_least_exists(r);
        let y = choose|k: u32| is_least_key(r, k);
        if x < y {
            assert forall|j: u32| m.contains_key(j) implies x <= j by {
                if j != x {
                    assert(r.contains_key(j));
                }
            }
            assert(is_least_key(m, x));
        } else {
            assert forall|j: u32| m.contains_key(j) implies y <= j by {
                if j != x {
                    assert(r.contains_key(j));
                }
            }
            assert(is_least_key(m, y));
        }
    }
}

/// Delivery is complete: every segment still held after it starts past the
/// next expected sequence number.
pub proof fn law_delivery_complete(m: Map<u32, Seq<u8>>, next: u32)
    requires
        m.dom().finite(),
    ensures
        forall|k: u32| #[trigger] deliver(m, next).0.contains_key(k) ==> k > deliver(m, next).1,
    decreases m.dom().len(),
{
    if !(exists|k: u32| is_least_key(m, k)) {
        if m.dom().len() > 0 {
            lemma_least_exists(m);
        }
        assert(m.dom().len() == 0);
        assert forall|k: u32| #[trigger] deliver(m, next).0.contains_key(k) implies k > deliver(m, next).1 by {
            assert(m.dom().contains(k));
        }
    } else if least_key(m) > next {
        let c = least_key(m);
        assert(is_least_key(m, c));
        assert(deliver(m, next) == (m, next, Seq::<u8>::empty()));
    } else {
        let k = least_key(m);
        assert(is_least_key(m, k));
        let data = m[k];
        let skip = (next - k) as nat;
        let moved = if skip < data.len() {
            seq_add(next, (data.len() - skip) as nat)
        } else {
            next
        };
        assert(m.remove(k).dom().finite());
        law_delivery_complete(m.remove(k), moved);
        assert(deliver(m, next).0 == deliver(m.remove(k), moved).0);
        assert(deliver(m, next).1 == deliver(m.remove(k), moved).1);
    }
}

/// Delivering twice hands out nothing more: what one delivery leaves is
/// left as it is by the next.
pub proof fn law_delivery_idempotent(m: Map<u32, Seq<u8>>, next: u32)
    requires
        m.dom().finite(),
    ensures
        deliver(deliver(m, next).0, deliver(m, next).1) == (deliver(m, next).0, deliver(m, next).1, Seq::<u8>::empty()),
    decreases m.dom().len(),
{
    law_delivery_complete(m, next);
    lemma_delivered_finite(m, next);
    let r = deliver(m, next);
    if exists|k: u32| is_least_key(r.0, k) {
        let c = least_key(r.0);
        assert(is_least_key(r.0, c));
        assert(r.0.contains_key(c));
    }
}

proof fn lemma_delivered_finite(m: Map<u32, Seq<u8>>, next: u32)
    requires
        m.dom().finite(),
    ensures
        deliver(m, next).0.dom().finite(),
    decreases m.dom().len(),
{
    if !(exists|k: u32| is_least_key(m, k)) || least_key(m) > next {
    } else {
        let k = least_key(m);
        assert(is_least_key(m, k));
        let data = m[k];
        let skip = (next - k) as nat;
        let moved = if skip < data.len() {
            seq_add(next, (data.len() - skip) as nat)
        } else {
            next
        };
        lemma_delivered_finite(m.remove(k), moved);
    }
}

/// Segment `k` of `m` holds the byte at sequence number `p`.
pub open spec fn covers(m: Map<u32, Seq<u8>>, k: u32, p: int) -> bool {
    m.contains_key(k) && k <= p < k + m[k].len()
}

/// Among the segments of `m` that hold the byte at `p`, `k` starts first.
pub open spec fn first_cover(m: Map<u32, Seq<u8>>, k: u32, p: int) -> bool {
    covers(m, k, p) && forall|j: u32| #[trigger] covers(m, j, p) ==> k <= j
}

/// `b` is the byte at `p` of the first segment of `m` that holds one there.
pub open spec fn run_byte(m: Map<u32, Seq<u8>>, p: int, b: u8) -> bool {
    exists|k: u32| #[trigger] first_cover(m, k, p) && b == m[k][p - k]
}

/// No held segment runs past the largest sequence number.
pub open spec fn no_wrap(m: Map<u32, Seq<u8>>) -> bool {
    forall|k: u32| #[trigger] m.contains_key(k) ==> k + m[k].len() <= u32::MAX
}

/// Delivery hands out the longest run of bytes that the held segments
/// cover without a gap from the next expected sequence number on (where
/// segments overlap, the byte of the one that starts first; bytes before
/// that number are dropped); the next expected number moves past the run
/// and no segment holds the byte there; every segment that starts at or
/// before it is taken out, and every later one is kept unchanged. Stated
/// where no segment runs past the largest sequence number.
pub proof fn law_delivery_longest_run(m: Map<u32, Seq<u8>>, next: u32)
    requires
        m.dom().finite(),
        no_wrap(m),
    ensures
        ({
            let r = deliver(m, next);
            &&& r.1 == next + r.2.len()
            &&& forall|i: int| 0 <= i < r.2.len() ==> run_byte(m, next + i, #[trigger] r.2[i])
            &&& forall|k: u32| !#[trigger] covers(m, k, r.1 as int)
            &&& forall|k: u32| #[trigger] r.0.contains_key(k) <==> m.contains_key(k) && k > r.1
            &&& forall|k: u32| #[trigger] r.0.contains_key(k) ==> r.0[k] == m[k]
        }),
    decreases m.dom().len(),
{
    let r = deliver(m, next);
    if !(exists|k: u32| is_least_key(m, k)) {
        if m.dom().len() > 0 {
            lemma_least_exists(m);
        }
        assert(m.dom().len() == 0);
        assert(r == (m, next, Seq::<u8>::empty()));
        assert forall|k: u32| !#[trigger] covers(m, k, r.1 as int) by {
            assert(!m.dom().contains(k));
        }
        assert forall|k: u32| #[trigger] r.0.contains_key(k) <==> m.contains_key(k) && k > r.1 by {
            assert(!m.dom().contains(k));
        }
    } else if least_key(m) > next {
        let c = least_key(m);
        assert(is_least_key(m, c));
        assert(r == (m, next, Seq::<u8>::empty()));
        assert forall|k: u32| !#[trigger] covers(m, k, r.1 as int) by {
            if m.contains_key(k) {
                assert(c <= k);
            }
        }
        assert forall|k: u32| #[trigger] r.0.contains_key(k) <==> m.contains_key(k) && k > r.1 by {
            if m.contains_key(k) {
                assert(c <= k);
            }
        }
    } else {
        let k = least_key(m);
        assert(is_least_key(m, k));
        let data = m[k];
        let skip = (next - k) as nat;
        let piece = if skip < data.len() {
            data.subrange(skip as int, data.len() as int)
        } else {
            Seq::empty()
        };
        let moved = if skip < data.len() {
            seq_add(next, (data.len() - skip) as nat)
        } else {
            next
        };
        assert(k + data.len() <= u32::MAX);
        assert(moved >= k + data.len());
        assert(moved == next + piece.len());
        let m2 = m.remove(k);
        assert(m2.dom().finite());
        assert(no_wrap(m2)) by {
            assert forall|j: u32| #[trigger] m2.contains_key(j) implies j + m2[j].len() <= u32::MAX by {
                assert(m.contains_key(j));
            }
        }
        law_delivery_longest_run(m2, moved);
        let r2 = deliver(m2, moved);
        assert(r == (r2.0, r2.1, piece + r2.2));
        assert forall|i: int| 0 <= i < r.2.len() implies run_byte(m, next + i, #[trigger] r.2[i]) by {
            let p = next + i;
            if p < moved {
                assert(covers(m, k, p));
                assert forall|j: u32| #[trigger] covers(m, j, p) implies k <= j by {
                    assert(m.contains_key(j));
                }
                assert(first_cover(m, k, p));
                assert(r.2[i] == piece[i]);
                assert(piece[i] == data[p - k]);
            } else {
                let i2 = p - moved;
                assert(0 <= i2 < r2.2.len());
                assert(run_byte(m2, moved + i2, r2.2[i2]));
                let w = choose|w: u32| #[trigger] first_cover(m2, w, p) && r2.2[i2] == m2[w][p - w];
                assert(m2.contains_key(w));
                assert(covers(m, w, p));
                assert forall|j: u32| #[trigger] covers(m, j, p) implies w <= j by {
                    if j != k {
                        assert(covers(m2, j, p));
                    }
                }
                assert(first_cover(m, w, p));
                assert(r.2[i] == r2.2[i2]);
                assert(m2[w] == m[w]);
            }
        }
        assert forall|j: u32| !#[trigger] covers(m, j, r.1 as int) by {
            if j != k && m.contains_key(j) {
                assert(!covers(m2, j, r.1 as int));
            }
        }
        assert forall|j: u32| #[trigger] r.0.contains_key(j) <==> m.contains_key(j) && j > r.1 by {
            assert(r2.0.contains_key(j) <==> m2.contains_key(j) && j > r2.1);
        }
        assert forall|j: u32| #[trigger] r.0.contains_key(j) implies r.0[j] == m[j] by {
            assert(r2.0.contains_key(j));
            assert(r2.0[j] == m2[j]);
        }
    }
}

/// In-order delivery: with nothing held, data taken in at exactly the next
/// expected sequence number is handed out whole at once, and the next
/// expected number moves past it.
pub proof fn law_in_order_delivery(h: HalfView, data: Seq<u8>)
    requires
        half_wf(h),
        h.0.dom().is_empty(),
        0 < data.len(),
        h.2 + data.len() <= MAX_BYTES,
    ensures
        drained(pushed(h, h.1, data)) == ((h.0, seq_add(h.1, data.len()), h.2 + data.len()), data),
{
    let p = pushed(h, h.1, data);
    let m = p.0;
    assert(m == h.0.insert(h.1, data));
    assert(m.dom() =~= set![h.1]);
    assert(is_least_key(m, h.1));
    let k = least_key(m);
    assert(is_least_key(m, k));
    assert(k == h.1);
    assert(m.remove(k) =~= h.0);
    assert(data.subrange(0, data.len() as int) == data);
    let rest = deliver(m.remove(k), seq_add(h.1, data.len()));
    assert(!(exists|j: u32| is_least_key(h.0, j)));
    assert(rest == (h.0, seq_add(h.1, data.len()), Seq::<u8>::empty()));
    assert(data + Seq::<u8>::empty() == data);
}

/// One direction of a TCP connection.
#[derive(Debug)]
pub struct HalfStream {
    segments: BTreeMap<u32, Vec<u8>>,
    next_seq: u32,
    total: usize,
}

impl View for HalfStream {
    type V = HalfView;

    closed spec fn view(&self) -> HalfView {
        (segment_view(self.segments@), self.next_seq, self.total as nat)
    }
}

/// Every held segment is non-empty and no longer than the intake limit,
/// and the intake stays within it.
pub open spec fn half_wf(h: HalfView) -> bool {
    &&& h.0.dom().finite()
    &&& h.2 <= MAX_BYTES
    &&& forall|k: u32| h.0.contains_key(k) ==> 0 < #[trigger] h.0[k].len() <= MAX_BYTES
}

/// A direction that has seen nothing.
pub open spec fn fresh_half() -> HalfView {
    (Map::empty(), 0, 0)
}

/// `data` taken in at sequence number `seq`, unless it is empty or would
/// take the intake past the limit.
pub open spec fn pushed(h: HalfView, seq: u32, data: Seq<u8>) -> HalfView {
    if data.len() == 0 || h.2 + data.len() > MAX_BYTES {
        h
    } else {
        (h.0.insert(seq, data), h.1, h.2 + data.len())
    }
}

/// A SYN at `seq` seen: the next expected number is the one after it.
pub open spec fn synced(h: HalfView, seq: u32) -> HalfView {
    (h.0, seq_add(seq, 1), h.2)
}

/// The direction after in-order delivery, and the bytes delivered.
pub open spec fn drained(h: HalfView) -> (HalfView, Seq<u8>) {
    let r = deliver(h.0, h.1);
    ((r.0, r.1, h.2), r.2)
}

impl HalfStream {
    pub closed spec fn wf(&self) -> bool {
        half_wf(self@)
    }

    /// A direction that has seen nothing.
    pub fn new() -> (r: Self)
        ensures
            r.wf(),
            r@ == fresh_half(),
    {
        let r = HalfStream { segments: BTreeMap::new(), next_seq: 0, total: 0 };
        assert(segment_view(r.segments@) =~= Map::empty());
        r
    }

    /// Takes in `data` at sequence number `seq`, unless it is empty or
    /// would take the intake past the limit.
    pub fn push(&mut self, seq: u32, data: Vec<u8>)
        requires
            old(self).wf(),
        ensures
            final(self).wf(),
            final(self)@ == pushed(old(self)@, seq, data@),
    {
        if data.len() == 0 || data.len() > MAX_BYTES - self.total {
            return;
        }
        self.total = self.total + data.len();
        let ghost d = data@;
        self.segments.insert(seq, data);
        proof {
            assert(segment_view(self.segments@) =~= segment_view(old(self).segments@).insert(seq, d));
        }
    }

    /// Hands out the bytes that follow the next expected sequence number
    /// without a gap. Where no held segment runs past the largest sequence
    /// number: the next expected number moves forward by the bytes handed
    /// out; they are the longest run the held segments cover from it (the
    /// byte of the segment that starts first where segments overlap); no
    /// held segment covers the new next number; every segment that starts
    /// at or before it is gone and every later one is kept unchanged. A
    /// second drain right after hands out nothing.
    pub fn drain(&mut self) -> (out: Vec<u8>)
        requires
            old(self).wf(),
        ensures
            final(self).wf(),
            (final(self)@, out@) == drained(old(self)@),
            drained(final(self)@) == (final(self)@, Seq::<u8>::empty()),
            no_wrap(old(self)@.0) ==> {
                &&& final(self)@.1 == old(self)@.1 + out@.len()
                &&& forall|i: int| 0 <= i < out@.len() ==> run_byte(old(self)@.0, old(self)@.1 + i, #[trigger] out@[i])
                &&& forall|k: u32| !#[trigger] covers(old(self)@.0, k, final(self)@.1 as int)
                &&& forall|k: u32| #[trigger] final(self)@.0.contains_key(k) <==> old(self)@.0.contains_key(k) && k > final(self)@.1
                &&& forall|k: u32| #[trigger] final(self)@.0.contains_key(k) ==> final(self)@.0[k] == old(self)@.0[k]
            },
    {
        let mut out: Vec<u8> = Vec::new();
        loop
            invariant
                self.wf(),
                self.total == old(self).total,
                deliver(old(self)@.0, old(self)@.1) == ({
                    let r = deliver(self@.0, self@.1);
                    (r.0, r.1, out@ + r.2)
                }),
            ensures
                self.wf(),
                self.total == old(self).total,
                deliver(old(self)@.0, old(self)@.1) == (self@.0, self@.1, out@),
            decreases self.segments@.dom().len(),
        {
            let ghost m = self@.0;
            let ghost next = self.next_seq;
            let k = match first_key(&self.segments) {
                Some(k) => k,
                None => {
                    proof {
                        assert(!(exists|k: u32| is_least_key(m, k)));
                        assert(out@ + Seq::<u8>::empty() == out@);
                    }
                    break;
                },
            };
            assert(is_least_key(m, k));
            assert(least_key(m) == k) by {
                let c = least_key(m);
                assert(is_least_key(m, c));
            }
            if k > self.next_seq {
                assert(out@ + Seq::<u8>::empty() == out@);
                break;
            }
            let data = self.segments.remove(&k).unwrap();
            assert(data@ == m[k]);
            assert(segment_view(self.segments@) =~= m.remove(k));
            let skip = self.next_seq.wrapping_sub(k) as usize;
            let ghost before = out@;
            if skip < data.len() {
                let n = data.len() - skip;
                let mut i = skip;
                while i < data.len()
                    invariant
                        skip <= i <= data@.len(),
                        out@ == before + data@.subrange(skip as int, i as int),
                    decreases data@.len() - i,
                {
                    out.push(data[i]);
                    assert(data@.subrange(skip as int, i + 1) == data@.subrange(skip as int, i as int).push(data@[i as int]));
                    i = i + 1;
                }
                self.next_seq = self.next_seq.wrapping_add(n as u32);
            }
            proof {
                let rest = deliver(m.remove(k), self.next_seq);
                assert(before + (out@.subrange(before.len() as int, out@.len() as int)) + rest.2 == out@ + rest.2);
            }
        }
        proof {
            assert(self@.2 == old(self)@.2);
            law_delivery_idempotent(old(self)@.0, old(self)@.1);
            if no_wrap(old(self)@.0) {
                law_delivery_longest_run(old(self)@.0, old(self)@.1);
            }
        }
        out
    }
}

impl Default for HalfStream {
    fn default() -> (r: Self)
        ensures
            r.wf(),
            r@ == fresh_half(),
    {
        HalfStream::new()
    }
}

/// Both directions of a TCP connection, and whether it has closed.
#[derive(Debug)]
pub struct TcpStream {
    pub client: HalfStream,
    pub server: HalfStream,
    pub closed: bool,
}

/// Client direction, server direction, closed.
pub type StreamView = (HalfView, HalfView, bool);

impl View for TcpStream {
    type V = StreamView;

    open spec fn view(&self) -> StreamView {
        (self.client@, self.server@, self.closed)
    }
}

/// A connection that has seen nothing.
pub open spec fn fresh_stream() -> StreamView {
    (fresh_half(), fresh_half(), false)
}

pub open spec fn stream_wf(s: StreamView) -> bool {
    half_wf(s.0) && half_wf(s.1)
}

impl TcpStream {
    pub open spec fn wf(&self) -> bool {
        self.client.wf() && self.server.wf()
    }

    pub fn new() -> (r: Self)
        ensures
            r.wf(),
            r@ == fresh_stream(),
    {
        TcpStream { client: HalfStream::new(), server: HalfStream::new(), closed: false }
    }
}

impl Default for TcpStream {
    fn default() -> (r: Self)
        ensures
            r.wf(),
            r@ == fresh_stream(),
    {
        TcpStream::new()
    }
}

/// TCP flag bits as they stand in the header's flags byte.
pub const FIN: u8 = 0x01;
pub const SYN: u8 = 0x02;
pub const RST: u8 = 0x04;

/// One segment fed to a connection: a FIN or RST closes it; a SYN sets the
/// next expected number of its direction to the one after `seq`; the data
/// is taken in by that direction; then both directions deliver in order.
/// Gives the connection after it, and the client and server bytes
/// delivered.
pub open spec fn fed(s: StreamView, fwd: bool, seq: u32, flags: u8, data: Seq<u8>) -> (StreamView, Seq<u8>, Seq<u8>) {
    let closed = s.2 || flags & (FIN | RST) != 0;
    let syn = flags & SYN != 0;
    let c1 = if syn && fwd { synced(s.0, seq) } else { s.0 };
    let s1 = if syn && !fwd { synced(s.1, seq) } else { s.1 };
    let c2 = if fwd { pushed(c1, seq, data) } else { c1 };
    let s2 = if fwd { s1 } else { pushed(s1, seq, data) };
    let c3 = drained(c2);
    let s3 = drained(s2);
    ((c3.0, s3.0, closed), c3.1, s3.1)
}

/// The connection of `k` in `m`, or a fresh one.
pub open spec fn current_stream(m: Map<FlowKey, StreamView>, k: FlowKey) -> StreamView {
    if m.contains_key(k) {
        m[k]
    } else {
        fresh_stream()
    }
}

/// `k` is the key of an entry of `e`.
pub open spec fn has_key(e: Seq<(FlowKey, TcpStream)>, k: FlowKey) -> bool {
    exists|i: int| 0 <= i < e.len() && e[i].0 == k
}

/// The index of the entry of `e` with key `k`.
pub open spec fn key_index(e: Seq<(FlowKey, TcpStream)>, k: FlowKey) -> int {
    choose|i: int| 0 <= i < e.len() && e[i].0 == k
}

/// No key occurs in two entries.
pub open spec fn distinct_keys(e: Seq<(FlowKey, TcpStream)>) -> bool {
    forall|i: int, j: int| 0 <= i < j < e.len() ==> #[trigger] e[i].0 != #[trigger] e[j].0
}

/// The connections of a list of entries, by key.
pub open spec fn entries_view(e: Seq<(FlowKey, TcpStream)>) -> Map<FlowKey, StreamView> {
    Map::new(|k: FlowKey| has_key(e, k), |k: FlowKey| e[key_index(e, k)].1@)
}

proof fn lemma_entry_at(e: Seq<(FlowKey, TcpStream)>, i: int)
    requires
        distinct_keys(e),
        0 <= i < e.len(),
    ensures
        entries_view(e).contains_key(e[i].0),
        entries_view(e)[e[i].0] == e[i].1@,
{
    let k = e[i].0;
    assert(has_key(e, k));
    let j = key_index(e, k);
    if j != i {
        if j < i {
            assert(e[j].0 != e[i].0);
        } else {
            assert(e[i].0 != e[j].0);
        }
    }
}

/// Reassemblers of the TCP connections seen, by flow key.
pub struct StreamTable {
    streams: Vec<(FlowKey, TcpStream)>,
}

impl View for StreamTable {
    type V = Map<FlowKey, StreamView>;

    closed spec fn view(&self) -> Map<FlowKey, StreamView> {
        entries_view(self.streams@)
    }
}

impl StreamTable {
    pub closed spec fn wf(&self) -> bool {
        &&& distinct_keys(self.streams@)
        &&& forall|i: int| 0 <= i < self.streams@.len() ==> (#[trigger] self.streams@[i]).1.wf()
    }

    /// Every connection held satisfies the intake limits.
    pub proof fn law_streams_within_limits(&self)
        requires
            self.wf(),
        ensures
            forall|k: FlowKey| self@.contains_key(k) ==> stream_wf(#[trigger] self@[k]),
    {
        assert forall|k: FlowKey| self@.contains_key(k) implies stream_wf(#[trigger] self@[k]) by {
            let i = key_index(self.streams@, k);
            assert(self.streams@[i].1.wf());
        }
    }

    /// An empty table.
    pub fn new() -> (r: Self)
        ensures
            r.wf(),
            r@.dom().is_empty(),
    {
        let r = StreamTable { streams: Vec::with_capacity(1024) };
        assert(r@.dom() =~= Set::empty());
        r
    }

    /// The index of the entry for `key`, if there is one.
    fn position(&self, key: &FlowKey) -> (r: Option<usize>)
        ensures
            match r {
                Some(i) => i < self.streams@.len() && self.streams@[i as int].0 == *key,
                None => !has_key(self.streams@, *key),
            },
    {
        let mut i: usize = 0;
        while i < self.streams.len()
            invariant
                i <= self.streams@.len(),
                forall|j: int| 0 <= j < i ==> self.streams@[j].0 != *key,
            decreases self.streams@.len() - i,
        {
            if self.streams[i].0 == *key {
                return Some(i);
            }
            i = i + 1;
        }
        None
    }

    /// Feeds one TCP segment of the connection `key` (`fwd`: sent by the
    /// client) and returns the bytes that became deliverable in order,
    /// (client to server, server to client).
    pub fn feed(&mut self, key: &FlowKey, fwd: bool, seq: u32, flags: u8, data: Vec<u8>) -> (r: (Vec<u8>, Vec<u8>))
        requires
            old(self).wf(),
        ensures
            final(self).wf(),
            final(self)@ == old(self)@.insert(*key, fed(current_stream(old(self)@, *key), fwd, seq, flags, data@).0),
            r.0@ == fed(current_stream(old(self)@, *key), fwd, seq, flags, data@).1,
            r.1@ == fed(current_stream(old(self)@, *key), fwd, seq, flags, data@).2,
    {
        let ghost e0 = self.streams@;
        let mut s = match self.position(key) {
            Some(i) => {
                proof {
                    lemma_entry_at(e0, i as int);
                }
                let (_, s) = self.streams.remove(i);
                s
            },
            None => {
                assert(!old(self)@.contains_key(*key));
                TcpStream::new()
            },
        };
        let ghost e1 = self.streams@;
        assert(s@ == current_stream(old(self)@, *key));
        assert(s.wf());
        let ghost want = fed(s@, fwd, seq, flags, data@);
        let ghost d = data@;
        if flags & (FIN | RST) != 0 {
            s.closed = true;
        }
        if flags & SYN != 0 {
            if fwd {
                s.client.next_seq = seq.wrapping_add(1);
            } else {
                s.server.next_seq = seq.wrapping_add(1);
            }
        }
        if fwd {
            s.client.push(seq, data);
        } else {
            s.server.push(seq, data);
        }
        let a = s.client.drain();
        let b = s.server.drain();
        assert(s@ == want.0);
        self.streams.push((*key, s));
        proof {
            let e2 = self.streams@;
            assert forall|i: int| 0 <= i < e1.len() implies #[trigger] e1[i].0 != *key && e1[i].1.wf() by {
                if has_key(e0, *key) {
                    let p = key_index(e0, *key);
                    assert(e0[p].0 == *key);
                    if i < p {
                        assert(e1[i] == e0[i]);
                        assert(e0[i].0 != e0[p].0);
                    } else {
                        assert(e1[i] == e0[i + 1]);
                        assert(e0[p].0 != e0[i + 1].0);
                    }
                } else {
                    assert(e1[i] == e0[i]);
                }
            }
            assert(distinct_keys(e2));
            assert forall|k: FlowKey| #[trigger] entries_view(e2).dom().contains(k) == old(self)@.insert(*key, want.0).dom().contains(k)
                && (entries_view(e2).dom().contains(k) ==> entries_view(e2)[k] == old(self)@.insert(*key, want.0)[k]) by {
                if k == *key {
                    lemma_entry_at(e2, e1.len() as int);
                } else {
                    if has_key(e0, k) {
                        let p = key_index(e0, k);
                        lemma_entry_at(e0, p);
                        let q = if has_key(e0, *key) && key_index(e0, *key) < p { p - 1 } else { p };
                        if has_key(e0, *key) {
                            let kp = key_index(e0, *key);
                            assert(kp != p);
                        }
                        assert(e2[q] == e0[p]);
                        lemma_entry_at(e2, q);
                    }
                    if has_key(e2, k) {
                        let q = key_index(e2, k);
                        assert(q < e1.len());
                        let p = if has_key(e0, *key) && key_index(e0, *key) <= q { q + 1 } else { q };
                        assert(e0[p] == e2[q]);
                    }
                }
            }
            assert(entries_view(e2) =~= old(self)@.insert(*key, want.0));
        }
        (a, b)
    }

    /// Forgets the connection `key`.
    pub fn remove(&mut self, key: &FlowKey)
        requires
            old(self).wf(),
        ensures
            final(self).wf(),
            final(self)@ == old(self)@.remove(*key),
    {
        let ghost e0 = self.streams@;
        match self.position(key) {
            Some(i) => {
                self.streams.remove(i);
                proof {
                    let e1 = self.streams@;
                    assert forall|k: FlowKey| #[trigger] entries_view(e1).dom().contains(k) == entries_view(e0).remove(*key).dom().contains(k)
                        && (entries_view(e1).dom().contains(k) ==> entries_view(e1)[k] == entries_view(e0).remove(*key)[k]) by {
                        if has_key(e1, k) {
                            let q = key_index(e1, k);
                            let p = if i as int <= q { q + 1 } else { q };
                            assert(e0[p] == e1[q]);
                            assert(e0[i as int].0 == *key);
                            if p < i { assert(e0[p].0 != e0[i as int].0); } else { assert(e0[i as int].0 != e0[p].0); }
                            lemma_entry_at(e0, p);
                        }
                        if has_key(e0, k) && k != *key {
                            let p = key_index(e0, k);
                            lemma_entry_at(e0, p);
                            assert(p != i);
                            let q = if p < i { p } else { p - 1 };
                            assert(e1[q] == e0[p]);
                        }
                    }
                    assert(entries_view(e1) =~= entries_view(e0).remove(*key));
                }
            },
            None => {
                assert(entries_view(e0) =~= entries_view(e0).remove(*key));
            },
        }
    }

    /// The number of connections held.
    pub fn len(&self) -> (r: usize)
        requires
            self.wf(),
        ensures
            r == self@.dom().len(),
    {
        proof {
            let ks = self.streams@.map_values(|p: (FlowKey, TcpStream)| p.0);
            assert(ks.no_duplicates()) by {
                assert forall|i: int, j: int| 0 <= i < ks.len() && 0 <= j < ks.len() && i != j implies ks[i] != ks[j] by {
                    if i < j { assert(self.streams@[i].0 != self.streams@[j].0); } else { assert(self.streams@[j].0 != self.streams@[i].0); }
                }
            }
            ks.unique_seq_to_set();
            assert(ks.to_set() =~= self@.dom()) by {
                assert forall|k: FlowKey| ks.to_set().contains(k) implies self@.dom().contains(k) by {
                    let i = choose|i: int| 0 <= i < ks.len() && ks[i] == k;
                    assert(self.streams@[i].0 == k);
                }
                assert forall|k: FlowKey| self@.dom().contains(k) implies ks.to_set().contains(k) by {
                    let i = key_index(self.streams@, k);
                    assert(ks[i] == k);
                }
            }
        }
        self.streams.len()
    }
}

impl Default for StreamTable {
    fn default() -> (r: Self)
        ensures
            r.wf(),
            r@.dom().is_empty(),
    {
        StreamTable::new()
    }
}

/// A connection closes on a segment with the FIN bit (0x01) or the RST bit
/// (0x04) set, stays closed once closed, and is not closed by any other
/// segment; SYN (0x02) alone does not close it.
pub proof fn law_stream_closes_on_fin_or_rst(s: StreamView, fwd: bool, seq: u32, flags: u8, data: Seq<u8>)
    ensures
        fed(s, fwd, seq, flags, data).0.2 <==> (s.2 || flags & 0x01u8 != 0 || flags & 0x04u8 != 0),
        !s.2 && flags == 0x02u8 ==> !fed(s, fwd, seq, flags, data).0.2,
{
    assert((flags & 0x05u8 != 0) <==> (flags & 0x01u8 != 0 || flags & 0x04u8 != 0)) by (bit_vector);
    assert(FIN | RST == 0x05u8) by (bit_vector);
    assert((0x02u8 & 0x05u8) == 0u8) by (bit_vector);
}

} // verus!
