//! Picking the entries with the largest keys, largest first.

use vstd::prelude::*;

verus! {

/// `idx` picks the `n` largest of `keys` (all of them when there are
/// fewer): distinct positions, largest key first, and no position left out
/// has a larger key than the last one picked.
pub open spec fn is_top(keys: Seq<i128>, idx: Seq<usize>, n: nat) -> bool {
    &&& idx.len() == (if n < keys.len() { n } else { keys.len() })
    &&& idx.no_duplicates()
    &&& forall|i: int| 0 <= i < idx.len() ==> #[trigger] idx[i] < keys.len()
    &&& forall|a: int, b: int| 0 <= a < b < idx.len() ==> keys[#[trigger] idx[a] as int] >= keys[#[trigger] idx[b] as int]
    &&& forall|j: int| 0 <= j < keys.len() && !idx.contains(j as usize) && idx.len() > 0 ==> #[trigger] keys[j] <= keys[idx[idx.len() - 1] as int]
}

/// The positions of the `n` largest keys, largest first; among equal keys
/// the order is unspecified.
pub fn top_indices(keys: &Vec<i128>, n: usize) -> (r: Vec<usize>)
    ensures
        is_top(keys@, r@, n as nat),
{
    let m = keys.len();
    let mut remaining: Vec<usize> = Vec::new();
    let mut j: usize = 0;
    while j < m
        invariant
            m == keys@.len(),
            j <= m,
            remaining@.len() == j,
            forall|q: int| 0 <= q < j ==> #[trigger] remaining@[q] == q,
        decreases m - j,
    {
        remaining.push(j);
        j = j + 1;
    }
    let mut out: Vec<usize> = Vec::new();
    assert(remaining@.no_duplicates());
    assert forall|x: usize| x < m implies (#[trigger] remaining@.contains(x) <==> !out@.contains(x)) by {
        assert(remaining@[x as int] == x);
    }
    while out.len() < n && remaining.len() > 0
        invariant
            m == keys@.len(),
            remaining@.len() + out@.len() == m,
            remaining@.no_duplicates(),
            out@.no_duplicates(),
            forall|q: int| 0 <= q < remaining@.len() ==> #[trigger] remaining@[q] < m,
            forall|i: int| 0 <= i < out@.len() ==> #[trigger] out@[i] < m,
            forall|x: usize| x < m ==> (#[trigger] remaining@.contains(x) <==> !out@.contains(x)),
            forall|x: int| 0 <= x < m && !out@.contains(x as usize) && out@.len() > 0 ==> #[trigger] keys@[x] <= keys@[out@[out@.len() - 1] as int],
            forall|a: int, b: int| 0 <= a < b < out@.len() ==> keys@[#[trigger] out@[a] as int] >= keys@[#[trigger] out@[b] as int],
            out@.len() <= n,
        decreases remaining@.len(),
    {
        let mut best: usize = 0;
        let mut p: usize = 1;
        while p < remaining.len()
            invariant
                m == keys@.len(),
                0 < remaining@.len(),
                best < remaining@.len(),
                1 <= p <= remaining@.len(),
                forall|q: int| 0 <= q < remaining@.len() ==> #[trigger] remaining@[q] < m,
                forall|q: int| 0 <= q < p ==> keys@[remaining@[q] as int] <= keys@[remaining@[best as int] as int],
            decreases remaining@.len() - p,
        {
            if keys[remaining[p]] > keys[remaining[best]] {
                best = p;
            }
            p = p + 1;
        }
        let ghost old_rem = remaining@;
        let ghost old_out = out@;
        let pick = remaining.remove(best);
        out.push(pick);
        proof {
            assert(!old_out.contains(pick)) by {
                assert(old_rem.contains(pick));
            }
            assert forall|x: usize| x < m implies (#[trigger] remaining@.contains(x) <==> !out@.contains(x)) by {
                if x == pick {
                    assert(out@[out@.len() - 1] == x);
                    if remaining@.contains(x) {
                        let w = choose|w: int| 0 <= w < remaining@.len() && remaining@[w] == x;
                        if w < best {
                            assert(old_rem[w] == old_rem[best as int]);
                        } else {
                            assert(old_rem[w + 1] == old_rem[best as int]);
                        }
                    }
                } else {
                    if old_rem.contains(x) {
                        let w = choose|w: int| 0 <= w < old_rem.len() && old_rem[w] == x;
                        if w < best {
                            assert(remaining@[w] == x);
                        } else {
                            assert(w != best);
                            assert(remaining@[w - 1] == x);
                        }
                    } else {
                        if remaining@.contains(x) {
                            let w = choose|w: int| 0 <= w < remaining@.len() && remaining@[w] == x;
                            if w < best {
                                assert(old_rem[w] == x);
                            } else {
                                assert(old_rem[w + 1] == x);
                            }
                        }
                    }
                    if out@.contains(x) {
                        let w = choose|w: int| 0 <= w < out@.len() && out@[w] == x;
                        if w < old_out.len() {
                            assert(old_out[w] == x);
                        }
                    }
                    if old_out.contains(x) {
                        let w = choose|w: int| 0 <= w < old_out.len() && old_out[w] == x;
                        assert(out@[w] == x);
                    }
                }
            }
            assert forall|a: int, b: int| 0 <= a < b < out@.len() implies out@[a] != out@[b] by {
                if b == out@.len() - 1 {
                    assert(old_out.contains(out@[a]));
                } else {
                    assert(old_out[a] != old_out[b]);
                }
            }
            assert forall|a: int, b: int| 0 <= a < b < remaining@.len() implies remaining@[a] != remaining@[b] by {
                let a2 = if a < best { a } else { a + 1 };
                let b2 = if b < best { b } else { b + 1 };
                assert(old_rem[a2] != old_rem[b2]);
            }
            assert forall|x: int| 0 <= x < m && !out@.contains(x as usize) && out@.len() > 0 implies #[trigger] keys@[x] <= keys@[out@[out@.len() - 1] as int] by {
                assert(!old_out.contains(x as usize)) by {
                    if old_out.contains(x as usize) {
                        let w = choose|w: int| 0 <= w < old_out.len() && old_out[w] == x as usize;
                        assert(out@[w] == x as usize);
                    }
                }
                assert(old_rem.contains(x as usize));
                let w = choose|w: int| 0 <= w < old_rem.len() && old_rem[w] == x as usize;
                assert(keys@[old_rem[w] as int] <= keys@[old_rem[best as int] as int]);
            }
            if old_out.len() > 0 {
                assert(keys@[pick as int] <= keys@[old_out[old_out.len() - 1] as int]);
            }
            assert forall|a: int, b: int| 0 <= a < b < out@.len() implies keys@[#[trigger] out@[a] as int] >= keys@[#[trigger] out@[b] as int] by {
                if b == out@.len() - 1 && a < old_out.len() {
                    assert(keys@[old_out[a] as int] >= keys@[old_out[old_out.len() - 1] as int]);
                }
            }
        }
    }
    out
}

} // verus!
