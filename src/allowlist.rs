//! Allowlists: the approved source networks of one parameter configuration,
//! and the record of which missing allowlists were already reported.
use crate::config::Location;
use crate::join::ascending_keys;
use crate::network::NetworkKey;
use vstd::prelude::*;

verus! {

/// The networks of `nets` as an ascending set: each once, in key order.
pub fn allowlist_from(nets: &Vec<NetworkKey>) -> (r: Vec<NetworkKey>)
    ensures
        ascending_keys(r@),
        forall|k: NetworkKey| r@.contains(k) <==> nets@.contains(k),
{
    let mut r: Vec<NetworkKey> = Vec::new();
    let mut i: usize = 0;
    while i < nets.len()
        invariant
            i <= nets@.len(),
            ascending_keys(r@),
            forall|k: NetworkKey| r@.contains(k) <==> nets@.subrange(0, i as int).contains(k),
        decreases nets@.len() - i,
    {
        let k = nets[i];
        let ghost before = r@;
        // Position of the first element not below `k`.
        let mut p: usize = 0;
        while p < r.len() && r[p].precedes(&k)
            invariant
                p <= r@.len(),
                r@ == before,
                ascending_keys(r@),
                forall|j: int| 0 <= j < p ==> (#[trigger] r@[j]).rank() < k.rank(),
            decreases r@.len() - p,
        {
            p += 1;
        }
        proof {
            assert(nets@.subrange(0, i + 1) =~= nets@.subrange(0, i as int).push(k));
        }
        if p < r.len() && r[p].same(&k) {
            proof {
                assert forall|kk: NetworkKey| r@.contains(kk) <==> nets@.subrange(0, i + 1).contains(kk) by {
                    if kk == k {
                        assert(r@[p as int] == k);
                    }
                    if nets@.subrange(0, i + 1).contains(kk) && kk != k {
                        let m = choose|m: int| 0 <= m < i + 1 && #[trigger] nets@.subrange(0, i + 1)[m] == kk;
                        assert(nets@.subrange(0, i as int)[m] == kk);
                    }
                }
            }
        } else {
            proof {
                if p < r@.len() {
                    assert(r@[p as int].rank() != k.rank()) by {
                        crate::network::lemma_rank_injective(r@[p as int], k);
                    }
                }
            }
            r.insert(p, k);
            proof {
                assert forall|a: int, b: int| 0 <= a < b < r@.len() implies #[trigger] r@[a].rank()
                    < #[trigger] r@[b].rank() by {
                    if b < p {
                        assert(r@[a] == before[a] && r@[b] == before[b]);
                    } else if b == p {
                        assert(r@[a] == before[a]);
                    } else if a < p {
                        assert(r@[a] == before[a] && r@[b] == before[b - 1]);
                        if b - 1 > p {
                            assert(before[p as int].rank() < before[b - 1].rank());
                        }
                    } else if a == p {
                        assert(r@[b] == before[b - 1]);
                        if b - 1 > p {
                            assert(before[p as int].rank() < before[b - 1].rank());
                        }
                    } else {
                        assert(r@[a] == before[a - 1] && r@[b] == before[b - 1]);
                    }
                }
                assert forall|kk: NetworkKey| r@.contains(kk) <==> nets@.subrange(0, i + 1).contains(kk) by {
                    if r@.contains(kk) {
                        let j = choose|j: int| 0 <= j < r@.len() && #[trigger] r@[j] == kk;
                        if j < p {
                            assert(before[j] == kk);
                        } else if j > p {
                            assert(before[j - 1] == kk);
                        }
                        if kk != k {
                            assert(before.contains(kk));
                            assert(nets@.subrange(0, i as int).contains(kk));
                            let m = choose|m: int| 0 <= m < i && #[trigger] nets@.subrange(0, i as int)[m] == kk;
                            assert(nets@.subrange(0, i + 1)[m] == kk);
                        } else {
                            assert(nets@.subrange(0, i + 1)[i as int] == k);
                        }
                        assert(nets@.subrange(0, i + 1).contains(kk));
                    }
                    if nets@.subrange(0, i + 1).contains(kk) {
                        if kk == k {
                            assert(r@[p as int] == k);
                            assert(r@.contains(kk));
                        } else {
                            let m = choose|m: int| 0 <= m < i + 1 && #[trigger] nets@.subrange(0, i + 1)[m] == kk;
                            assert(nets@.subrange(0, i + 1)[i as int] == k);
                            assert(m < i);
                            assert(nets@.subrange(0, i as int)[m] == kk);
                            assert(nets@.subrange(0, i as int).contains(kk));
                            assert(before.contains(kk));
                            let j = choose|j: int| 0 <= j < before.len() && #[trigger] before[j] == kk;
                            if j < p {
                                assert(r@[j] == kk);
                            } else {
                                assert(r@[j + 1] == kk);
                            }
                            assert(r@.contains(kk));
                        }
                    }
                }
            }
        }
        i += 1;
    }
    assert(nets@.subrange(0, nets@.len() as int) =~= nets@);
    r
}

/// The (location, destination, window start) combinations for which a
/// missing allowlist was reported.
#[derive(Clone, Debug)]
pub struct WarnOnce {
    pub seen: Vec<(Location, NetworkKey, u32)>,
}

impl WarnOnce {
    /// Nothing reported yet.
    pub fn new() -> (r: WarnOnce)
        ensures
            r.seen@ == Seq::<(Location, NetworkKey, u32)>::empty(),
    {
        WarnOnce { seen: Vec::new() }
    }

    /// Records the combination; returns whether it is new, that is whether
    /// to report it.
    pub fn first_time(&mut self, location: Location, dst: NetworkKey, window_start: u32) -> (r: bool)
        ensures
            r == !old(self).seen@.contains((location, dst, window_start)),
            r ==> final(self).seen@ == old(self).seen@.push((location, dst, window_start)),
            !r ==> final(self).seen@ == old(self).seen@,
    {
        let mut i: usize = 0;
        while i < self.seen.len()
            invariant
                i <= self.seen@.len(),
                forall|j: int| 0 <= j < i ==> self.seen@[j] != (location, dst, window_start),
            decreases self.seen@.len() - i,
        {
            let (l, d, w) = self.seen[i];
            if l == location && d.same(&dst) && w == window_start {
                assert(self.seen@[i as int] == (location, dst, window_start));
                return false;
            }
            i += 1;
        }
        self.seen.push((location, dst, window_start));
        true
    }
}

} // verus!
