//! Geographic catchment: the share of each attacker network's traffic that
//! reaches the evaluated location.
//!
//! A catchment region is a contiguous address range with, per anycast
//! destination, the fraction of its traffic that each location receives.
//! Regions are sorted and disjoint, so a binary search finds the one that
//! covers a network.
use crate::join::{ascending, find, has_key};
use crate::network::{v4_network, IpAddress, NetworkKey};
use vstd::prelude::*;

verus! {

/// Fractions are given in millionths.
pub const FRACTION_SCALE: u32 = 1_000_000;

/// For one anycast destination, the fraction (in millionths) of a region's
/// traffic that reaches each location.
#[derive(Clone, Debug)]
pub struct DestinationCatchment {
    pub destination: IpAddress,
    pub fractions: Vec<(String, u32)>,
}

/// A contiguous range of IPv4 addresses with its catchment per destination.
#[derive(Clone, Debug)]
pub struct CatchmentRegion {
    /// First address of the range.
    pub start: u32,
    /// Last address of the range.
    pub end: u32,
    pub destinations: Vec<DestinationCatchment>,
}

/// Regions are non-empty ranges in ascending order that do not overlap, and
/// no fraction exceeds one.
pub open spec fn regions_wf(rs: Seq<CatchmentRegion>) -> bool {
    &&& forall|i: int| 0 <= i < rs.len() ==> (#[trigger] rs[i]).start <= rs[i].end
    &&& forall|i: int, j: int| 0 <= i < j < rs.len() ==> (#[trigger] rs[i]).end < (#[trigger] rs[j]).start
    &&& forall|i: int, j: int, l: int|
        0 <= i < rs.len() && 0 <= j < rs[i].destinations@.len() && 0 <= l
            < rs[i].destinations@[j].fractions@.len() ==> (
        #[trigger] rs[i].destinations@[j].fractions@[l]).1 <= FRACTION_SCALE
}

/// The last address of an IPv4 network.
pub open spec fn v4_broadcast(addr: u32, prefix: u8) -> u32 {
    v4_network(addr, prefix) | if prefix >= 32 {
        0u32
    } else {
        0xffff_ffffu32 >> (prefix as u32)
    }
}

/// Region `r` covers the network from `first` to `last`: it starts before
/// the network and reaches to its end, or it starts where the network does.
pub open spec fn covers(r: CatchmentRegion, first: u32, last: u32) -> bool {
    (r.start < first && r.end >= last) || r.start == first
}

/// The region that covers the network from `first` to `last`, if any.
pub open spec fn covering_region(rs: Seq<CatchmentRegion>, first: u32, last: u32) -> Option<int> {
    if exists|i: int| 0 <= i < rs.len() && covers(#[trigger] rs[i], first, last) {
        Some(choose|i: int| 0 <= i < rs.len() && covers(#[trigger] rs[i], first, last))
    } else {
        None
    }
}

/// The fractions recorded for destination `d`: those of its first entry.
pub open spec fn destination_fractions(ds: Seq<DestinationCatchment>, d: IpAddress) -> Option<
    Seq<(String, u32)>,
>
    decreases ds.len(),
{
    if ds.len() == 0 {
        None
    } else if ds[0].destination == d {
        Some(ds[0].fractions@)
    } else {
        destination_fractions(ds.drop_first(), d)
    }
}

/// The fraction recorded for location `loc`: that of its first entry.
pub open spec fn location_fraction(fs: Seq<(String, u32)>, loc: Seq<char>) -> Option<u32>
    decreases fs.len(),
{
    if fs.len() == 0 {
        None
    } else if fs[0].0@ == loc {
        Some(fs[0].1)
    } else {
        location_fraction(fs.drop_first(), loc)
    }
}

/// The volume of attacker network `k` that reaches location `loc` of
/// destination `d`, out of `v`, or `None` when none does. An IPv6 network
/// keeps all of it. An IPv4 network in a region with fractions for `d` gets
/// the fraction for `loc` (`None` when `loc` has none); in a region without
/// fractions for `d`, or in no region, the volume is split evenly among the
/// `num_locations` locations that serve `d`.
pub open spec fn catchment_volume(
    k: NetworkKey,
    v: u64,
    rs: Seq<CatchmentRegion>,
    d: IpAddress,
    loc: Seq<char>,
    num_locations: u64,
) -> Option<int> {
    match k {
        NetworkKey::V6 { .. } => Some(v as int),
        NetworkKey::V4 { addr, prefix } => match covering_region(
            rs,
            v4_network(addr, prefix),
            v4_broadcast(addr, prefix),
        ) {
            Some(i) => match destination_fractions(rs[i].destinations@, d) {
                Some(fs) => match location_fraction(fs, loc) {
                    Some(f) => Some(v as int * f as int / FRACTION_SCALE as int),
                    None => None,
                },
                None => Some(v as int / num_locations as int),
            },
            None => Some(v as int / num_locations as int),
        },
    }
}

/// At most one region covers a network.
proof fn lemma_covering_unique(rs: Seq<CatchmentRegion>, first: u32, last: u32, i: int)
    requires
        regions_wf(rs),
        first <= last,
        0 <= i < rs.len(),
        covers(rs[i], first, last),
    ensures
        covering_region(rs, first, last) == Some(i),
{
    let j = choose|j: int| 0 <= j < rs.len() && covers(#[trigger] rs[j], first, last);
    if j < i {
        assert(rs[j].end < rs[i].start);
    } else if i < j {
        assert(rs[i].end < rs[j].start);
    }
}

/// Finds, by binary search, the region that covers the network from `first`
/// to `last`.
pub fn find_catchment_region(rs: &Vec<CatchmentRegion>, first: u32, last: u32) -> (r: Option<usize>)
    requires
        regions_wf(rs@),
        first <= last,
    ensures
        r matches Some(i) ==> covering_region(rs@, first, last) == Some(i as int),
        r is None ==> covering_region(rs@, first, last) is None,
{
    let mut lo: usize = 0;
    let mut hi: usize = rs.len();
    while lo < hi
        invariant
            lo <= hi <= rs@.len(),
            regions_wf(rs@),
            first <= last,
            forall|i: int| 0 <= i < lo ==> !covers(#[trigger] rs@[i], first, last),
            forall|i: int| hi <= i < rs@.len() ==> !covers(#[trigger] rs@[i], first, last),
        decreases hi - lo,
    {
        let mid = lo + (hi - lo) / 2;
        let region = &rs[mid];
        if (region.start < first && region.end >= last) || region.start == first {
            proof {
                lemma_covering_unique(rs@, first, last, mid as int);
            }
            return Some(mid);
        } else if region.start < first {
            assert forall|i: int| 0 <= i <= mid implies !covers(#[trigger] rs@[i], first, last) by {
                if i < mid {
                    assert(rs@[i].end < rs@[mid as int].start);
                }
            }
            lo = mid + 1;
        } else {
            assert forall|i: int| mid <= i < rs@.len() implies !covers(#[trigger] rs@[i], first, last) by {
                if mid < i {
                    assert(rs@[mid as int].end < rs@[i].start);
                }
            }
            hi = mid;
        }
    }
    None
}

/// The fractions recorded for destination `d`.
fn find_destination(ds: &Vec<DestinationCatchment>, d: IpAddress) -> (r: Option<usize>)
    ensures
        r matches Some(j) ==> j < ds@.len() && destination_fractions(ds@, d) == Some(
            ds@[j as int].fractions@,
        ),
        r is None ==> destination_fractions(ds@, d) is None,
{
    let mut j: usize = 0;
    assert(ds@.subrange(0, ds@.len() as int) =~= ds@);
    while j < ds.len()
        invariant
            j <= ds@.len(),
            destination_fractions(ds@, d) == destination_fractions(ds@.subrange(j as int, ds@.len() as int), d),
        decreases ds@.len() - j,
    {
        let ghost rest = ds@.subrange(j as int, ds@.len() as int);
        assert(rest.drop_first() =~= ds@.subrange(j + 1, ds@.len() as int));
        assert(rest[0] == ds@[j as int]);
        if ds[j].destination == d {
            return Some(j);
        }
        j += 1;
    }
    None
}

/// The fraction recorded for location `loc`.
fn find_location(fs: &Vec<(String, u32)>, loc: &String) -> (r: Option<u32>)
    ensures
        r == location_fraction(fs@, loc@),
{
    let mut j: usize = 0;
    assert(fs@.subrange(0, fs@.len() as int) =~= fs@);
    while j < fs.len()
        invariant
            j <= fs@.len(),
            location_fraction(fs@, loc@) == location_fraction(fs@.subrange(j as int, fs@.len() as int), loc@),
        decreases fs@.len() - j,
    {
        let ghost rest = fs@.subrange(j as int, fs@.len() as int);
        assert(rest.drop_first() =~= fs@.subrange(j + 1, fs@.len() as int));
        assert(rest[0] == fs@[j as int]);
        if fs[j].0 == *loc {
            return Some(fs[j].1);
        }
        j += 1;
    }
    None
}


/// The volume of attacker network `k` that reaches location `loc` of
/// destination `d`, out of `v`.
pub fn catchment_share(
    k: NetworkKey,
    v: u64,
    rs: &Vec<CatchmentRegion>,
    d: IpAddress,
    loc: &String,
    num_locations: u64,
) -> (r: Option<u64>)
    requires
        regions_wf(rs@),
        k.wf(),
        num_locations > 0,
    ensures
        r matches Some(x) ==> catchment_volume(k, v, rs@, d, loc@, num_locations) == Some(x as int),
        r is None ==> catchment_volume(k, v, rs@, d, loc@, num_locations) is None,
{
    match k {
        NetworkKey::V6 { .. } => Some(v),
        NetworkKey::V4 { addr, prefix } => {
            let first = crate::network::ipv4_to_network_address(addr, prefix);
            let host: u32 = if prefix >= 32 {
                0
            } else {
                0xffff_ffffu32 >> (prefix as u32)
            };
            let last = first | host;
            assert(first <= first | host) by (bit_vector);
            match find_catchment_region(rs, first, last) {
                Some(i) => match find_destination(&rs[i].destinations, d) {
                    Some(j) => {
                        let fs = &rs[i].destinations[j].fractions;
                        match find_location(fs, loc) {
                            Some(f) => {
                                proof {
                                    assert(f <= FRACTION_SCALE) by {
                                        lemma_location_fraction_bounded(fs@, loc@);
                                        assert(rs@[i as int].destinations@[j as int].fractions@ == fs@);
                                    }
                                    assert(v as int * f as int <= 0xffff_ffff_ffff_ffff * 1_000_000)
                                        by (nonlinear_arith)
                                        requires
                                            v <= 0xffff_ffff_ffff_ffff,
                                            f <= 1_000_000,
                                    ;
                                    assert(v as int * f as int / 1_000_000 <= v) by (nonlinear_arith)
                                        requires
                                            f <= 1_000_000,
                                            v >= 0,
                                    ;
                                }
                                Some((v as u128 * f as u128 / FRACTION_SCALE as u128) as u64)
                            },
                            None => None,
                        }
                    },
                    None => Some(v / num_locations),
                },
                None => Some(v / num_locations),
            }
        },
    }
}

proof fn lemma_location_fraction_bounded(fs: Seq<(String, u32)>, loc: Seq<char>)
    requires
        forall|l: int| 0 <= l < fs.len() ==> (#[trigger] fs[l]).1 <= FRACTION_SCALE,
    ensures
        location_fraction(fs, loc) matches Some(f) ==> f <= FRACTION_SCALE,
    decreases fs.len(),
{
    if fs.len() > 0 && fs[0].0@ != loc {
        assert forall|l: int| 0 <= l < fs.drop_first().len() implies (#[trigger] fs.drop_first()[l]).1
            <= FRACTION_SCALE by {
            assert(fs.drop_first()[l] == fs[l + 1]);
        }
        lemma_location_fraction_bounded(fs.drop_first(), loc);
    }
}

/// Scales every network of the attack traffic by the share of its traffic
/// that reaches location `loc` of destination `d`, dropping the networks of
/// which none does; `num_locations` locations serve `d`.
pub fn scale_by_catchment(
    traffic: &Vec<(NetworkKey, u64)>,
    rs: &Vec<CatchmentRegion>,
    d: IpAddress,
    loc: &String,
    num_locations: u64,
) -> (r: Vec<(NetworkKey, u64)>)
    requires
        ascending(traffic@),
        crate::join::all_wf(traffic@),
        regions_wf(rs@),
        num_locations > 0,
    ensures
        ascending(r@),
        forall|k: NetworkKey| #[trigger] has_key(r@, k) ==> has_key(traffic@, k),
        forall|i: int|
            0 <= i < traffic@.len() ==> match catchment_volume(
                (#[trigger] traffic@[i]).0,
                traffic@[i].1,
                rs@,
                d,
                loc@,
                num_locations,
            ) {
                Some(v) => find(r@, traffic@[i].0) == Some(v as u64),
                None => !has_key(r@, traffic@[i].0),
            },
{
    let mut r: Vec<(NetworkKey, u64)> = Vec::new();
    let mut i: usize = 0;
    while i < traffic.len()
        invariant
            i <= traffic@.len(),
            ascending(traffic@),
            crate::join::all_wf(traffic@),
            regions_wf(rs@),
            num_locations > 0,
            ascending(r@),
            forall|j: int| 0 <= j < r@.len() && i < traffic@.len() ==> (#[trigger] r@[j]).0.rank() < traffic@[i as int].0.rank(),
            forall|k: NetworkKey| #[trigger] has_key(r@, k) ==> has_key(traffic@, k),
            forall|m: int|
                0 <= m < i ==> match catchment_volume(
                    (#[trigger] traffic@[m]).0,
                    traffic@[m].1,
                    rs@,
                    d,
                    loc@,
                    num_locations,
                ) {
                    Some(v) => exists|j: int| 0 <= j < r@.len() && r@[j] == (traffic@[m].0, v as u64),
                    None => !has_key(r@, traffic@[m].0),
                },
        decreases traffic@.len() - i,
    {
        let (k, v) = traffic[i];
        let ghost old_r = r@;
        match catchment_share(k, v, rs, d, loc, num_locations) {
            Some(x) => {
                r.push((k, x));
                proof {
                    assert forall|kk: NetworkKey| #[trigger] has_key(r@, kk) implies has_key(traffic@, kk) by {
                        let j = choose|j: int| 0 <= j < r@.len() && #[trigger] r@[j].0 == kk;
                        if j < old_r.len() {
                            assert(old_r[j].0 == kk);
                            assert(has_key(old_r, kk));
                        } else {
                            assert(traffic@[i as int].0 == kk);
                        }
                    }
                    assert forall|m: int| 0 <= m < i + 1 implies match catchment_volume(
                        (#[trigger] traffic@[m]).0,
                        traffic@[m].1,
                        rs@,
                        d,
                        loc@,
                        num_locations,
                    ) {
                        Some(v) => exists|j: int| 0 <= j < r@.len() && r@[j] == (traffic@[m].0, v as u64),
                        None => !has_key(r@, traffic@[m].0),
                    } by {
                        if m < i {
                            assert(traffic@[m].0.rank() < traffic@[i as int].0.rank());
                            match catchment_volume(traffic@[m].0, traffic@[m].1, rs@, d, loc@, num_locations) {
                                Some(v) => {
                                    let j = choose|j: int| 0 <= j < old_r.len() && old_r[j] == (traffic@[m].0, v as u64);
                                    assert(r@[j] == old_r[j]);
                                },
                                None => {
                                    if has_key(r@, traffic@[m].0) {
                                        let j = choose|j: int| 0 <= j < r@.len() && #[trigger] r@[j].0 == traffic@[m].0;
                                        if j < old_r.len() {
                                            assert(old_r[j].0 == traffic@[m].0);
                                        }
                                    }
                                },
                            }
                        } else {
                            assert(r@[old_r.len() as int] == (k, x));
                        }
                    }
                }
            },
            None => {
                proof {
                    assert(!has_key(r@, k)) by {
                        if has_key(r@, k) {
                            let j = choose|j: int| 0 <= j < r@.len() && #[trigger] r@[j].0 == k;
                            assert(r@[j].0.rank() < k.rank());
                        }
                    }
                }
            },
        }
        proof {
            if i + 1 < traffic@.len() {
                assert(traffic@[i as int].0.rank() < traffic@[i + 1].0.rank());
            }
        }
        i += 1;
    }
    proof {
        assert forall|i: int|
            0 <= i < traffic@.len() implies match catchment_volume(
                (#[trigger] traffic@[i]).0,
                traffic@[i].1,
                rs@,
                d,
                loc@,
                num_locations,
            ) {
                Some(v) => find(r@, traffic@[i].0) == Some(v as u64),
                None => !has_key(r@, traffic@[i].0),
            } by {
            match catchment_volume(traffic@[i].0, traffic@[i].1, rs@, d, loc@, num_locations) {
                Some(v) => {
                    let j = choose|j: int| 0 <= j < r@.len() && r@[j] == (traffic@[i].0, v as u64);
                    crate::join::lemma_find_at(r@, j);
                },
                None => {},
            }
        }
    }
    r
}

} // verus!
