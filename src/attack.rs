//! Synthesis of attacker traffic: a total bandwidth split among weighted
//! source addresses, aggregated per /24 network, scaled by the catchment of
//! each network, and a fixed-seed sample of networks used for evasion.
use crate::classify::share;
use crate::join::{ascending, find, has_key};
use crate::network::{
    lemma_v4_network_monotonic, lemma_v6_network_monotonic, v4_network, v6_network, IpAddress,
    NetworkKey,
};
use vstd::arithmetic::div_mod::lemma_fundamental_div_mod;
use vstd::arithmetic::mul::lemma_mul_is_distributive_add;
use vstd::prelude::*;

verus! {

/// Bits in one attack packet: a 100-byte query with all headers.
pub const BITS_PER_PACKET: u64 = 800;

/// Attack traffic is computed per hour, in thousandths of a packet: a
/// bandwidth of one bit per second gives this much.
pub const VOLUME_PER_BIT_PER_SECOND: u64 = 4500;

/// The largest total bandwidth, in bits per second, whose hourly volume fits
/// a `u64`.
pub const MAX_BITS_PER_SECOND: u64 = 4099276460824344;

/// Prefix length of the networks that attack sources are grouped into.
pub const ATTACK_PREFIX: u8 = 24;

/// The traffic of each attacker network, with the networks picked for evasion.
#[derive(Clone, Debug)]
pub struct AttackerTrafficDistribution {
    /// Volume per network in ascending key order.
    pub traffic: Vec<(NetworkKey, u64)>,
    /// Networks that forge a training history.
    pub evasion: Vec<NetworkKey>,
}

/// Order of addresses: IPv4 before IPv6, then by value.
pub open spec fn addr_rank(ip: IpAddress) -> int {
    match ip {
        IpAddress::V4(a) => a as int,
        IpAddress::V6(a) => 0x1_0000_0000 + a as int,
    }
}

/// The addresses of `s` are in strictly ascending order.
pub open spec fn ascending_addrs(s: Seq<(IpAddress, u32)>) -> bool {
    forall|i: int, j: int| 0 <= i < j < s.len() ==> addr_rank(#[trigger] s[i].0) < addr_rank(
        #[trigger] s[j].0,
    )
}

/// The /24 network that contains `ip`.
pub open spec fn source_network(ip: IpAddress) -> NetworkKey {
    match ip {
        IpAddress::V4(a) => NetworkKey::V4 { addr: v4_network(a, 24), prefix: 24 },
        IpAddress::V6(a) => NetworkKey::V6 { addr: v6_network(a, 24), prefix: 24 },
    }
}

/// The sum of the weights of `s`.
pub open spec fn weight_sum(s: Seq<(IpAddress, u32)>) -> int
    decreases s.len(),
{
    if s.len() == 0 {
        0
    } else {
        weight_sum(s.drop_last()) + s.last().1
    }
}

/// The volume that the sources of `s` within network `k` send, when `volume`
/// is split among all sources in proportion to weight, with total weight
/// `total_weight`.
pub open spec fn network_volume(
    s: Seq<(IpAddress, u32)>,
    k: NetworkKey,
    volume: int,
    total_weight: int,
) -> int
    decreases s.len(),
{
    if s.len() == 0 {
        0
    } else {
        network_volume(s.drop_last(), k, volume, total_weight) + if source_network(s.last().0)
            == k {
            share(volume, s.last().1 as int, total_weight)
        } else {
            0
        }
    }
}

/// Some source of `s` lies in network `k`.
pub open spec fn has_source_in(s: Seq<(IpAddress, u32)>, k: NetworkKey) -> bool {
    exists|i: int| 0 <= i < s.len() && source_network(#[trigger] s[i].0) == k
}

/// The name of what rand's `IteratorRandom::choose_multiple` picks from
/// `keys`, `amount` of them, with a ChaCha12 generator seeded with zero.
pub uninterp spec fn evasion_choice(keys: Seq<NetworkKey>, amount: nat) -> Seq<NetworkKey>;

/// Relies on rand::seq::IteratorRandom::choose_multiple with a ChaCha12
/// generator seeded with zero: a reservoir sample of `amount` elements (all
/// of them when there are fewer), each from a distinct position of `keys`,
/// fixed by `keys` and `amount` since the seed is fixed.
#[verifier::external_body]
fn choose_evasion(keys: &Vec<NetworkKey>, amount: usize) -> (r: Vec<NetworkKey>)
    ensures
        r@ == evasion_choice(keys@, amount as nat),
        r@.len() == if keys@.len() < amount {
            keys@.len()
        } else {
            amount as nat
        },
        forall|i: int| 0 <= i < r@.len() ==> keys@.contains(#[trigger] r@[i]),
        keys@.no_duplicates() ==> r@.no_duplicates(),
{
    let mut rng = <rand_chacha::ChaCha12Rng as rand_chacha::rand_core::SeedableRng>::seed_from_u64(
        0,
    );
    rand::seq::IteratorRandom::choose_multiple(keys.iter().copied(), &mut rng, amount)
}

/// The /24 network that contains `ip`.
pub fn attack_network(ip: IpAddress) -> (r: NetworkKey)
    ensures
        r == source_network(ip),
        r.wf(),
        r.is_normal(),
{
    let k = NetworkKey::new(ip, ATTACK_PREFIX);
    let n = k.normalize();
    proof {
        crate::network::lemma_normalize_idempotent(k);
    }
    n
}

proof fn lemma_source_network_monotonic(a: IpAddress, b: IpAddress)
    requires
        addr_rank(a) <= addr_rank(b),
    ensures
        source_network(a).rank() <= source_network(b).rank(),
        source_network(a).rank() < source_network(b).rank() || source_network(a) == source_network(
            b,
        ),
{
    match (a, b) {
        (IpAddress::V4(x), IpAddress::V4(y)) => lemma_v4_network_monotonic(x, y, 24),
        (IpAddress::V6(x), IpAddress::V6(y)) => lemma_v6_network_monotonic(x, y, 24),
        _ => {},
    }
    crate::network::lemma_rank_injective(source_network(a), source_network(b));
}

/// Sum of the weights, which fits since there are fewer than 2^64 of them.
fn total_weight(source_ips: &Vec<(IpAddress, u32)>) -> (r: u128)
    ensures
        r == weight_sum(source_ips@),
{
    let mut w: u128 = 0;
    let mut i: usize = 0;
    while i < source_ips.len()
        invariant
            i <= source_ips@.len(),
            w == weight_sum(source_ips@.subrange(0, i as int)),
            w <= i * 0xffff_ffff,
        decreases source_ips@.len() - i,
    {
        assert(source_ips@.subrange(0, i + 1).drop_last() =~= source_ips@.subrange(0, i as int));
        proof {
            assert((i + 1) * 0xffff_ffff <= u128::MAX) by (nonlinear_arith)
                requires
                    i < usize::MAX,
                    usize::MAX <= 0xffff_ffff_ffff_ffff,
            ;
        }
        w = w + source_ips[i].1 as u128;
        i += 1;
    }
    assert(source_ips@.subrange(0, source_ips@.len() as int) =~= source_ips@);
    w
}


/// The keys of a map, in its order.
pub open spec fn keys_of(s: Seq<(NetworkKey, u64)>) -> Seq<NetworkKey> {
    s.map_values(|p: (NetworkKey, u64)| p.0)
}

/// The keys of a map, in its order.
pub fn map_keys(s: &Vec<(NetworkKey, u64)>) -> (r: Vec<NetworkKey>)
    ensures
        r@ == keys_of(s@),
{
    let mut r: Vec<NetworkKey> = Vec::new();
    let mut i: usize = 0;
    while i < s.len()
        invariant
            i <= s@.len(),
            r@ =~= keys_of(s@.subrange(0, i as int)),
        decreases s@.len() - i,
    {
        r.push(s[i].0);
        i += 1;
    }
    assert(s@.subrange(0, s@.len() as int) =~= s@);
    r
}

proof fn lemma_weight_prefix(s: Seq<(IpAddress, u32)>, i: int)
    requires
        0 <= i <= s.len(),
    ensures
        weight_sum(s.subrange(0, i)) <= weight_sum(s),
    decreases s.len(),
{
    if i < s.len() {
        assert(s.drop_last().subrange(0, i) =~= s.subrange(0, i));
        lemma_weight_prefix(s.drop_last(), i);
    } else {
        assert(s.subrange(0, i) =~= s);
    }
}

proof fn lemma_network_volume_absent(s: Seq<(IpAddress, u32)>, k: NetworkKey, volume: int, total_weight: int)
    requires
        !has_source_in(s, k),
    ensures
        network_volume(s, k, volume, total_weight) == 0,
    decreases s.len(),
{
    if s.len() > 0 {
        assert(!has_source_in(s.drop_last(), k)) by {
            if has_source_in(s.drop_last(), k) {
                let i = choose|i: int| 0 <= i < s.drop_last().len() && source_network(#[trigger] s.drop_last()[i].0) == k;
                assert(s[i] == s.drop_last()[i]);
            }
        }
        assert(source_network(s.last().0) != k) by {
            assert(s[s.len() - 1] == s.last());
        }
        lemma_network_volume_absent(s.drop_last(), k, volume, total_weight);
    }
}

/// `r` is the attack traffic of the weighted sources `src` with total
/// bandwidth `bps` and `n` evasion networks: one canonical /24 network per
/// group of sources, in ascending order, each with the volume its sources
/// get; and the networks that the fixed-seed sample picks from them.
pub open spec fn is_weighted_attack_traffic(
    src: Seq<(IpAddress, u32)>,
    bps: u64,
    n: usize,
    r: AttackerTrafficDistribution,
) -> bool {
    &&& ascending(r.traffic@)
    &&& forall|i: int|
        0 <= i < r.traffic@.len() ==> (#[trigger] r.traffic@[i]).0.wf() && r.traffic@[i].0.is_normal()
    &&& forall|k: NetworkKey| #[trigger] has_key(r.traffic@, k) <==> has_source_in(src, k)
    &&& forall|j: int|
        0 <= j < r.traffic@.len() ==> (#[trigger] r.traffic@[j]).1 == network_volume(
            src,
            r.traffic@[j].0,
            bps * VOLUME_PER_BIT_PER_SECOND,
            weight_sum(src),
        )
    &&& r.evasion@ == evasion_choice(keys_of(r.traffic@), n as nat)
    &&& r.evasion@.len() == if r.traffic@.len() < n {
        r.traffic@.len()
    } else {
        n as nat
    }
    &&& r.evasion@.no_duplicates()
    &&& forall|i: int| 0 <= i < r.evasion@.len() ==> has_key(r.traffic@, #[trigger] r.evasion@[i])
}

/// The same weights, bandwidth and number of evasion networks always give
/// the same traffic and pick the same evasion networks.
pub proof fn lemma_synthesis_deterministic(
    src: Seq<(IpAddress, u32)>,
    bps: u64,
    n: usize,
    r1: AttackerTrafficDistribution,
    r2: AttackerTrafficDistribution,
)
    requires
        is_weighted_attack_traffic(src, bps, n, r1),
        is_weighted_attack_traffic(src, bps, n, r2),
    ensures
        r1.traffic@ == r2.traffic@,
        r1.evasion@ == r2.evasion@,
{
    let (t1, t2) = (r1.traffic@, r2.traffic@);
    assert forall|k: NetworkKey| #[trigger] find(t1, k) == find(t2, k) by {
        if has_key(t1, k) {
            let i = choose|i: int| 0 <= i < t1.len() && #[trigger] t1[i].0 == k;
            assert(has_source_in(src, k));
            assert(has_key(t2, k));
            let j = choose|j: int| 0 <= j < t2.len() && #[trigger] t2[j].0 == k;
            crate::join::lemma_find_at(t1, i);
            crate::join::lemma_find_at(t2, j);
        } else {
            assert(!has_source_in(src, k));
            assert(!has_key(t2, k));
        }
    }
    crate::join::lemma_ascending_unique(t1, t2);
}

/// Splits `total_bits_per_second`, as an hourly volume in thousandths of a
/// packet, among the source addresses in proportion to their weights, and sums
/// the parts per /24 network. With no weight at all every part is zero. Then
/// picks `evasion_ips` of the networks (all, if there are fewer) with a
/// fixed-seed generator, so that the same inputs always pick the same
/// networks.
pub fn create_weighted_attack_traffic(
    source_ips: &Vec<(IpAddress, u32)>,
    total_bits_per_second: u64,
    evasion_ips: usize,
) -> (r: AttackerTrafficDistribution)
    requires
        ascending_addrs(source_ips@),
        total_bits_per_second <= MAX_BITS_PER_SECOND,
    ensures
        is_weighted_attack_traffic(source_ips@, total_bits_per_second, evasion_ips, r),
{
    let w_total = total_weight(source_ips);
    let volume: u128 = total_bits_per_second as u128 * VOLUME_PER_BIT_PER_SECOND as u128;
    let ghost src = source_ips@;
    let ghost big_w = w_total as int;
    let ghost p = volume as int;
    let ghost mut acc: int = 0;
    let mut out: Vec<(NetworkKey, u64)> = Vec::new();
    let mut i: usize = 0;
    assert(src.subrange(0, 0) =~= Seq::<(IpAddress, u32)>::empty());
    while i < source_ips.len()
        invariant
            src == source_ips@,
            ascending_addrs(src),
            w_total == weight_sum(src),
            volume == total_bits_per_second * VOLUME_PER_BIT_PER_SECOND,
            volume <= u64::MAX,
            big_w == w_total,
            p == volume,
            i <= src.len(),
            ascending(out@),
            forall|j: int| 0 <= j < out@.len() ==> (#[trigger] out@[j]).0.wf() && out@[j].0.is_normal(),
            i == 0 <==> out@.len() == 0,
            i > 0 ==> out@.last().0 == source_network(src[i - 1].0),
            forall|k: NetworkKey|
                #[trigger] has_key(out@, k) <==> has_source_in(src.subrange(0, i as int), k),
            forall|j: int|
                0 <= j < out@.len() ==> (#[trigger] out@[j]).1 == network_volume(
                    src.subrange(0, i as int),
                    out@[j].0,
                    p,
                    big_w,
                ),
            forall|j: int| 0 <= j < out@.len() ==> (#[trigger] out@[j]).1 <= acc,
            acc >= 0,
            big_w == 0 ==> acc == 0,
            acc * big_w <= p * weight_sum(src.subrange(0, i as int)),
        decreases src.len() - i,
    {
        let (ip, weight) = source_ips[i];
        let k = attack_network(ip);
        let part: u128 = if w_total == 0 {
            0
        } else {
            proof {
                assert(volume * weight <= 0xffff_ffff_ffff_ffff * 0xffff_ffff) by (nonlinear_arith)
                    requires
                        volume <= 0xffff_ffff_ffff_ffff,
                        weight <= 0xffff_ffff,
                ;
            }
            volume * weight as u128 / w_total
        };
        let ghost prefix = src.subrange(0, i as int);
        let ghost next = src.subrange(0, i + 1);
        proof {
            assert(next.drop_last() =~= prefix);
            assert(next.last() == src[i as int]);
            lemma_weight_prefix(src, i + 1);
            if big_w > 0 {
                lemma_fundamental_div_mod(p * weight as int, big_w);
                assert(part as int == share(p, weight as int, big_w));
                assert(part * big_w <= p * weight) by (nonlinear_arith)
                    requires
                        part == (p * weight) / big_w,
                        big_w > 0,
                        p * weight == big_w * ((p * weight) / big_w) + (p * weight) % big_w,
                        (p * weight) % big_w >= 0,
                ;
                lemma_mul_is_distributive_add(big_w, acc, part as int);
                lemma_mul_is_distributive_add(p, weight_sum(prefix), weight as int);
                assert((acc + part) * big_w <= p * weight_sum(next));
                assert(weight_sum(next) <= big_w);
                assert(p * weight_sum(next) <= p * big_w) by (nonlinear_arith)
                    requires
                        weight_sum(next) <= big_w,
                        p >= 0,
                ;
                assert(acc + part <= p) by (nonlinear_arith)
                    requires
                        (acc + part) * big_w <= p * big_w,
                        big_w > 0,
                ;
            } else {
                assert(part == 0);
                assert(share(p, weight as int, big_w) == 0);
                assert(weight_sum(next) >= 0) by {
                    lemma_weight_nonneg(next);
                }
            }
            if i > 0 {
                assert(addr_rank(src[i - 1].0) < addr_rank(src[i as int].0));
                lemma_source_network_monotonic(src[i - 1].0, src[i as int].0);
            }
        }
        let n = out.len();
        let ghost old_out = out@;
        if n > 0 && out[n - 1].0.same(&k) {
            let v = out[n - 1].1;
            proof {
                assert(v <= acc);
            }
            out.set(n - 1, (k, v + part as u64));
        } else {
            proof {
                if i > 0 {
                    assert(out@.last().0.rank() < k.rank());
                    assert(!has_key(out@, k)) by {
                        if has_key(out@, k) {
                            let j = choose|j: int| 0 <= j < out@.len() && #[trigger] out@[j].0 == k;
                            if j < out@.len() - 1 {
                                assert(out@[j].0.rank() < out@[out@.len() - 1].0.rank());
                            }
                        }
                    }
                } else {
                    assert(prefix =~= Seq::<(IpAddress, u32)>::empty());
                }
                assert(!has_source_in(prefix, k));
                lemma_network_volume_absent(prefix, k, p, big_w);
            }
            out.push((k, part as u64));
        }
        proof {
            let old_acc = acc;
            acc = acc + part;
            assert forall|kk: NetworkKey| #[trigger] has_key(out@, kk) <==> (has_key(old_out, kk) || kk == k) by {
                if has_key(out@, kk) {
                    let j = choose|j: int| 0 <= j < out@.len() && #[trigger] out@[j].0 == kk;
                    if j < old_out.len() {
                        assert(old_out[j].0 == kk || kk == k);
                    }
                }
                if has_key(old_out, kk) {
                    let j = choose|j: int| 0 <= j < old_out.len() && #[trigger] old_out[j].0 == kk;
                    assert(out@[j].0 == kk);
                }
                if kk == k {
                    assert(out@[out@.len() - 1].0 == k);
                }
            }
            assert forall|kk: NetworkKey| #[trigger] has_source_in(next, kk) <==> (has_source_in(prefix, kk) || kk == k) by {
                if has_source_in(next, kk) {
                    let m = choose|m: int| 0 <= m < next.len() && source_network(#[trigger] next[m].0) == kk;
                    if m < i {
                        assert(prefix[m] == next[m]);
                        assert(has_source_in(prefix, kk));
                    } else {
                        assert(next[m] == src[i as int]);
                    }
                }
                if kk == k {
                    assert(next[i as int] == src[i as int]);
                }
                if has_source_in(prefix, kk) {
                    let m = choose|m: int| 0 <= m < prefix.len() && source_network(#[trigger] prefix[m].0) == kk;
                    assert(next[m] == prefix[m]);
                }
            }
        }
        i += 1;
    }
    assert(src.subrange(0, src.len() as int) =~= src);
    let keys = map_keys(&out);
    let evasion = choose_evasion(&keys, evasion_ips);
    proof {
        assert(keys@.no_duplicates()) by {
            assert forall|a: int, b: int| 0 <= a < keys@.len() && 0 <= b < keys@.len() && a != b implies keys@[a] != keys@[b] by {
                if a < b {
                    assert(out@[a].0.rank() < out@[b].0.rank());
                } else {
                    assert(out@[b].0.rank() < out@[a].0.rank());
                }
            }
        }
        assert forall|i: int| 0 <= i < evasion@.len() implies has_key(out@, #[trigger] evasion@[i]) by {
            assert(keys@.contains(evasion@[i]));
            let j = choose|j: int| 0 <= j < keys@.len() && keys@[j] == evasion@[i];
            assert(out@[j].0 == evasion@[i]);
        }
    }
    AttackerTrafficDistribution { traffic: out, evasion }
}

proof fn lemma_weight_nonneg(s: Seq<(IpAddress, u32)>)
    ensures
        weight_sum(s) >= 0,
    decreases s.len(),
{
    if s.len() > 0 {
        lemma_weight_nonneg(s.drop_last());
    }
}

} // verus!
