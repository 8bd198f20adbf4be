use evaluation::join::{giant_merge_join, MergedRecord, NotNormalized, TrafficSource};
use evaluation::network::{
    ip_to_network_address, ipv4_to_network_address, ipv6_to_network_address, IpAddress, NetworkKey,
};
use std::cmp::Ordering;
use std::collections::{BTreeMap, BTreeSet};

struct Lcg(u64);

impl Lcg {
    fn next(&mut self) -> u64 {
        self.0 = self.0.wrapping_mul(6364136223846793005).wrapping_add(1442695040888963407);
        self.0 >> 33
    }
}

fn random_key(rng: &mut Lcg) -> NetworkKey {
    if rng.next() % 4 == 0 {
        let prefix = 48;
        let addr = ((rng.next() % 8) as u128) << 80;
        NetworkKey::V6 { addr, prefix }
    } else {
        let prefix = [16u8, 24, 24, 32][(rng.next() % 4) as usize];
        let addr = ipv4_to_network_address(0x0a00_0000 | (rng.next() as u32 % 4096) << 8, prefix);
        NetworkKey::V4 { addr, prefix }
    }
}

fn random_map(rng: &mut Lcg) -> BTreeMap<NetworkKey, u64> {
    let n = rng.next() % 12;
    (0..n).map(|_| (random_key(rng), rng.next() % 1000)).collect()
}

#[test]
fn merge_join_matches_nested_loop_join() {
    let mut rng = Lcg(3);
    for _ in 0..200 {
        let a = random_map(&mut rng);
        let b: BTreeSet<NetworkKey> = random_map(&mut rng).into_keys().collect();
        let c = random_map(&mut rng);
        let d = random_map(&mut rng);
        let av: Vec<_> = a.iter().map(|(k, v)| (*k, *v)).collect();
        let bv: Vec<_> = b.iter().copied().collect();
        let cv: Vec<_> = c.iter().map(|(k, v)| (*k, *v)).collect();
        let dv: Vec<_> = d.iter().map(|(k, v)| (*k, *v)).collect();
        let got = giant_merge_join(&av, &bv, &cv, &dv).unwrap();

        let mut keys: Vec<NetworkKey> = Vec::new();
        for k in av.iter().map(|p| p.0).chain(bv.iter().copied()).chain(cv.iter().map(|p| p.0)).chain(dv.iter().map(|p| p.0)) {
            if !keys.contains(&k) {
                keys.push(k);
            }
        }
        keys.sort();
        let lookup = |m: &Vec<(NetworkKey, u64)>, k: NetworkKey| {
            let mut found = None;
            for (kk, v) in m {
                if *kk == k {
                    found = Some(*v);
                }
            }
            found
        };
        let expected: Vec<MergedRecord> = keys
            .iter()
            .map(|&k| MergedRecord {
                network: k,
                attack: lookup(&av, k),
                allowlisted: bv.contains(&k),
                train: lookup(&cv, k),
                test: lookup(&dv, k),
            })
            .collect();
        assert_eq!(got, expected);
    }
}

#[test]
fn merge_join_of_empty_maps_is_empty() {
    assert_eq!(giant_merge_join(&vec![], &vec![], &vec![], &vec![]).unwrap(), vec![]);
}

#[test]
fn merge_join_rejects_unnormalized_keys() {
    let good = NetworkKey::V4 { addr: 0x0a00_0000, prefix: 24 };
    let bad = NetworkKey::V4 { addr: 0x0a00_0001, prefix: 24 };
    let sources = [TrafficSource::Attack, TrafficSource::Allowlist, TrafficSource::Train, TrafficSource::Test];
    for (i, source) in sources.iter().enumerate() {
        let pick = |j: usize| if i == j { vec![(bad, 1u64)] } else { vec![(good, 1u64)] };
        let allow: Vec<NetworkKey> = pick(1).into_iter().map(|p| p.0).collect();
        let r = giant_merge_join(&pick(0), &allow, &pick(2), &pick(3));
        assert_eq!(r, Err(NotNormalized { source: *source, network: bad }));
    }
}

#[test]
fn normalization_clears_host_bits() {
    assert_eq!(ipv4_to_network_address(0xc0a8_0101, 24), 0xc0a8_0100);
    assert_eq!(ipv4_to_network_address(0xc0a8_0101, 32), 0xc0a8_0101);
    assert_eq!(ipv4_to_network_address(0xc0a8_0101, 0), 0);
    assert_eq!(ipv4_to_network_address(0xffff_ffff, 1), 0x8000_0000);
    assert_eq!(ipv6_to_network_address(u128::MAX, 48), u128::MAX << 80);
    assert_eq!(ipv6_to_network_address(u128::MAX, 0), 0);
    assert_eq!(ipv6_to_network_address(12345, 128), 12345);
    assert_eq!(
        ip_to_network_address(IpAddress::V4(0x0a01_0203), 24, 48),
        IpAddress::V4(0x0a01_0200)
    );
    assert_eq!(
        ip_to_network_address(IpAddress::V6(u128::MAX), 24, 48),
        IpAddress::V6(u128::MAX << 80)
    );
}

#[test]
fn normalization_is_idempotent() {
    let keys = [
        NetworkKey::V4 { addr: 0xdead_beef, prefix: 0 },
        NetworkKey::V4 { addr: 0xdead_beef, prefix: 13 },
        NetworkKey::V4 { addr: 0xdead_beef, prefix: 32 },
        NetworkKey::V6 { addr: u128::MAX - 77, prefix: 0 },
        NetworkKey::V6 { addr: u128::MAX - 77, prefix: 64 },
        NetworkKey::V6 { addr: u128::MAX - 77, prefix: 128 },
    ];
    for k in keys {
        let n = k.normalize();
        assert_eq!(n.normalize(), n);
        assert!(n.is_normalized());
        assert_eq!(n.prefix(), k.prefix());
    }
    assert!(!NetworkKey::V4 { addr: 0xdead_beef, prefix: 13 }.is_normalized());
    assert!(NetworkKey::V4 { addr: 0xdead_beef, prefix: 32 }.is_normalized());
}

#[test]
fn keys_order_by_family_address_prefix() {
    let a = NetworkKey::V4 { addr: 5, prefix: 24 };
    let b = NetworkKey::V4 { addr: 5, prefix: 25 };
    let c = NetworkKey::V4 { addr: 6, prefix: 0 };
    let d = NetworkKey::V6 { addr: 0, prefix: 0 };
    assert_eq!(a.compare(&b), Ordering::Less);
    assert_eq!(b.compare(&c), Ordering::Less);
    assert_eq!(d.compare(&c), Ordering::Greater);
    assert_eq!(a.compare(&a), Ordering::Equal);
    assert!(a.same(&a) && !a.same(&b));
    assert_eq!(NetworkKey::new(IpAddress::V4(7), 8), NetworkKey::V4 { addr: 7, prefix: 8 });
}
