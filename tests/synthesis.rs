use evaluation::attack::{attack_network, create_weighted_attack_traffic, map_keys};
use evaluation::catchment::{
    catchment_share, find_catchment_region, scale_by_catchment, CatchmentRegion,
    DestinationCatchment,
};
use evaluation::network::{IpAddress, NetworkKey};

fn v4(a: u8, b: u8, c: u8, d: u8) -> IpAddress {
    IpAddress::V4(u32::from_be_bytes([a, b, c, d]))
}

fn net(a: u8, b: u8, c: u8) -> NetworkKey {
    NetworkKey::V4 { addr: u32::from_be_bytes([a, b, c, 0]), prefix: 24 }
}

#[test]
fn bandwidth_is_split_by_weight_and_summed_per_network() {
    let sources = vec![(v4(10, 0, 0, 1), 1), (v4(10, 0, 0, 9), 1), (v4(10, 0, 1, 1), 2)];
    // 800 bits per second: one packet per second, 3600 per hour.
    let d = create_weighted_attack_traffic(&sources, 800, 0);
    assert_eq!(d.traffic, vec![(net(10, 0, 0), 1_800_000), (net(10, 0, 1), 1_800_000)]);
    assert!(d.evasion.is_empty());
}

#[test]
fn zero_weight_gives_zero_traffic() {
    let d = create_weighted_attack_traffic(&vec![(v4(1, 2, 3, 4), 0)], 1_000_000, 1);
    assert_eq!(d.traffic, vec![(net(1, 2, 3), 0)]);
    assert_eq!(d.evasion, vec![net(1, 2, 3)]);
}

#[test]
fn ipv6_sources_are_grouped_by_24_bits() {
    let a = IpAddress::V6(0x2001_0db8_u128 << 96);
    let k = attack_network(a);
    assert_eq!(k, NetworkKey::V6 { addr: 0x2001_0d00_u128 << 96, prefix: 24 });
}

#[test]
fn evasion_subset_is_deterministic() {
    let sources: Vec<(IpAddress, u32)> = (0..50u8).map(|i| (v4(10, 0, i, 1), 1 + i as u32)).collect();
    let a = create_weighted_attack_traffic(&sources, 42949672960, 7);
    let b = create_weighted_attack_traffic(&sources, 42949672960, 7);
    assert_eq!(a.evasion, b.evasion);
    assert_eq!(a.evasion.len(), 7);
    let keys = map_keys(&a.traffic);
    for k in &a.evasion {
        assert!(keys.contains(k));
    }
    let mut sorted = a.evasion.clone();
    sorted.sort();
    sorted.dedup();
    assert_eq!(sorted.len(), 7);
    let all = create_weighted_attack_traffic(&sources, 42949672960, 80);
    assert_eq!(all.evasion.len(), 50);
}

fn regions() -> Vec<CatchmentRegion> {
    vec![
        CatchmentRegion {
            start: u32::from_be_bytes([10, 0, 0, 0]),
            end: u32::from_be_bytes([10, 0, 255, 255]),
            destinations: vec![DestinationCatchment {
                destination: v4(203, 0, 113, 1),
                fractions: vec![("xxx".to_string(), 250_000), ("xxy".to_string(), 750_000)],
            }],
        },
        CatchmentRegion {
            start: u32::from_be_bytes([10, 1, 0, 0]),
            end: u32::from_be_bytes([10, 1, 0, 255]),
            destinations: vec![DestinationCatchment {
                destination: v4(203, 0, 113, 2),
                fractions: vec![("xxx".to_string(), 1_000_000)],
            }],
        },
    ]
}

#[test]
fn catchment_region_search() {
    let rs = regions();
    let first = u32::from_be_bytes([10, 0, 7, 0]);
    assert_eq!(find_catchment_region(&rs, first, first + 255), Some(0));
    let first = u32::from_be_bytes([10, 1, 0, 0]);
    assert_eq!(find_catchment_region(&rs, first, first + 255), Some(1));
    let first = u32::from_be_bytes([10, 2, 0, 0]);
    assert_eq!(find_catchment_region(&rs, first, first + 255), None);
    assert_eq!(find_catchment_region(&vec![], 0, 255), None);
}

#[test]
fn catchment_scaling() {
    let rs = regions();
    let loc = "xxx".to_string();
    let dst = v4(203, 0, 113, 1);
    let v6 = NetworkKey::V6 { addr: 1 << 100, prefix: 24 };
    let traffic = vec![
        (net(10, 0, 7), 1000),
        (net(10, 1, 0), 1000),
        (net(10, 2, 0), 1000),
        (v6, 1000),
    ];
    let r = scale_by_catchment(&traffic, &rs, dst, &loc, 4);
    assert_eq!(r, vec![(net(10, 0, 7), 250), (net(10, 1, 0), 250), (net(10, 2, 0), 250), (v6, 1000)]);
    // A location without a fraction for a recorded destination gets nothing.
    let other = "zzz".to_string();
    assert_eq!(catchment_share(net(10, 0, 7), 1000, &rs, dst, &other, 4), None);
    let r = scale_by_catchment(&traffic, &rs, dst, &other, 4);
    assert_eq!(r, vec![(net(10, 1, 0), 250), (net(10, 2, 0), 250), (v6, 1000)]);
    // Full fraction for the second destination.
    assert_eq!(catchment_share(net(10, 1, 0), 1000, &rs, v4(203, 0, 113, 2), &loc, 3), Some(1000));
}
