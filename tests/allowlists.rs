use evaluation::allowlist::{allowlist_from, WarnOnce};
use evaluation::config::Location;
use evaluation::network::NetworkKey;

fn k(addr: u32, prefix: u8) -> NetworkKey {
    NetworkKey::V4 { addr, prefix }
}

#[test]
fn allowlist_is_sorted_and_deduplicated() {
    let nets = vec![k(3, 32), k(1, 32), NetworkKey::V6 { addr: 0, prefix: 0 }, k(3, 32), k(1, 24), k(2, 32)];
    assert_eq!(
        allowlist_from(&nets),
        vec![k(1, 24), k(1, 32), k(2, 32), k(3, 32), NetworkKey::V6 { addr: 0, prefix: 0 }]
    );
    assert_eq!(allowlist_from(&vec![]), vec![]);
}

#[test]
fn missing_allowlists_are_reported_once() {
    let mut w = WarnOnce::new();
    assert!(w.first_time(Location::xxx, k(1, 32), 5));
    assert!(!w.first_time(Location::xxx, k(1, 32), 5));
    assert!(w.first_time(Location::xxx, k(1, 32), 6));
    assert!(w.first_time(Location::xxx, k(2, 32), 5));
    assert_eq!(w.seen.len(), 3);
}
