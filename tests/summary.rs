use evaluation::config::{DataConfiguration, Location};
use evaluation::evasion::{
    attack_bandwidth_of_path, complete_series, contains_str, evasion_ips_of_dir, place_result,
    round_limit,
};
use evaluation::grid::{
    above_train_limits, attacker_total_traffic, grid_configurations, locations_serving,
    low_pass_filter, min_active_periods, min_pkts_avg, window_cache_keys, windows_test,
    windows_train, TOTAL_TIME_LENGTH,
};
use evaluation::network::NetworkKey;

#[test]
fn evasion_count_from_directory() {
    assert_eq!(evasion_ips_of_dir("name-10000ips"), Some(10000));
    assert_eq!(evasion_ips_of_dir("name-0ips"), Some(0));
    assert_eq!(evasion_ips_of_dir("a-b-+7ips"), Some(7));
    assert_eq!(evasion_ips_of_dir("12ips"), Some(12));
    assert_eq!(evasion_ips_of_dir("name-10000"), None);
    assert_eq!(evasion_ips_of_dir("name-ips"), None);
    assert_eq!(evasion_ips_of_dir("name-1x0ips"), None);
    assert_eq!(evasion_ips_of_dir("n-18446744073709551615ips"), Some(u64::MAX));
    assert_eq!(evasion_ips_of_dir("n-18446744073709551616ips"), None);
}

#[test]
fn bandwidth_from_file_name() {
    assert_eq!(
        attack_bandwidth_of_path("./run-0ips/eval_results_xxx_198.51.100.1_109951162777600bps.json"),
        Some(109951162777600)
    );
    assert_eq!(attack_bandwidth_of_path("eval_results_xxx_1.2.3.4_42949672960bps.json"), Some(42949672960));
    assert_eq!(attack_bandwidth_of_path("no_number_here.json"), None);
    assert_eq!(attack_bandwidth_of_path("x_12"), Some(12));
}

#[test]
fn limits_round_half_away_from_zero() {
    assert_eq!(round_limit(1000), 1);
    assert_eq!(round_limit(2499), 2);
    assert_eq!(round_limit(2500), 3);
    assert_eq!(round_limit(0), 0);
    assert_eq!(round_limit(u32::MAX), 255);
}

#[test]
fn results_are_placed_by_window_start() {
    let mut slots: Vec<Option<u32>> = Vec::new();
    place_result(&mut slots, 3, 30);
    assert_eq!(slots, vec![None, None, Some(30)]);
    assert_eq!(complete_series(&slots), None);
    place_result(&mut slots, 1, 10);
    place_result(&mut slots, 2, 20);
    assert_eq!(complete_series(&slots), Some(vec![10, 20, 30]));
}

#[test]
fn substring_search() {
    assert!(contains_str("eval_results_xxx_198.51.100.1_1bps.json", "xxx_198.51.100.1"));
    assert!(!contains_str("eval_results_xxy_198.51.100.1_1bps.json", "xxx_198.51.100.1"));
    assert!(contains_str("abc", ""));
    assert!(!contains_str("ab", "abc"));
}

#[test]
fn locations_and_names() {
    assert_eq!(Location::logical_dsts(), ["xxx_198.51.100.1"]);
    assert_eq!(Location::xxx.best_train_length(), 24);
    assert_eq!(Location::xxx.name(), "xxx");
    assert_eq!(Location::from_name("xxx"), Some(Location::xxx));
    assert_eq!(Location::from_name("xxy"), None);
}

#[test]
fn grid_enumerates_the_product() {
    let dst = NetworkKey::V4 { addr: 0xc633_6401, prefix: 32 };
    let train = vec![24u8];
    let grid = grid_configurations(Location::xxx, dst, &train);
    let mut expected = 0usize;
    for &test in &windows_test() {
        for &active in &min_active_periods() {
            if active <= 24 {
                let starts = (TOTAL_TIME_LENGTH - 24 - test as u32 + 1) as usize;
                expected += starts * min_pkts_avg().len() * low_pass_filter().len() * above_train_limits().len();
            }
        }
    }
    assert_eq!(grid.len(), expected);
    assert_eq!(
        grid[0],
        DataConfiguration {
            location: Location::xxx,
            iprange_dst: dst,
            window_start: 1,
            train_length: 24,
            test_length: 8,
            min_active: 1,
            min_pkts_avg: 64,
            low_pass: 128,
            above_train_limit: 1000,
        }
    );
    assert_eq!(grid[1].window_start, 2);
    assert!(grid.iter().all(|c| c.min_active <= c.train_length));
    // Training length 1 allows only the minimum of one active interval.
    let small = grid_configurations(Location::xxx, dst, &vec![1u8]);
    assert!(small.iter().all(|c| c.min_active == 1));
    assert_eq!(windows_train().len(), 11);
    assert_eq!(attacker_total_traffic(), vec![40u64 * 1024 * 1024 * 1024, 100u64 * 1024 * 1024 * 1024 * 1024]);
}

#[test]
fn window_keys_cover_every_fitting_window() {
    let keys = window_cache_keys();
    let mut expected = Vec::new();
    for start in 1..=TOTAL_TIME_LENGTH {
        for w in windows_train() {
            if start + w as u32 - 1 <= TOTAL_TIME_LENGTH {
                expected.push((start, w));
            }
        }
    }
    assert_eq!(keys, expected);
}

#[test]
fn locations_per_destination() {
    let a = NetworkKey::V4 { addr: 1, prefix: 32 };
    let b = NetworkKey::V4 { addr: 2, prefix: 32 };
    let pairs = vec![(Location::xxx, a), (Location::xxx, b), (Location::xxx, a)];
    assert_eq!(locations_serving(&pairs, &a), 2);
    assert_eq!(locations_serving(&pairs, &b), 1);
    assert_eq!(locations_serving(&vec![], &b), 0);
}
