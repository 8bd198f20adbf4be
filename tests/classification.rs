use evaluation::attack::AttackerTrafficDistribution;
use evaluation::classify::{
    classify_record, evaluate_records, ClassifyError, EvaluationResults, MAX_VOLUME,
};
use evaluation::config::{DataConfiguration, Location};
use evaluation::evaluate::{evaluate_configuration, EvalError};
use evaluation::join::{MergedRecord, NotNormalized, TrafficSource};
use evaluation::network::NetworkKey;
use evaluation::window::WindowCache;

fn net(a: u8, b: u8, c: u8) -> NetworkKey {
    NetworkKey::V4 { addr: u32::from_be_bytes([a, b, c, 0]), prefix: 24 }
}

fn config(low_pass: u32, above_train_limit: u32) -> DataConfiguration {
    DataConfiguration {
        location: Location::xxx,
        iprange_dst: NetworkKey::V4 { addr: u32::from_be_bytes([198, 51, 100, 1]), prefix: 32 },
        window_start: 1,
        train_length: 1,
        test_length: 1,
        min_active: 1,
        min_pkts_avg: 64,
        low_pass,
        above_train_limit,
    }
}

fn cache(train: Vec<(NetworkKey, u64)>, test: Vec<(NetworkKey, u64)>) -> WindowCache {
    let mut c = WindowCache::new();
    assert!(c.insert(1, 1, train));
    assert!(c.insert(2, 1, test));
    c
}

fn attacker(traffic: Vec<(NetworkKey, u64)>) -> AttackerTrafficDistribution {
    AttackerTrafficDistribution { traffic, evasion: vec![] }
}

#[test]
fn scenario_not_allowlisted_low_pass_split() {
    // Attack 100 packets; test traffic 0.5 packets sampled, 5 after scaling.
    let n = net(10, 0, 0);
    let r = evaluate_configuration(
        &config(50, 2000),
        &attacker(vec![(n, 100_000)]),
        &cache(vec![], vec![(n, 500)]),
        &vec![],
    )
    .unwrap();
    assert_eq!(r.total, 105_000);
    assert_eq!(r.true_negatives, 2_380);
    assert_eq!(r.false_positives, 2_620);
    assert_eq!(r.false_negatives, 47_619);
    assert_eq!(r.true_positives, 52_381);
}

#[test]
fn scenario_allowlisted_with_train_traffic() {
    // Training traffic 100 packets sampled, 1000 after scaling; limit 2.0.
    let n = net(10, 0, 0);
    let r = evaluate_configuration(
        &config(50, 2000),
        &attacker(vec![(n, 100_000)]),
        &cache(vec![(n, 100_000)], vec![(n, 500)]),
        &vec![n],
    )
    .unwrap();
    assert_eq!(r.total, 105_000);
    assert_eq!(r.true_negatives, 5_000);
    assert_eq!(r.false_positives, 0);
    assert_eq!(r.false_negatives, 100_000);
    assert_eq!(r.true_positives, 0);
}

#[test]
fn scenario_allowlisted_without_train_is_fatal() {
    let n = net(10, 0, 0);
    let r = evaluate_configuration(
        &config(50, 2000),
        &attacker(vec![(n, 100_000)]),
        &cache(vec![], vec![(n, 500)]),
        &vec![n],
    );
    assert_eq!(r, Err(EvalError::AllowlistedWithoutTrain { network: n }));
}

#[test]
fn missing_windows_are_reported() {
    let n = net(10, 0, 0);
    let mut c = WindowCache::new();
    let r = evaluate_configuration(&config(50, 1000), &attacker(vec![(n, 1)]), &c, &vec![]);
    assert_eq!(r, Err(EvalError::MissingWindow { start: 1, length: 1 }));
    assert!(c.insert(1, 1, vec![]));
    let r = evaluate_configuration(&config(50, 1000), &attacker(vec![(n, 1)]), &c, &vec![]);
    assert_eq!(r, Err(EvalError::MissingWindow { start: 2, length: 1 }));
}

#[test]
fn volume_out_of_range_is_reported() {
    let n = net(10, 0, 0);
    let r = evaluate_configuration(
        &config(50, 1000),
        &attacker(vec![(n, MAX_VOLUME + 1)]),
        &cache(vec![], vec![]),
        &vec![],
    );
    assert_eq!(r, Err(EvalError::VolumeOutOfRange { network: n }));
}

#[test]
fn unnormalized_key_is_reported() {
    let bad = NetworkKey::V4 { addr: u32::from_be_bytes([10, 0, 0, 7]), prefix: 24 };
    let r = evaluate_configuration(
        &config(50, 1000),
        &attacker(vec![]),
        &cache(vec![], vec![(bad, 5)]),
        &vec![],
    );
    assert_eq!(
        r,
        Err(EvalError::NotNormalized(NotNormalized { source: TrafficSource::Test, network: bad }))
    );
}

#[test]
fn evasion_networks_get_the_largest_training_traffic() {
    let a = net(10, 0, 0);
    let b = net(10, 0, 1);
    let dist = AttackerTrafficDistribution { traffic: vec![(a, 1_000_000)], evasion: vec![a] };
    // Without the evasion step `a` would be allowlisted without training traffic.
    let r = evaluate_configuration(
        &config(50, 1000),
        &dist,
        &cache(vec![(b, 200_000)], vec![]),
        &vec![a],
    )
    .unwrap();
    // Budget 200000 * 10 * 1.0 = 2000000 >= 1000000: all attack traffic passes.
    assert_eq!(r.total, 1_000_000);
    assert_eq!(r.false_negatives, 1_000_000);
    assert_eq!(r.true_positives, 0);
}

fn record(attack: Option<u64>, allowlisted: bool, train: Option<u64>, test: Option<u64>) -> MergedRecord {
    MergedRecord { network: net(10, 0, 0), attack, allowlisted, train, test }
}

#[test]
fn silent_and_zero_records_classify_as_zero() {
    let z = classify_record(&record(None, true, None, None), 50, 1000).unwrap();
    assert_eq!(z, EvaluationResults::zero());
    let z = classify_record(&record(Some(0), false, None, Some(0)), 50, 1000).unwrap();
    assert_eq!(z, EvaluationResults::zero());
}

#[test]
fn classify_record_reports_missing_train() {
    let r = classify_record(&record(Some(5), true, None, None), 50, 1000);
    assert_eq!(r, Err(ClassifyError::AllowlistedWithoutTrain { network: net(10, 0, 0) }));
}

struct Lcg(u64);

impl Lcg {
    fn next(&mut self) -> u64 {
        self.0 = self.0.wrapping_mul(6364136223846793005).wrapping_add(1442695040888963407);
        self.0 >> 33
    }
}

fn random_records(rng: &mut Lcg, n: usize) -> Vec<MergedRecord> {
    (0..n)
        .map(|i| {
            let pick = |rng: &mut Lcg| if rng.next() % 3 == 0 { None } else { Some(rng.next() % 10_000_000) };
            let attack = pick(rng);
            let test = pick(rng);
            let allowlisted = rng.next() % 2 == 0;
            let train = if allowlisted { Some(rng.next() % 1_000_000) } else { pick(rng) };
            MergedRecord { network: net(10, (i / 256) as u8, (i % 256) as u8), attack, allowlisted, train, test }
        })
        .collect()
}

#[test]
fn conservation_on_random_records() {
    let mut rng = Lcg(7);
    for round in 0..50 {
        let recs = random_records(&mut rng, 40);
        let r = evaluate_records(&recs, 128 << (round % 4), 1000 * (1 + round % 4)).unwrap();
        assert_eq!(
            r.true_positives + r.true_negatives + r.false_positives + r.false_negatives,
            r.total
        );
    }
}

#[test]
fn raising_thresholds_moves_traffic_to_negatives() {
    let mut rng = Lcg(11);
    let recs = random_records(&mut rng, 60);
    let lo = evaluate_records(&recs, 128, 1000).unwrap();
    let hi = evaluate_records(&recs, 8192, 4000).unwrap();
    assert_eq!(lo.total, hi.total);
    assert!(lo.true_negatives <= hi.true_negatives);
    assert!(lo.false_negatives <= hi.false_negatives);
    assert!(lo.false_positives >= hi.false_positives);
    assert!(lo.true_positives >= hi.true_positives);
    assert!(lo.true_positives > hi.true_positives || lo.false_positives > hi.false_positives);
}

#[test]
fn results_add_field_by_field() {
    let a = EvaluationResults { total: 10, true_positives: 1, true_negatives: 2, false_positives: 3, false_negatives: 4 };
    let mut b = a.add(a);
    assert_eq!(b.total, 20);
    assert_eq!(b.false_negatives, 8);
    b.add_assign(a);
    assert_eq!(b.true_negatives, 6);
    assert_eq!(b.false_positives, 9);
}

#[test]
fn window_cache_accepts_only_traffic_maps() {
    let mut c = WindowCache::new();
    assert!(c.get(1, 8).is_none());
    assert!(!c.insert(1, 8, vec![(net(10, 0, 1), 1), (net(10, 0, 0), 2)]));
    assert!(!c.insert(1, 8, vec![(NetworkKey::V4 { addr: 0, prefix: 33 }, 1)]));
    assert!(c.get(1, 8).is_none());
    assert!(c.insert(1, 8, vec![(net(10, 0, 0), 2), (net(10, 0, 1), 1)]));
    assert_eq!(c.get(1, 8), Some(&vec![(net(10, 0, 0), 2), (net(10, 0, 1), 1)]));
    assert!(c.get(8, 1).is_none());
}
