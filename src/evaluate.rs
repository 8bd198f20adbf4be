//! One evaluation: the traffic of its windows, the evasion pre-step, the
//! merge-join and the classification.
use crate::attack::AttackerTrafficDistribution;
use crate::classify::{
    evaluate_records, first_fatal_at, is_fatal, record_in_range, tally, ClassifyError,
    EvaluationResults, MAX_VOLUME,
};
use crate::config::DataConfiguration;
use crate::join::{
    all_normal, ascending_keys, find, giant_merge_join, is_merge_join, MergedRecord, NotNormalized,
};
use crate::network::NetworkKey;
use crate::window::{valid_map, WindowCache};
use vstd::prelude::*;

verus! {

/// `m` is the largest value of `s`.
pub open spec fn is_largest(s: Seq<(NetworkKey, u64)>, m: u64) -> bool {
    &&& exists|i: int| 0 <= i < s.len() && #[trigger] s[i].1 == m
    &&& forall|i: int| 0 <= i < s.len() ==> (#[trigger] s[i]).1 <= m
}

/// The largest value of `s`, if it is not empty.
pub open spec fn largest(s: Seq<(NetworkKey, u64)>) -> Option<u64> {
    if s.len() == 0 {
        None
    } else {
        Some(choose|m: u64| is_largest(s, m))
    }
}

/// Returns the largest value of `s`, if it is not empty.
pub fn largest_volume(s: &Vec<(NetworkKey, u64)>) -> (r: Option<u64>)
    ensures
        r == largest(s@),
        r matches Some(m) ==> is_largest(s@, m),
{
    if s.len() == 0 {
        return None;
    }
    let mut m: u64 = s[0].1;
    let mut i: usize = 1;
    while i < s.len()
        invariant
            1 <= i <= s@.len(),
            exists|j: int| 0 <= j < i && #[trigger] s@[j].1 == m,
            forall|j: int| 0 <= j < i ==> (#[trigger] s@[j]).1 <= m,
        decreases s@.len() - i,
    {
        if s[i].1 > m {
            m = s[i].1;
        }
        i += 1;
    }
    proof {
        assert(is_largest(s@, m));
        let c = choose|c: u64| is_largest(s@, c);
        let j = choose|j: int| 0 <= j < s@.len() && #[trigger] s@[j].1 == c;
        let k = choose|k: int| 0 <= k < s@.len() && #[trigger] s@[k].1 == m;
        assert(s@[j].1 <= m && s@[k].1 <= c);
    }
    Some(m)
}

/// The record as an evading attacker makes it: a network of the evasion set
/// shows the largest training traffic, if there is any training traffic.
pub open spec fn evasion_record(rec: MergedRecord, evasion: Seq<NetworkKey>, most: Option<u64>) -> MergedRecord {
    if evasion.contains(rec.network) && most is Some {
        MergedRecord { train: most, ..rec }
    } else {
        rec
    }
}

/// All records as an evading attacker makes them.
pub open spec fn with_evasion(recs: Seq<MergedRecord>, evasion: Seq<NetworkKey>, most: Option<u64>) -> Seq<
    MergedRecord,
> {
    recs.map_values(|rec: MergedRecord| evasion_record(rec, evasion, most))
}

/// Whether `k` is in `keys`.
pub fn contains_key(keys: &Vec<NetworkKey>, k: &NetworkKey) -> (r: bool)
    ensures
        r == keys@.contains(*k),
{
    let mut i: usize = 0;
    while i < keys.len()
        invariant
            i <= keys@.len(),
            forall|j: int| 0 <= j < i ==> keys@[j] != *k,
        decreases keys@.len() - i,
    {
        if keys[i].same(k) {
            return true;
        }
        i += 1;
    }
    false
}

/// Gives every network of `evasion` the training traffic `most`, when there
/// is one.
pub fn apply_evasion(recs: Vec<MergedRecord>, evasion: &Vec<NetworkKey>, most: Option<u64>) -> (r: Vec<
    MergedRecord,
>)
    ensures
        r@ == with_evasion(recs@, evasion@, most),
{
    let mut r: Vec<MergedRecord> = Vec::new();
    let mut i: usize = 0;
    while i < recs.len()
        invariant
            i <= recs@.len(),
            r@ =~= with_evasion(recs@.subrange(0, i as int), evasion@, most),
        decreases recs@.len() - i,
    {
        let rec = recs[i];
        if most.is_some() && contains_key(evasion, &rec.network) {
            r.push(MergedRecord { train: most, ..rec });
        } else {
            r.push(rec);
        }
        i += 1;
    }
    assert(recs@.subrange(0, recs@.len() as int) =~= recs@);
    r
}

/// No value of `s` exceeds `MAX_VOLUME`.
pub open spec fn in_range(s: Seq<(NetworkKey, u64)>) -> bool {
    forall|i: int| 0 <= i < s.len() ==> (#[trigger] s[i]).1 <= MAX_VOLUME
}

/// The key of the first value of `s` above `MAX_VOLUME`, if any.
fn first_out_of_range(s: &Vec<(NetworkKey, u64)>) -> (r: Option<NetworkKey>)
    ensures
        r is None <==> in_range(s@),
        r matches Some(k) ==> exists|i: int| 0 <= i < s@.len() && s@[i].0 == k && s@[i].1 > MAX_VOLUME,
{
    let mut i: usize = 0;
    while i < s.len()
        invariant
            i <= s@.len(),
            forall|j: int| 0 <= j < i ==> (#[trigger] s@[j]).1 <= MAX_VOLUME,
        decreases s@.len() - i,
    {
        if s[i].1 > MAX_VOLUME {
            return Some(s[i].0);
        }
        i += 1;
    }
    None
}

/// An evaluation failed.
#[derive(Clone, Copy, Debug, PartialEq, Eq, Structural)]
pub enum EvalError {
    /// The window cache lacks a window that the evaluation reads.
    MissingWindow { start: u32, length: u8 },
    /// A traffic volume exceeds `MAX_VOLUME`.
    VolumeOutOfRange { network: NetworkKey },
    /// A key of an input is not canonical.
    NotNormalized(NotNormalized),
    /// The network is allowlisted and has traffic, but no training traffic.
    AllowlistedWithoutTrain { network: NetworkKey },
}

/// Some value of the three maps is out of range, under key `k`.
pub open spec fn out_of_range_at(
    a: Seq<(NetworkKey, u64)>,
    tr: Seq<(NetworkKey, u64)>,
    te: Seq<(NetworkKey, u64)>,
    k: NetworkKey,
) -> bool {
    ||| exists|i: int| 0 <= i < a.len() && a[i].0 == k && a[i].1 > MAX_VOLUME
    ||| exists|i: int| 0 <= i < tr.len() && tr[i].0 == k && tr[i].1 > MAX_VOLUME
    ||| exists|i: int| 0 <= i < te.len() && te[i].0 == k && te[i].1 > MAX_VOLUME
}

proof fn lemma_find_in_range(s: Seq<(NetworkKey, u64)>, k: NetworkKey)
    requires
        in_range(s),
    ensures
        find(s, k) matches Some(v) ==> v <= MAX_VOLUME,
{
    if crate::join::has_key(s, k) {
        let i = choose|i: int| 0 <= i < s.len() && #[trigger] s[i].0 == k;
        assert(s[i].1 <= MAX_VOLUME);
    }
}

/// What an evaluation returns once both windows are found, with training
/// traffic `tr` and test traffic `te`.
pub open spec fn evaluation_outcome(
    config: &DataConfiguration,
    attacker: &AttackerTrafficDistribution,
    allowlist: Seq<NetworkKey>,
    tr: Seq<(NetworkKey, u64)>,
    te: Seq<(NetworkKey, u64)>,
    r: Result<EvaluationResults, EvalError>,
) -> bool {
    let a = attacker.traffic@;
    let ranges_ok = in_range(a) && in_range(tr) && in_range(te);
    let keys_ok = all_normal(a) && (forall|i: int|
        0 <= i < allowlist.len() ==> (#[trigger] allowlist[i]).is_normal()) && all_normal(tr)
        && all_normal(te);
    &&& (r matches Err(EvalError::VolumeOutOfRange { .. })) <==> !ranges_ok
    &&& (r matches Err(EvalError::VolumeOutOfRange { network }) ==> out_of_range_at(a, tr, te, network))
    &&& ranges_ok ==> ((r matches Err(EvalError::NotNormalized(_))) <==> !keys_ok)
    &&& ranges_ok && keys_ok ==> (r is Ok || (r matches Err(EvalError::AllowlistedWithoutTrain { .. })))
    &&& (r is Ok || (r matches Err(EvalError::AllowlistedWithoutTrain { .. }))) ==> exists|
        recs: Seq<MergedRecord>,
    | {
        &&& #[trigger] is_merge_join(a, allowlist, tr, te, recs)
        &&& match r {
            Ok(v) => {
                &&& forall|i: int|
                    0 <= i < recs.len() ==> !is_fatal(
                        #[trigger] with_evasion(recs, attacker.evasion@, largest(tr))[i],
                    )
                &&& v@ == tally(
                    with_evasion(recs, attacker.evasion@, largest(tr)),
                    config.low_pass as int,
                    config.above_train_limit as int,
                )
                &&& v.is_consistent()
            },
            Err(EvalError::AllowlistedWithoutTrain { network }) => exists|i: int|
                first_fatal_at(with_evasion(recs, attacker.evasion@, largest(tr)), i) && network
                    == recs[i].network,
            _ => false,
        }
    }
}

/// Evaluates one parameter configuration against the attacker traffic.
///
/// Reads the training window (`train_length` intervals from `window_start`)
/// and the test window that follows it from the cache, lets every evasion
/// network show the largest training traffic, merge-joins attack traffic,
/// allowlist, training and test traffic, and classifies every network.
pub fn evaluate_configuration(
    config: &DataConfiguration,
    attacker: &AttackerTrafficDistribution,
    cache: &WindowCache,
    allowlist: &Vec<NetworkKey>,
) -> (r: Result<EvaluationResults, EvalError>)
    requires
        valid_map(attacker.traffic@),
        ascending_keys(allowlist@),
        forall|i: int| 0 <= i < allowlist@.len() ==> (#[trigger] allowlist@[i]).wf(),
        cache.wf(),
        config.window_start + config.train_length <= u32::MAX,
    ensures
        cache.window(config.window_start, config.train_length) is None ==> r == Err::<
            EvaluationResults,
            EvalError,
        >(EvalError::MissingWindow { start: config.window_start, length: config.train_length }),
        cache.window(config.window_start, config.train_length) is Some && cache.window(
            (config.window_start + config.train_length) as u32,
            config.test_length,
        ) is None ==> r == Err::<EvaluationResults, EvalError>(
            EvalError::MissingWindow {
                start: (config.window_start + config.train_length) as u32,
                length: config.test_length,
            },
        ),
        cache.window(config.window_start, config.train_length) matches Some(tr) ==> cache.window(
            (config.window_start + config.train_length) as u32,
            config.test_length,
        ) matches Some(te) ==> evaluation_outcome(config, attacker, allowlist@, tr, te, r),
{
    let train = match cache.get(config.window_start, config.train_length) {
        Some(t) => t,
        None => {
            return Err(
                EvalError::MissingWindow { start: config.window_start, length: config.train_length },
            );
        },
    };
    let test_start: u32 = config.window_start + config.train_length as u32;
    let test = match cache.get(test_start, config.test_length) {
        Some(t) => t,
        None => {
            return Err(EvalError::MissingWindow { start: test_start, length: config.test_length });
        },
    };
    proof {
        assert(cache.windows@.contains_key(crate::window::window_key(config.window_start, config.train_length)));
        assert(cache.windows@.contains_key(crate::window::window_key(test_start, config.test_length)));
    }
    if let Some(k) = first_out_of_range(&attacker.traffic) {
        return Err(EvalError::VolumeOutOfRange { network: k });
    }
    if let Some(k) = first_out_of_range(train) {
        return Err(EvalError::VolumeOutOfRange { network: k });
    }
    if let Some(k) = first_out_of_range(test) {
        return Err(EvalError::VolumeOutOfRange { network: k });
    }
    let most = largest_volume(train);
    let recs = match giant_merge_join(&attacker.traffic, allowlist, train, test) {
        Ok(recs) => recs,
        Err(e) => {
            return Err(EvalError::NotNormalized(e));
        },
    };
    let ghost merged = recs@;
    let evaded = apply_evasion(recs, &attacker.evasion, most);
    proof {
        assert forall|i: int| 0 <= i < evaded@.len() implies record_in_range(#[trigger] evaded@[i]) by {
            let k = merged[i].network;
            assert(merged[i].attack == find(attacker.traffic@, k));
            assert(merged[i].train == find(train@, k));
            assert(merged[i].test == find(test@, k));
            lemma_find_in_range(attacker.traffic@, k);
            lemma_find_in_range(train@, k);
            lemma_find_in_range(test@, k);
            assert(evaded@[i] == evasion_record(merged[i], attacker.evasion@, most));
            if let Some(m) = most {
                let j = choose|j: int| 0 <= j < train@.len() && #[trigger] train@[j].1 == m;
                assert(train@[j].1 <= MAX_VOLUME);
            }
        }
    }
    proof {
        assert(is_merge_join(attacker.traffic@, allowlist@, train@, test@, merged));
        assert(evaded@ == with_evasion(merged, attacker.evasion@, largest(train@)));
    }
    match evaluate_records(&evaded, config.low_pass, config.above_train_limit) {
        Ok(v) => {
            proof {
                assert forall|i: int| 0 <= i < merged.len() implies !is_fatal(
                    #[trigger] with_evasion(merged, attacker.evasion@, largest(train@))[i],
                ) by {
                    assert(!is_fatal(evaded@[i]));
                }
            }
            Ok(v)
        },
        Err(ClassifyError::AllowlistedWithoutTrain { network }) => {
            proof {
                let i = choose|i: int|
                    first_fatal_at(evaded@, i) && ClassifyError::AllowlistedWithoutTrain { network }
                        == (ClassifyError::AllowlistedWithoutTrain { network: evaded@[i].network });
                assert(evaded@[i].network == merged[i].network);
                assert(first_fatal_at(with_evasion(merged, attacker.evasion@, largest(train@)), i));
            }
            Err(EvalError::AllowlistedWithoutTrain { network })
        },
    }
}

} // verus!
