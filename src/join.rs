//! The four-way sorted merge-join of network-keyed maps.
//!
//! A map is held as a vector of `(key, value)` pairs in strictly ascending key
//! order (as a `BTreeMap` iterates). The join walks the inputs in lockstep and
//! yields one record per key present in at least one input.
use crate::network::NetworkKey;
use vstd::prelude::*;

verus! {

/// The keys of `s` are in strictly ascending order.
pub open spec fn ascending<V>(s: Seq<(NetworkKey, V)>) -> bool {
    forall|i: int, j: int| 0 <= i < j < s.len() ==> #[trigger] s[i].0.rank() < #[trigger] s[j].0.rank()
}

/// The keys in `s` are in strictly ascending order.
pub open spec fn ascending_keys(s: Seq<NetworkKey>) -> bool {
    forall|i: int, j: int| 0 <= i < j < s.len() ==> #[trigger] s[i].rank() < #[trigger] s[j].rank()
}

/// Some pair of `s` has the key `k`.
pub open spec fn has_key<V>(s: Seq<(NetworkKey, V)>, k: NetworkKey) -> bool {
    exists|i: int| 0 <= i < s.len() && #[trigger] s[i].0 == k
}

/// The value that `s` holds under `k`, if any.
pub open spec fn find<V>(s: Seq<(NetworkKey, V)>, k: NetworkKey) -> Option<V> {
    if has_key(s, k) {
        Some(s[choose|i: int| 0 <= i < s.len() && #[trigger] s[i].0 == k].1)
    } else {
        None
    }
}

/// Some row of `r` has the key `k`.
pub open spec fn has_row<X, Y>(r: Seq<(NetworkKey, Option<X>, Option<Y>)>, k: NetworkKey) -> bool {
    exists|j: int| 0 <= j < r.len() && #[trigger] r[j].0 == k
}

/// `r` is the full outer join of `a` and `b`: one row per key of either, in
/// strictly ascending key order, with the value each side holds under it.
pub open spec fn is_outer_join<X, Y>(
    a: Seq<(NetworkKey, X)>,
    b: Seq<(NetworkKey, Y)>,
    r: Seq<(NetworkKey, Option<X>, Option<Y>)>,
) -> bool {
    &&& forall|i: int, j: int| 0 <= i < j < r.len() ==> #[trigger] r[i].0.rank() < #[trigger] r[j].0.rank()
    &&& forall|k: NetworkKey|
        #![trigger has_row(r, k)]
        #![trigger has_key(a, k)]
        #![trigger has_key(b, k)]
        has_row(r, k) <==> has_key(a, k) || has_key(b, k)
    &&& forall|j: int|
        0 <= j < r.len() ==> #[trigger] r[j].1 == find(a, r[j].0) && r[j].2 == find(b, r[j].0)
}

/// In an ascending map the value found under the key of a pair is that pair's.
pub proof fn lemma_find_at<V>(s: Seq<(NetworkKey, V)>, i: int)
    requires
        ascending(s),
        0 <= i < s.len(),
    ensures
        has_key(s, s[i].0),
        find(s, s[i].0) == Some(s[i].1),
{
    assert(s[i].0 == s[i].0);
    assert(has_key(s, s[i].0));
    let j = choose|j: int| 0 <= j < s.len() && #[trigger] s[j].0 == s[i].0;
    if j < i {
        assert(s[j].0.rank() < s[i].0.rank());
    } else if i < j {
        assert(s[i].0.rank() < s[j].0.rank());
    }
}

/// Two ascending maps with the same value (or none) under every key are
/// equal.
pub proof fn lemma_ascending_unique<V>(s: Seq<(NetworkKey, V)>, t: Seq<(NetworkKey, V)>)
    requires
        ascending(s),
        ascending(t),
        forall|k: NetworkKey| #[trigger] find(s, k) == find(t, k),
    ensures
        s == t,
    decreases s.len() + t.len(),
{
    if s.len() == 0 && t.len() == 0 {
        assert(s =~= t);
    } else if s.len() == 0 {
        lemma_find_at(t, 0);
        assert(find(s, t[0].0) is None);
    } else if t.len() == 0 {
        lemma_find_at(s, 0);
        assert(find(t, s[0].0) is None);
    } else {
        let ls = s.len() - 1;
        let lt = t.len() - 1;
        lemma_find_at(s, ls);
        lemma_find_at(t, lt);
        // The last key of each is the largest key of both.
        assert(find(s, s[ls].0) == find(t, s[ls].0));
        assert(find(s, t[lt].0) == find(t, t[lt].0));
        assert(has_key(t, s[ls].0));
        assert(has_key(s, t[lt].0));
        let i = choose|i: int| 0 <= i < t.len() && #[trigger] t[i].0 == s[ls].0;
        let j = choose|j: int| 0 <= j < s.len() && #[trigger] s[j].0 == t[lt].0;
        if i < lt {
            assert(t[i].0.rank() < t[lt].0.rank());
            if j < ls {
                assert(s[j].0.rank() < s[ls].0.rank());
            }
        }
        if j < ls {
            assert(s[j].0.rank() < s[ls].0.rank());
        }
        assert(s[ls].0 == t[lt].0);
        assert(s[ls] == t[lt]);
        let s2 = s.drop_last();
        let t2 = t.drop_last();
        assert forall|k: NetworkKey| #[trigger] find(s2, k) == find(t2, k) by {
            lemma_find_drop_last(s, k);
            lemma_find_drop_last(t, k);
        }
        lemma_ascending_unique(s2, t2);
        assert(s =~= s2.push(s[ls]));
        assert(t =~= t2.push(t[lt]));
    }
}

/// Dropping the last pair of an ascending map removes exactly its key.
proof fn lemma_find_drop_last<V>(s: Seq<(NetworkKey, V)>, k: NetworkKey)
    requires
        ascending(s),
        s.len() > 0,
    ensures
        ascending(s.drop_last()),
        find(s.drop_last(), k) == if k == s.last().0 {
            None
        } else {
            find(s, k)
        },
{
    let d = s.drop_last();
    assert forall|i: int, j: int| 0 <= i < j < d.len() implies #[trigger] d[i].0.rank() < #[trigger] d[j].0.rank() by {
        assert(d[i] == s[i] && d[j] == s[j]);
    }
    if has_key(d, k) {
        let i = choose|i: int| 0 <= i < d.len() && #[trigger] d[i].0 == k;
        assert(s[i] == d[i]);
        lemma_find_at(d, i);
        lemma_find_at(s, i);
        assert(s[i].0.rank() < s[s.len() - 1].0.rank());
    } else {
        if k != s.last().0 && has_key(s, k) {
            let i = choose|i: int| 0 <= i < s.len() && #[trigger] s[i].0 == k;
            if i < s.len() - 1 {
                assert(d[i] == s[i]);
            }
        }
        if k == s.last().0 {
            assert(!has_key(d, k));
        }
    }
}

/// Relies on itertools::merge_join_by: on two inputs in ascending order of the
/// comparison it is given, it yields one item per key of either input, in
/// ascending order, holding the elements that each input has under that key.
#[verifier::external_body]
fn outer_join<X: Copy, Y: Copy>(left: &Vec<(NetworkKey, X)>, right: &Vec<(NetworkKey, Y)>) -> (r: Vec<
    (NetworkKey, Option<X>, Option<Y>),
>)
    requires
        ascending(left@),
        ascending(right@),
    ensures
        is_outer_join(left@, right@, r@),
{
    itertools::merge_join_by(left.iter(), right.iter(), |l, r| l.0.compare(&r.0)).map(
        |item| match item {
            itertools::EitherOrBoth::Both(l, r) => (l.0, Some(l.1), Some(r.1)),
            itertools::EitherOrBoth::Left(l) => (l.0, Some(l.1), None),
            itertools::EitherOrBoth::Right(r) => (r.0, None, Some(r.1)),
        },
    ).collect()
}


/// Unpacks an optional pair of options; a missing pair is a pair of `None`s.
pub open spec fn flat2<X, Y>(o: Option<(Option<X>, Option<Y>)>) -> (Option<X>, Option<Y>) {
    match o {
        Some(v) => v,
        None => (None, None),
    }
}

/// The rows of `r` as `(key, (left, right))` pairs.
pub open spec fn pairs_of<X, Y>(r: Seq<(NetworkKey, Option<X>, Option<Y>)>, p: Seq<(NetworkKey, (Option<X>, Option<Y>))>) -> bool {
    &&& p.len() == r.len()
    &&& forall|i: int| 0 <= i < r.len() ==> #[trigger] p[i] == (r[i].0, (r[i].1, r[i].2))
}

/// An outer join read as a map is again ascending, holds the keys of both
/// sides, and holds under each key the values of both sides.
pub proof fn lemma_pairs_of_join<X, Y>(
    a: Seq<(NetworkKey, X)>,
    b: Seq<(NetworkKey, Y)>,
    r: Seq<(NetworkKey, Option<X>, Option<Y>)>,
    p: Seq<(NetworkKey, (Option<X>, Option<Y>))>,
)
    requires
        is_outer_join(a, b, r),
        pairs_of(r, p),
    ensures
        ascending(p),
        forall|k: NetworkKey| #[trigger] has_key(p, k) <==> has_key(a, k) || has_key(b, k),
        forall|k: NetworkKey| #[trigger] flat2(find(p, k)) == (find(a, k), find(b, k)),
{
    assert forall|i: int, j: int| 0 <= i < j < p.len() implies #[trigger] p[i].0.rank() < #[trigger] p[j].0.rank() by {
        assert(p[i].0 == r[i].0 && p[j].0 == r[j].0);
        assert(r[i].0.rank() < r[j].0.rank());
    }
    assert forall|k: NetworkKey| #[trigger] has_key(p, k) <==> has_row(r, k) by {
        if has_key(p, k) {
            let i = choose|i: int| 0 <= i < p.len() && #[trigger] p[i].0 == k;
            assert(r[i].0 == k);
        }
        if has_row(r, k) {
            let j = choose|j: int| 0 <= j < r.len() && #[trigger] r[j].0 == k;
            assert(p[j].0 == k);
        }
    }
    assert forall|k: NetworkKey| #[trigger] flat2(find(p, k)) == (find(a, k), find(b, k)) by {
        if has_key(p, k) {
            let i = choose|i: int| 0 <= i < p.len() && #[trigger] p[i].0 == k;
            lemma_find_at(p, i);
            assert(r[i].0 == k);
        } else {
            assert(!has_row(r, k));
            assert(!has_key(a, k));
            assert(!has_key(b, k));
        }
    }
}

/// The rows of an outer join as `(key, (left, right))` pairs.
fn rows_to_pairs<X: Copy, Y: Copy>(r: &Vec<(NetworkKey, Option<X>, Option<Y>)>) -> (p: Vec<
    (NetworkKey, (Option<X>, Option<Y>)),
>)
    ensures
        pairs_of(r@, p@),
{
    let mut p: Vec<(NetworkKey, (Option<X>, Option<Y>))> = Vec::new();
    let mut i: usize = 0;
    while i < r.len()
        invariant
            i <= r@.len(),
            p@.len() == i,
            forall|m: int| 0 <= m < i ==> #[trigger] p@[m] == (r@[m].0, (r@[m].1, r@[m].2)),
        decreases r@.len() - i,
    {
        let row = r[i];
        p.push((row.0, (row.1, row.2)));
        i += 1;
    }
    p
}


/// All keys of `s` are well formed.
pub open spec fn all_wf<V>(s: Seq<(NetworkKey, V)>) -> bool {
    forall|i: int| 0 <= i < s.len() ==> (#[trigger] s[i]).0.wf()
}

/// All keys of `s` are canonical.
pub open spec fn all_normal<V>(s: Seq<(NetworkKey, V)>) -> bool {
    forall|i: int| 0 <= i < s.len() ==> (#[trigger] s[i]).0.is_normal()
}

/// `i` is the position of the first key of `s` that is not canonical.
pub open spec fn first_unnormal_at<V>(s: Seq<(NetworkKey, V)>, i: int) -> bool {
    &&& 0 <= i < s.len()
    &&& !s[i].0.is_normal()
    &&& forall|j: int| 0 <= j < i ==> (#[trigger] s[j]).0.is_normal()
}

/// One of the four inputs of the merge-join.
#[derive(Clone, Copy, Debug, PartialEq, Eq, Structural)]
pub enum TrafficSource {
    Attack,
    Allowlist,
    Train,
    Test,
}

/// A key of an input of the merge-join was not canonical.
#[derive(Clone, Copy, Debug, PartialEq, Eq, Structural)]
pub struct NotNormalized {
    pub source: TrafficSource,
    pub network: NetworkKey,
}

/// One key of the merge-join with what each input holds under it.
#[derive(Clone, Copy, Debug, PartialEq, Eq, Structural)]
pub struct MergedRecord {
    pub network: NetworkKey,
    /// Attack traffic.
    pub attack: Option<u64>,
    /// Whether the network is on the allowlist.
    pub allowlisted: bool,
    /// Traffic in the training window.
    pub train: Option<u64>,
    /// Traffic in the test window.
    pub test: Option<u64>,
}

/// Some record of `recs` has the key `k`.
pub open spec fn has_record(recs: Seq<MergedRecord>, k: NetworkKey) -> bool {
    exists|j: int| 0 <= j < recs.len() && #[trigger] recs[j].network == k
}

/// `recs` is the merge-join of the four maps: one record per key present in
/// at least one of them, in strictly ascending key order, each carrying the
/// value (or presence) of every input under its key.
pub open spec fn is_merge_join(
    attack: Seq<(NetworkKey, u64)>,
    allowlist: Seq<NetworkKey>,
    train: Seq<(NetworkKey, u64)>,
    test: Seq<(NetworkKey, u64)>,
    recs: Seq<MergedRecord>,
) -> bool {
    &&& forall|i: int, j: int|
        0 <= i < j < recs.len() ==> #[trigger] recs[i].network.rank() < #[trigger] recs[j].network.rank()
    &&& forall|k: NetworkKey|
        #[trigger] has_record(recs, k) <==> has_key(attack, k) || allowlist.contains(k) || has_key(train, k)
            || has_key(test, k)
    &&& forall|j: int|
        0 <= j < recs.len() ==> {
            let k = #[trigger] recs[j].network;
            &&& recs[j].attack == find(attack, k)
            &&& recs[j].allowlisted == allowlist.contains(k)
            &&& recs[j].train == find(train, k)
            &&& recs[j].test == find(test, k)
        }
}

/// Returns the position of the first key of `s` that is not canonical, if any.
fn first_unnormalized<V>(s: &Vec<(NetworkKey, V)>) -> (r: Option<usize>)
    requires
        all_wf(s@),
    ensures
        r is None <==> all_normal(s@),
        r matches Some(i) ==> first_unnormal_at(s@, i as int),
{
    let mut i: usize = 0;
    while i < s.len()
        invariant
            i <= s@.len(),
            all_wf(s@),
            forall|j: int| 0 <= j < i ==> (#[trigger] s@[j]).0.is_normal(),
        decreases s@.len() - i,
    {
        if !s[i].0.is_normalized() {
            return Some(i);
        }
        i += 1;
    }
    None
}

/// The allowlist as a map to `()`.
fn presence_pairs(keys: &Vec<NetworkKey>) -> (p: Vec<(NetworkKey, ())>)
    ensures
        p@.len() == keys@.len(),
        forall|i: int| 0 <= i < keys@.len() ==> #[trigger] p@[i] == (keys@[i], ()),
{
    let mut p: Vec<(NetworkKey, ())> = Vec::new();
    let mut i: usize = 0;
    while i < keys.len()
        invariant
            i <= keys@.len(),
            p@.len() == i,
            forall|m: int| 0 <= m < i ==> #[trigger] p@[m] == (keys@[m], ()),
        decreases keys@.len() - i,
    {
        p.push((keys[i], ()));
        i += 1;
    }
    p
}

/// Checks the four inputs for canonical keys, in the order attack,
/// allowlist, train, test.
fn check_normalized(
    attack: &Vec<(NetworkKey, u64)>,
    allow: &Vec<(NetworkKey, ())>,
    train: &Vec<(NetworkKey, u64)>,
    test: &Vec<(NetworkKey, u64)>,
) -> (r: Result<(), NotNormalized>)
    requires
        all_wf(attack@),
        all_wf(allow@),
        all_wf(train@),
        all_wf(test@),
    ensures
        r is Ok <==> all_normal(attack@) && all_normal(allow@) && all_normal(train@) && all_normal(test@),
        r matches Err(e) ==> match e.source {
            TrafficSource::Attack => exists|i: int| first_unnormal_at(attack@, i) && attack@[i].0 == e.network,
            TrafficSource::Allowlist => all_normal(attack@) && exists|i: int|
                first_unnormal_at(allow@, i) && allow@[i].0 == e.network,
            TrafficSource::Train => all_normal(attack@) && all_normal(allow@) && exists|i: int|
                first_unnormal_at(train@, i) && train@[i].0 == e.network,
            TrafficSource::Test => all_normal(attack@) && all_normal(allow@) && all_normal(train@)
                && exists|i: int| first_unnormal_at(test@, i) && test@[i].0 == e.network,
        },
{
    if let Some(i) = first_unnormalized(attack) {
        return Err(NotNormalized { source: TrafficSource::Attack, network: attack[i].0 });
    }
    if let Some(i) = first_unnormalized(allow) {
        return Err(NotNormalized { source: TrafficSource::Allowlist, network: allow[i].0 });
    }
    if let Some(i) = first_unnormalized(train) {
        return Err(NotNormalized { source: TrafficSource::Train, network: train[i].0 });
    }
    if let Some(i) = first_unnormalized(test) {
        return Err(NotNormalized { source: TrafficSource::Test, network: test[i].0 });
    }
    Ok(())
}

/// Merges the attack traffic, the allowlist, the training traffic and the
/// test traffic, all in strictly ascending key order, into one record per key
/// present in at least one of them, in ascending key order.
///
/// Every key of every input must be canonical; the first one that is not
/// (attack, then allowlist, then train, then test) is reported.
pub fn giant_merge_join(
    attack_traffic: &Vec<(NetworkKey, u64)>,
    allowlist: &Vec<NetworkKey>,
    train_traffic: &Vec<(NetworkKey, u64)>,
    test_traffic: &Vec<(NetworkKey, u64)>,
) -> (r: Result<Vec<MergedRecord>, NotNormalized>)
    requires
        ascending(attack_traffic@),
        ascending_keys(allowlist@),
        ascending(train_traffic@),
        ascending(test_traffic@),
        all_wf(attack_traffic@),
        forall|i: int| 0 <= i < allowlist@.len() ==> (#[trigger] allowlist@[i]).wf(),
        all_wf(train_traffic@),
        all_wf(test_traffic@),
    ensures
        r is Ok <==> all_normal(attack_traffic@) && (forall|i: int|
            0 <= i < allowlist@.len() ==> (#[trigger] allowlist@[i]).is_normal()) && all_normal(
            train_traffic@,
        ) && all_normal(test_traffic@),
        r matches Ok(recs) ==> is_merge_join(
            attack_traffic@,
            allowlist@,
            train_traffic@,
            test_traffic@,
            recs@,
        ),
        r matches Err(e) ==> match e.source {
            TrafficSource::Attack => exists|i: int|
                first_unnormal_at(attack_traffic@, i) && attack_traffic@[i].0 == e.network,
            TrafficSource::Allowlist => all_normal(attack_traffic@) && exists|i: int|
                0 <= i < allowlist@.len() && allowlist@[i] == e.network && !e.network.is_normal()
                    && forall|j: int| 0 <= j < i ==> (#[trigger] allowlist@[j]).is_normal(),
            TrafficSource::Train => all_normal(attack_traffic@) && (forall|i: int|
                0 <= i < allowlist@.len() ==> (#[trigger] allowlist@[i]).is_normal()) && exists|i: int|
                first_unnormal_at(train_traffic@, i) && train_traffic@[i].0 == e.network,
            TrafficSource::Test => all_normal(attack_traffic@) && (forall|i: int|
                0 <= i < allowlist@.len() ==> (#[trigger] allowlist@[i]).is_normal()) && all_normal(
                train_traffic@,
            ) && exists|i: int| first_unnormal_at(test_traffic@, i) && test_traffic@[i].0 == e.network,
        },
{
    let allow = presence_pairs(allowlist);
    assert(all_wf(allow@)) by {
        assert forall|i: int| 0 <= i < allow@.len() implies (#[trigger] allow@[i]).0.wf() by {
            assert(allow@[i].0 == allowlist@[i]);
        }
    }
    assert(all_normal(allow@) <==> forall|i: int|
        0 <= i < allowlist@.len() ==> (#[trigger] allowlist@[i]).is_normal()) by {
        if all_normal(allow@) {
            assert forall|i: int| 0 <= i < allowlist@.len() implies (#[trigger] allowlist@[i]).is_normal() by {
                assert(allow@[i].0 == allowlist@[i]);
            }
        }
        if forall|i: int| 0 <= i < allowlist@.len() ==> (#[trigger] allowlist@[i]).is_normal() {
            assert forall|i: int| 0 <= i < allow@.len() implies (#[trigger] allow@[i]).0.is_normal() by {
                assert(allow@[i].0 == allowlist@[i]);
            }
        }
    }
    match check_normalized(attack_traffic, &allow, train_traffic, test_traffic) {
        Err(e) => {
            proof {
                if e.source == TrafficSource::Allowlist {
                    let i = choose|i: int| first_unnormal_at(allow@, i) && allow@[i].0 == e.network;
                    assert(allowlist@[i] == e.network);
                    assert forall|j: int| 0 <= j < i implies (#[trigger] allowlist@[j]).is_normal() by {
                        assert(allow@[j].0 == allowlist@[j]);
                    }
                }
            }
            return Err(e);
        },
        Ok(()) => {},
    }
    assert(ascending(allow@)) by {
        assert forall|i: int, j: int| 0 <= i < j < allow@.len() implies #[trigger] allow@[i].0.rank()
            < #[trigger] allow@[j].0.rank() by {
            assert(allow@[i].0 == allowlist@[i] && allow@[j].0 == allowlist@[j]);
        }
    }
    assert forall|k: NetworkKey| #[trigger] has_key(allow@, k) <==> allowlist@.contains(k) by {
        if has_key(allow@, k) {
            let i = choose|i: int| 0 <= i < allow@.len() && #[trigger] allow@[i].0 == k;
            assert(allowlist@[i] == k);
        }
        if allowlist@.contains(k) {
            let i = choose|i: int| 0 <= i < allowlist@.len() && allowlist@[i] == k;
            assert(allow@[i].0 == k);
        }
    }

    let ab = outer_join(attack_traffic, &allow);
    let ab_pairs = rows_to_pairs(&ab);
    proof {
        lemma_pairs_of_join(attack_traffic@, allow@, ab@, ab_pairs@);
    }
    let abc = outer_join(&ab_pairs, train_traffic);
    let abc_pairs = rows_to_pairs(&abc);
    proof {
        lemma_pairs_of_join(ab_pairs@, train_traffic@, abc@, abc_pairs@);
    }
    let abcd = outer_join(&abc_pairs, test_traffic);

    let mut recs: Vec<MergedRecord> = Vec::new();
    let mut i: usize = 0;
    while i < abcd.len()
        invariant
            i <= abcd@.len(),
            recs@.len() == i,
            forall|m: int|
                0 <= m < i ==> {
                    let row = abcd@[m];
                    let (x2, c) = flat2(row.1);
                    let (a, b) = flat2(x2);
                    #[trigger] recs@[m] == MergedRecord {
                        network: row.0,
                        attack: a,
                        allowlisted: b is Some,
                        train: c,
                        test: row.2,
                    }
                },
        decreases abcd@.len() - i,
    {
        let row = abcd[i];
        let (x2, c) = match row.1 {
            Some(v) => v,
            None => (None, None),
        };
        let (a, b) = match x2 {
            Some(v) => v,
            None => (None, None),
        };
        recs.push(
            MergedRecord { network: row.0, attack: a, allowlisted: b.is_some(), train: c, test: row.2 },
        );
        i += 1;
    }
    proof {
        let (at, al, tr, te) = (attack_traffic@, allowlist@, train_traffic@, test_traffic@);
        assert forall|i: int, j: int| 0 <= i < j < recs@.len() implies #[trigger] recs@[i].network.rank()
            < #[trigger] recs@[j].network.rank() by {
            assert(abcd@[i].0.rank() < abcd@[j].0.rank());
        }
        assert forall|k: NetworkKey| #[trigger] has_record(recs@, k) <==> has_row(abcd@, k) by {
            if has_record(recs@, k) {
                let j = choose|j: int| 0 <= j < recs@.len() && #[trigger] recs@[j].network == k;
                assert(abcd@[j].0 == k);
            }
            if has_row(abcd@, k) {
                let j = choose|j: int| 0 <= j < abcd@.len() && #[trigger] abcd@[j].0 == k;
                assert(recs@[j].network == k);
            }
        }
        assert forall|k: NetworkKey| #[trigger] has_record(recs@, k) <==> has_key(at, k) || al.contains(k)
            || has_key(tr, k) || has_key(te, k) by {
            assert(has_row(abcd@, k) <==> has_key(abc_pairs@, k) || has_key(te, k));
            assert(has_key(abc_pairs@, k) <==> has_key(ab_pairs@, k) || has_key(tr, k));
            assert(has_key(ab_pairs@, k) <==> has_key(at, k) || has_key(allow@, k));
        }
        assert forall|j: int| 0 <= j < recs@.len() implies {
            let k = #[trigger] recs@[j].network;
            &&& recs@[j].attack == find(at, k)
            &&& recs@[j].allowlisted == al.contains(k)
            &&& recs@[j].train == find(tr, k)
            &&& recs@[j].test == find(te, k)
        } by {
            let k = abcd@[j].0;
            assert(abcd@[j].1 == find(abc_pairs@, k) && abcd@[j].2 == find(te, k));
            assert(flat2(find(abc_pairs@, k)) == (find(ab_pairs@, k), find(tr, k)));
            assert(flat2(find(ab_pairs@, k)) == (find(at, k), find(allow@, k)));
            assert(find(allow@, k) is Some <==> has_key(allow@, k));
        }
    }
    Ok(recs)
}

} // verus!
