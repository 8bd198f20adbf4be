//! Classification of merged traffic records into true/false positives and
//! negatives.
//!
//! Volumes are exact integers in thousandths of a packet per interval. Test
//! and training traffic are sampled observations (one packet in
//! `NETFLOW_SAMPLING_RATE`) and are scaled up here; attack traffic is a
//! synthetic ground truth and is not.
use crate::join::MergedRecord;
use vstd::arithmetic::div_mod::{lemma_div_is_ordered, lemma_div_multiples_vanish};
use vstd::arithmetic::mul::{lemma_mul_inequality, lemma_mul_is_commutative};
use vstd::prelude::*;

verus! {

/// NetFlow samples one packet out of this many.
pub const NETFLOW_SAMPLING_RATE: u64 = 10;

/// Volumes are counted in units of one packet divided by this.
pub const VOLUME_SCALE: u64 = 1000;

/// The largest volume of a single map entry that classification accepts.
pub const MAX_VOLUME: u64 = 0x800_0000_0000_0000;

/// Exact confusion-matrix tallies, as mathematical integers.
pub struct Tally {
    pub total: int,
    pub true_positives: int,
    pub true_negatives: int,
    pub false_positives: int,
    pub false_negatives: int,
}

/// The empty tally.
pub open spec fn tally_zero() -> Tally {
    Tally { total: 0, true_positives: 0, true_negatives: 0, false_positives: 0, false_negatives: 0 }
}

/// Field-wise sum of two tallies.
pub open spec fn tally_add(x: Tally, y: Tally) -> Tally {
    Tally {
        total: x.total + y.total,
        true_positives: x.true_positives + y.true_positives,
        true_negatives: x.true_negatives + y.true_negatives,
        false_positives: x.false_positives + y.false_positives,
        false_negatives: x.false_negatives + y.false_negatives,
    }
}

/// Aggregate traffic volumes of one evaluation, in thousandths of a packet.
#[derive(Clone, Copy, Debug, PartialEq, Eq, Structural)]
pub struct EvaluationResults {
    pub total: u128,
    pub true_positives: u128,
    pub true_negatives: u128,
    pub false_positives: u128,
    pub false_negatives: u128,
}

impl View for EvaluationResults {
    type V = Tally;

    open spec fn view(&self) -> Tally {
        Tally {
            total: self.total as int,
            true_positives: self.true_positives as int,
            true_negatives: self.true_negatives as int,
            false_positives: self.false_positives as int,
            false_negatives: self.false_negatives as int,
        }
    }
}

impl EvaluationResults {
    /// All volumes zero.
    pub fn zero() -> (r: EvaluationResults)
        ensures
            r@ == tally_zero(),
    {
        EvaluationResults {
            total: 0,
            true_positives: 0,
            true_negatives: 0,
            false_positives: 0,
            false_negatives: 0,
        }
    }

    /// The four classes sum to the total.
    pub open spec fn is_consistent(&self) -> bool {
        self.true_positives + self.true_negatives + self.false_positives + self.false_negatives
            == self.total
    }

    /// Field-wise sum.
    pub fn add(self, rhs: EvaluationResults) -> (r: EvaluationResults)
        requires
            self.total + rhs.total <= u128::MAX,
            self.true_positives + rhs.true_positives <= u128::MAX,
            self.true_negatives + rhs.true_negatives <= u128::MAX,
            self.false_positives + rhs.false_positives <= u128::MAX,
            self.false_negatives + rhs.false_negatives <= u128::MAX,
        ensures
            r@ == tally_add(self@, rhs@),
    {
        EvaluationResults {
            total: self.total + rhs.total,
            true_positives: self.true_positives + rhs.true_positives,
            true_negatives: self.true_negatives + rhs.true_negatives,
            false_positives: self.false_positives + rhs.false_positives,
            false_negatives: self.false_negatives + rhs.false_negatives,
        }
    }

    /// Adds `rhs` field-wise.
    pub fn add_assign(&mut self, rhs: EvaluationResults)
        requires
            old(self).total + rhs.total <= u128::MAX,
            old(self).true_positives + rhs.true_positives <= u128::MAX,
            old(self).true_negatives + rhs.true_negatives <= u128::MAX,
            old(self).false_positives + rhs.false_positives <= u128::MAX,
            old(self).false_negatives + rhs.false_negatives <= u128::MAX,
        ensures
            final(self)@ == tally_add(old(self)@, rhs@),
    {
        *self = self.add(rhs);
    }
}

/// The part of `budget` that goes to `part` out of `whole`, rounded down.
pub open spec fn share(budget: int, part: int, whole: int) -> int {
    if whole == 0 {
        0
    } else {
        budget * part / whole
    }
}

/// Of `volume`, the amount that stays within its threshold: all of it if it
/// does not exceed the threshold, else the threshold.
pub open spec fn within(volume: int, threshold: int) -> int {
    if volume <= threshold {
        volume
    } else {
        threshold
    }
}

/// The attack volume of a record.
pub open spec fn attack_volume(rec: MergedRecord) -> int {
    match rec.attack {
        Some(a) => a as int,
        None => 0,
    }
}

/// The test volume of a record, scaled for sampling.
pub open spec fn test_volume(rec: MergedRecord) -> int {
    match rec.test {
        Some(t) => t as int * NETFLOW_SAMPLING_RATE,
        None => 0,
    }
}

/// A record with neither attack nor test traffic: nothing to classify.
pub open spec fn is_silent(rec: MergedRecord) -> bool {
    rec.attack is None && rec.test is None
}

/// An allowlisted record with traffic but no training traffic: a broken
/// invariant of the allowlist.
pub open spec fn is_fatal(rec: MergedRecord) -> bool {
    !is_silent(rec) && rec.allowlisted && rec.train is None
}

/// The traffic budget of a record: the low-pass limit for a network that is
/// not allowlisted, else the (sampling-scaled) training traffic times the
/// above-train limit (given in thousandths), rounded down.
pub open spec fn budget(rec: MergedRecord, low_pass: int, above_train_limit: int) -> int {
    if !rec.allowlisted {
        low_pass * VOLUME_SCALE
    } else {
        match rec.train {
            Some(tr) => tr as int * NETFLOW_SAMPLING_RATE * above_train_limit / 1000,
            None => 0,
        }
    }
}

/// The classification of one record. The budget is split between test and
/// attack traffic in proportion to their volumes; test traffic within its
/// share is a true negative, above it a false positive; attack traffic within
/// its share is a false negative, above it a true positive.
pub open spec fn classify(rec: MergedRecord, low_pass: int, above_train_limit: int) -> Tally {
    if is_silent(rec) {
        tally_zero()
    } else {
        let a = attack_volume(rec);
        let t = test_volume(rec);
        let b = budget(rec, low_pass, above_train_limit);
        let tn = within(t, share(b, t, a + t));
        let fn_ = within(a, share(b, a, a + t));
        Tally {
            total: a + t,
            true_positives: a - fn_,
            true_negatives: tn,
            false_positives: t - tn,
            false_negatives: fn_,
        }
    }
}

/// The sum of the classifications of all records.
pub open spec fn tally(recs: Seq<MergedRecord>, low_pass: int, above_train_limit: int) -> Tally
    decreases recs.len(),
{
    if recs.len() == 0 {
        tally_zero()
    } else {
        tally_add(
            tally(recs.drop_last(), low_pass, above_train_limit),
            classify(recs.last(), low_pass, above_train_limit),
        )
    }
}

/// The volumes of a record are within the accepted range.
pub open spec fn record_in_range(rec: MergedRecord) -> bool {
    &&& (rec.attack matches Some(a) ==> a <= MAX_VOLUME)
    &&& (rec.train matches Some(tr) ==> tr <= MAX_VOLUME)
    &&& (rec.test matches Some(t) ==> t <= MAX_VOLUME)
}

/// Classification failed.
#[derive(Clone, Copy, Debug, PartialEq, Eq, Structural)]
pub enum ClassifyError {
    /// The network is allowlisted and has traffic, but no training traffic.
    AllowlistedWithoutTrain { network: crate::network::NetworkKey },
}

/// `i` is the first record that is fatal.
pub open spec fn first_fatal_at(recs: Seq<MergedRecord>, i: int) -> bool {
    &&& 0 <= i < recs.len()
    &&& is_fatal(recs[i])
    &&& forall|j: int| 0 <= j < i ==> !is_fatal(#[trigger] recs[j])
}

proof fn lemma_share_bounds(b: int, part: int, whole: int)
    requires
        0 <= b,
        0 <= part <= whole,
        0 < whole,
    ensures
        b >= whole ==> share(b, part, whole) >= part,
        b < whole ==> share(b, part, whole) <= part,
        share(b, part, whole) >= 0,
{
    lemma_mul_is_commutative(b, part);
    if b >= whole {
        lemma_mul_inequality(whole, b, part);
        lemma_div_is_ordered(whole * part, b * part, whole);
        lemma_mul_is_commutative(whole, part);
        lemma_div_multiples_vanish(part, whole);
    } else {
        lemma_mul_inequality(b, whole, part);
        lemma_div_is_ordered(b * part, whole * part, whole);
        lemma_mul_is_commutative(whole, part);
        lemma_div_multiples_vanish(part, whole);
    }
    assert(b * part >= 0) by (nonlinear_arith)
        requires
            0 <= b,
            0 <= part,
    ;
}

/// Computes `within(volume, share(b, volume, whole))` without overflow.
fn within_share(b: u128, volume: u128, whole: u128) -> (r: u128)
    requires
        0 < whole < 0x1_0000_0000_0000_0000,
        volume <= whole,
    ensures
        r == within(volume as int, share(b as int, volume as int, whole as int)),
        r <= volume,
{
    proof {
        lemma_share_bounds(b as int, volume as int, whole as int);
    }
    if b >= whole {
        volume
    } else {
        proof {
            assert(b * volume < 0x1_0000_0000_0000_0000 * 0x1_0000_0000_0000_0000) by (nonlinear_arith)
                requires
                    b < 0x1_0000_0000_0000_0000,
                    volume < 0x1_0000_0000_0000_0000,
            ;
        }
        b * volume / whole
    }
}

/// Classifies one record with the given low-pass limit (in packets) and
/// above-train limit (in thousandths). A record with neither attack nor test
/// traffic classifies as all zero.
pub fn classify_record(rec: &MergedRecord, low_pass: u32, above_train_limit: u32) -> (r: Result<
    EvaluationResults,
    ClassifyError,
>)
    requires
        record_in_range(*rec),
    ensures
        r is Err <==> is_fatal(*rec),
        r matches Err(e) ==> e == (ClassifyError::AllowlistedWithoutTrain { network: rec.network }),
        r matches Ok(v) ==> v@ == classify(*rec, low_pass as int, above_train_limit as int),
        r matches Ok(v) ==> v.is_consistent() && v.total < 0x1_0000_0000_0000_0000,
{
    if rec.attack.is_none() && rec.test.is_none() {
        return Ok(EvaluationResults::zero());
    }
    let a: u128 = match rec.attack {
        Some(a) => a as u128,
        None => 0,
    };
    let t: u128 = match rec.test {
        Some(t) => t as u128 * NETFLOW_SAMPLING_RATE as u128,
        None => 0,
    };
    let b: u128 = if !rec.allowlisted {
        low_pass as u128 * VOLUME_SCALE as u128
    } else {
        match rec.train {
            Some(tr) => {
                proof {
                    assert(tr as int * 10 * above_train_limit as int <= 0x800_0000_0000_0000 * 10
                        * 0xffff_ffff) by (nonlinear_arith)
                        requires
                            tr <= 0x800_0000_0000_0000,
                            above_train_limit <= 0xffff_ffff,
                    ;
                }
                tr as u128 * NETFLOW_SAMPLING_RATE as u128 * above_train_limit as u128 / 1000
            },
            None => {
                return Err(ClassifyError::AllowlistedWithoutTrain { network: rec.network });
            },
        }
    };
    let whole = a + t;
    if whole == 0 {
        return Ok(EvaluationResults::zero());
    }
    let tn = within_share(b, t, whole);
    let fn_ = within_share(b, a, whole);
    Ok(
        EvaluationResults {
            total: whole,
            true_positives: a - fn_,
            true_negatives: tn,
            false_positives: t - tn,
            false_negatives: fn_,
        },
    )
}


proof fn lemma_tally_step(recs: Seq<MergedRecord>, i: int, low_pass: int, above_train_limit: int)
    requires
        0 <= i < recs.len(),
    ensures
        tally(recs.subrange(0, i + 1), low_pass, above_train_limit) == tally_add(
            tally(recs.subrange(0, i), low_pass, above_train_limit),
            classify(recs[i], low_pass, above_train_limit),
        ),
{
    assert(recs.subrange(0, i + 1).drop_last() =~= recs.subrange(0, i));
}

/// Classifies all records with the given low-pass limit (in packets) and
/// above-train limit (in thousandths) and sums the volumes. Fails on the first
/// record, in order, that is allowlisted and has traffic but no training
/// traffic.
pub fn evaluate_records(recs: &Vec<MergedRecord>, low_pass: u32, above_train_limit: u32) -> (r: Result<
    EvaluationResults,
    ClassifyError,
>)
    requires
        forall|i: int| 0 <= i < recs@.len() ==> record_in_range(#[trigger] recs@[i]),
    ensures
        r is Err <==> exists|i: int| 0 <= i < recs@.len() && is_fatal(#[trigger] recs@[i]),
        r matches Err(e) ==> exists|i: int|
            first_fatal_at(recs@, i) && e == (ClassifyError::AllowlistedWithoutTrain {
                network: recs@[i].network,
            }),
        r matches Ok(v) ==> v@ == tally(recs@, low_pass as int, above_train_limit as int),
        r matches Ok(v) ==> v.is_consistent(),
{
    let mut acc = EvaluationResults::zero();
    let mut i: usize = 0;
    assert(recs@.subrange(0, 0) =~= Seq::<MergedRecord>::empty());
    while i < recs.len()
        invariant
            i <= recs@.len(),
            forall|i: int| 0 <= i < recs@.len() ==> record_in_range(#[trigger] recs@[i]),
            forall|j: int| 0 <= j < i ==> !is_fatal(#[trigger] recs@[j]),
            acc@ == tally(recs@.subrange(0, i as int), low_pass as int, above_train_limit as int),
            acc.is_consistent(),
            acc.total <= i as int * 0xffff_ffff_ffff_ffff,
        decreases recs@.len() - i,
    {
        let rec = &recs[i];
        match classify_record(rec, low_pass, above_train_limit) {
            Err(e) => {
                assert(first_fatal_at(recs@, i as int));
                return Err(e);
            },
            Ok(v) => {
                proof {
                    assert((i as int + 1) * 0xffff_ffff_ffff_ffff <= u128::MAX) by (nonlinear_arith)
                        requires
                            i < usize::MAX,
                            usize::MAX <= 0xffff_ffff_ffff_ffff,
                    ;
                    assert(i as int * 0xffff_ffff_ffff_ffff + 0xffff_ffff_ffff_ffff == (i as int + 1)
                        * 0xffff_ffff_ffff_ffff) by (nonlinear_arith);
                    lemma_tally_step(recs@, i as int, low_pass as int, above_train_limit as int);
                }
                acc.add_assign(v);
            },
        }
        i += 1;
    }
    assert(recs@.subrange(0, recs@.len() as int) =~= recs@);
    Ok(acc)
}

/// Classification conserves traffic: the four classes of any set of records
/// sum exactly to its total.
pub proof fn lemma_conservation(recs: Seq<MergedRecord>, low_pass: int, above_train_limit: int)
    ensures
        ({
            let t = tally(recs, low_pass, above_train_limit);
            t.true_positives + t.true_negatives + t.false_positives + t.false_negatives == t.total
        }),
    decreases recs.len(),
{
    if recs.len() > 0 {
        lemma_conservation(recs.drop_last(), low_pass, above_train_limit);
    }
}

proof fn lemma_share_monotonic(b1: int, b2: int, part: int, whole: int)
    requires
        0 <= b1 <= b2,
        0 <= part,
        0 < whole,
    ensures
        share(b1, part, whole) <= share(b2, part, whole),
{
    lemma_mul_inequality(b1, b2, part);
    lemma_div_is_ordered(b1 * part, b2 * part, whole);
}

proof fn lemma_classify_monotonic(rec: MergedRecord, lp1: int, lp2: int, lim1: int, lim2: int)
    requires
        0 <= lp1 <= lp2,
        0 <= lim1 <= lim2,
    ensures
        ({
            let x = classify(rec, lp1, lim1);
            let y = classify(rec, lp2, lim2);
            &&& x.true_negatives <= y.true_negatives
            &&& x.false_negatives <= y.false_negatives
            &&& x.false_positives >= y.false_positives
            &&& x.true_positives >= y.true_positives
            &&& x.total == y.total
        }),
{
    if !is_silent(rec) {
        let a = attack_volume(rec);
        let t = test_volume(rec);
        let b1 = budget(rec, lp1, lim1);
        let b2 = budget(rec, lp2, lim2);
        if !rec.allowlisted {
            lemma_mul_inequality(lp1, lp2, VOLUME_SCALE as int);
        } else if let Some(tr) = rec.train {
            lemma_mul_inequality(lim1, lim2, tr as int * NETFLOW_SAMPLING_RATE);
            lemma_mul_is_commutative(lim1, tr as int * NETFLOW_SAMPLING_RATE);
            lemma_mul_is_commutative(lim2, tr as int * NETFLOW_SAMPLING_RATE);
            lemma_div_is_ordered(
                tr as int * NETFLOW_SAMPLING_RATE * lim1,
                tr as int * NETFLOW_SAMPLING_RATE * lim2,
                1000,
            );
            assert(tr as int * NETFLOW_SAMPLING_RATE * lim1 >= 0) by (nonlinear_arith)
                requires
                    tr >= 0,
                    lim1 >= 0,
            ;
        }
        assert(0 <= b1 <= b2);
        if a + t > 0 {
            lemma_share_monotonic(b1, b2, t, a + t);
            lemma_share_monotonic(b1, b2, a, a + t);
        }
    }
}

/// Raising the low-pass limit or the above-train limit, for fixed traffic,
/// never lowers the true and false negatives and never raises the false and
/// true positives.
pub proof fn lemma_threshold_monotonic(
    recs: Seq<MergedRecord>,
    low_pass_1: int,
    low_pass_2: int,
    above_train_limit_1: int,
    above_train_limit_2: int,
)
    requires
        0 <= low_pass_1 <= low_pass_2,
        0 <= above_train_limit_1 <= above_train_limit_2,
    ensures
        ({
            let x = tally(recs, low_pass_1, above_train_limit_1);
            let y = tally(recs, low_pass_2, above_train_limit_2);
            &&& x.true_negatives <= y.true_negatives
            &&& x.false_negatives <= y.false_negatives
            &&& x.false_positives >= y.false_positives
            &&& x.true_positives >= y.true_positives
            &&& x.total == y.total
        }),
    decreases recs.len(),
{
    if recs.len() > 0 {
        lemma_threshold_monotonic(
            recs.drop_last(),
            low_pass_1,
            low_pass_2,
            above_train_limit_1,
            above_train_limit_2,
        );
        lemma_classify_monotonic(
            recs.last(),
            low_pass_1,
            low_pass_2,
            above_train_limit_1,
            above_train_limit_2,
        );
    }
}

} // verus!
