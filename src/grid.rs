//! The parameter grid: every combination of training length, test length,
//! minimum active intervals, minimum average packets, low-pass limit,
//! above-train limit and window start, and the windows that the grid reads.
use crate::config::{DataConfiguration, Location};
use crate::network::NetworkKey;
use vstd::prelude::*;

verus! {

/// Number of time intervals in the data.
pub const TOTAL_TIME_LENGTH: u32 = 648;

/// Lengths of training windows.
pub open spec fn windows_train_spec() -> Seq<u8> {
    seq![1u8, 2, 4, 8, 12, 24, 25, 48, 49, 72, 73]
}

/// Lengths of test windows.
pub open spec fn windows_test_spec() -> Seq<u8> {
    seq![8u8, 24, 72]
}

/// Minimum active intervals for a network to be allowlisted.
pub open spec fn min_active_periods_spec() -> Seq<u8> {
    seq![1u8, 4, 8, 12]
}

/// Minimum average packets for a network to be allowlisted.
pub open spec fn min_pkts_avg_spec() -> Seq<u32> {
    seq![64u32, 128, 256]
}

/// Low-pass limits, in packets per interval.
pub open spec fn low_pass_filter_spec() -> Seq<u32> {
    seq![128u32, 512, 2048, 8192]
}

/// Above-train limits, in thousandths.
pub open spec fn above_train_limits_spec() -> Seq<u32> {
    seq![1000u32, 2000, 4000]
}

/// Total attack bandwidths, in bits per second: 40 GiB/s and 100 TiB/s.
pub open spec fn attacker_total_traffic_spec() -> Seq<u64> {
    seq![42949672960u64, 109951162777600]
}

/// Lengths of training windows.
pub fn windows_train() -> (r: Vec<u8>)
    ensures
        r@ == windows_train_spec(),
{
    let r = vec![1u8, 2, 4, 8, 12, 24, 25, 48, 49, 72, 73];
    assert(r@ =~= windows_train_spec());
    r
}

/// Lengths of test windows.
pub fn windows_test() -> (r: Vec<u8>)
    ensures
        r@ == windows_test_spec(),
{
    let r = vec![8u8, 24, 72];
    assert(r@ =~= windows_test_spec());
    r
}

/// Minimum active intervals for a network to be allowlisted.
pub fn min_active_periods() -> (r: Vec<u8>)
    ensures
        r@ == min_active_periods_spec(),
{
    let r = vec![1u8, 4, 8, 12];
    assert(r@ =~= min_active_periods_spec());
    r
}

/// Minimum average packets for a network to be allowlisted.
pub fn min_pkts_avg() -> (r: Vec<u32>)
    ensures
        r@ == min_pkts_avg_spec(),
{
    let r = vec![64u32, 128, 256];
    assert(r@ =~= min_pkts_avg_spec());
    r
}

/// Low-pass limits, in packets per interval.
pub fn low_pass_filter() -> (r: Vec<u32>)
    ensures
        r@ == low_pass_filter_spec(),
{
    let r = vec![128u32, 512, 2048, 8192];
    assert(r@ =~= low_pass_filter_spec());
    r
}

/// Above-train limits, in thousandths.
pub fn above_train_limits() -> (r: Vec<u32>)
    ensures
        r@ == above_train_limits_spec(),
{
    let r = vec![1000u32, 2000, 4000];
    assert(r@ =~= above_train_limits_spec());
    r
}

/// Total attack bandwidths, in bits per second.
pub fn attacker_total_traffic() -> (r: Vec<u64>)
    ensures
        r@ == attacker_total_traffic_spec(),
{
    let r = vec![42949672960u64, 109951162777600];
    assert(r@ =~= attacker_total_traffic_spec());
    r
}


/// Number of window starts for the windows of `c`.
pub open spec fn window_count(c: DataConfiguration) -> int {
    TOTAL_TIME_LENGTH - c.train_length - c.test_length + 1
}

/// `c` at every window start from 1 on such that training and test window
/// fit in the data.
pub open spec fn window_block(c: DataConfiguration) -> Seq<DataConfiguration> {
    Seq::new(window_count(c) as nat, |j: int| DataConfiguration { window_start: (j + 1) as u32, ..c })
}

/// Appends `c` at every window start.
fn push_windows(out: &mut Vec<DataConfiguration>, c: DataConfiguration)
    ensures
        final(out)@ == old(out)@ + window_block(c),
{
    let n: u32 = TOTAL_TIME_LENGTH - c.train_length as u32 - c.test_length as u32 + 1;
    let ghost before = out@;
    let mut w: u32 = 1;
    while w <= n
        invariant
            1 <= w <= n + 1,
            n == window_count(c),
            out@ =~= before + window_block(c).subrange(0, w - 1),
        decreases n + 1 - w,
    {
        out.push(DataConfiguration { window_start: w, ..c });
        w += 1;
    }
    assert(window_block(c).subrange(0, n as int) =~= window_block(c));
}

/// `c` with each above-train limit of `vs`, in order, each followed by all deeper dimensions.
pub open spec fn limit_block(c: DataConfiguration, vs: Seq<u32>) -> Seq<DataConfiguration>
    decreases vs.len(),
{
    if vs.len() == 0 {
        Seq::empty()
    } else {
        limit_block(c, vs.drop_last()) + window_block(DataConfiguration { above_train_limit: vs.last(), ..c })
    }
}

/// Appends the block of `c` over the values `vs` of the above-train limit.
fn push_limit(out: &mut Vec<DataConfiguration>, c: DataConfiguration, vs: &Vec<u32>)
    ensures
        final(out)@ == old(out)@ + limit_block(c, vs@),
{
    let ghost before = out@;
    let mut i: usize = 0;
    assert(vs@.subrange(0, 0) =~= Seq::<u32>::empty());
    while i < vs.len()
        invariant
            i <= vs@.len(),
            out@ =~= before + limit_block(c, vs@.subrange(0, i as int)),
        decreases vs@.len() - i,
    {
        let v = vs[i];
        let c2 = DataConfiguration { above_train_limit: v, ..c };
        assert(vs@.subrange(0, i + 1).drop_last() =~= vs@.subrange(0, i as int));
        push_windows(out, c2);
        i += 1;
    }
    assert(vs@.subrange(0, vs@.len() as int) =~= vs@);
}

/// `c` with each low-pass limit of `vs`, in order, each followed by all deeper dimensions.
pub open spec fn low_pass_block(c: DataConfiguration, vs: Seq<u32>) -> Seq<DataConfiguration>
    decreases vs.len(),
{
    if vs.len() == 0 {
        Seq::empty()
    } else {
        low_pass_block(c, vs.drop_last()) + limit_block(DataConfiguration { low_pass: vs.last(), ..c }, above_train_limits_spec())
    }
}

/// Appends the block of `c` over the values `vs` of the low-pass limit.
fn push_low_pass(out: &mut Vec<DataConfiguration>, c: DataConfiguration, vs: &Vec<u32>)
    ensures
        final(out)@ == old(out)@ + low_pass_block(c, vs@),
{
    let ghost before = out@;
    let mut i: usize = 0;
    assert(vs@.subrange(0, 0) =~= Seq::<u32>::empty());
    while i < vs.len()
        invariant
            i <= vs@.len(),
            out@ =~= before + low_pass_block(c, vs@.subrange(0, i as int)),
        decreases vs@.len() - i,
    {
        let v = vs[i];
        let c2 = DataConfiguration { low_pass: v, ..c };
        assert(vs@.subrange(0, i + 1).drop_last() =~= vs@.subrange(0, i as int));
        push_limit(out, c2, &above_train_limits());
        i += 1;
    }
    assert(vs@.subrange(0, vs@.len() as int) =~= vs@);
}

/// `c` with each minimum average packets of `vs`, in order, each followed by all deeper dimensions.
pub open spec fn min_pkts_block(c: DataConfiguration, vs: Seq<u32>) -> Seq<DataConfiguration>
    decreases vs.len(),
{
    if vs.len() == 0 {
        Seq::empty()
    } else {
        min_pkts_block(c, vs.drop_last()) + low_pass_block(DataConfiguration { min_pkts_avg: vs.last(), ..c }, low_pass_filter_spec())
    }
}

/// Appends the block of `c` over the values `vs` of the minimum average packets.
fn push_min_pkts(out: &mut Vec<DataConfiguration>, c: DataConfiguration, vs: &Vec<u32>)
    ensures
        final(out)@ == old(out)@ + min_pkts_block(c, vs@),
{
    let ghost before = out@;
    let mut i: usize = 0;
    assert(vs@.subrange(0, 0) =~= Seq::<u32>::empty());
    while i < vs.len()
        invariant
            i <= vs@.len(),
            out@ =~= before + min_pkts_block(c, vs@.subrange(0, i as int)),
        decreases vs@.len() - i,
    {
        let v = vs[i];
        let c2 = DataConfiguration { min_pkts_avg: v, ..c };
        assert(vs@.subrange(0, i + 1).drop_last() =~= vs@.subrange(0, i as int));
        push_low_pass(out, c2, &low_pass_filter());
        i += 1;
    }
    assert(vs@.subrange(0, vs@.len() as int) =~= vs@);
}

/// `c` with each minimum active intervals of `vs` that does not exceed the training length, in order, each followed by all deeper dimensions.
pub open spec fn min_active_block(c: DataConfiguration, vs: Seq<u8>) -> Seq<DataConfiguration>
    decreases vs.len(),
{
    if vs.len() == 0 {
        Seq::empty()
    } else {
        min_active_block(c, vs.drop_last()) + if vs.last() <= c.train_length { min_pkts_block(DataConfiguration { min_active: vs.last(), ..c }, min_pkts_avg_spec()) } else { Seq::empty() }
    }
}

/// Appends the block of `c` over the values `vs` of the minimum active intervals.
fn push_min_active(out: &mut Vec<DataConfiguration>, c: DataConfiguration, vs: &Vec<u8>)
    ensures
        final(out)@ == old(out)@ + min_active_block(c, vs@),
{
    let ghost before = out@;
    let mut i: usize = 0;
    assert(vs@.subrange(0, 0) =~= Seq::<u8>::empty());
    while i < vs.len()
        invariant
            i <= vs@.len(),
            out@ =~= before + min_active_block(c, vs@.subrange(0, i as int)),
        decreases vs@.len() - i,
    {
        let v = vs[i];
        let c2 = DataConfiguration { min_active: v, ..c };
        assert(vs@.subrange(0, i + 1).drop_last() =~= vs@.subrange(0, i as int));
        if v <= c.train_length {
            push_min_pkts(out, c2, &min_pkts_avg());
        }
        i += 1;
    }
    assert(vs@.subrange(0, vs@.len() as int) =~= vs@);
}

/// `c` with each test length of `vs`, in order, each followed by all deeper dimensions.
pub open spec fn test_block(c: DataConfiguration, vs: Seq<u8>) -> Seq<DataConfiguration>
    decreases vs.len(),
{
    if vs.len() == 0 {
        Seq::empty()
    } else {
        test_block(c, vs.drop_last()) + min_active_block(DataConfiguration { test_length: vs.last(), ..c }, min_active_periods_spec())
    }
}

/// Appends the block of `c` over the values `vs` of the test length.
fn push_test(out: &mut Vec<DataConfiguration>, c: DataConfiguration, vs: &Vec<u8>)
    ensures
        final(out)@ == old(out)@ + test_block(c, vs@),
{
    let ghost before = out@;
    let mut i: usize = 0;
    assert(vs@.subrange(0, 0) =~= Seq::<u8>::empty());
    while i < vs.len()
        invariant
            i <= vs@.len(),
            out@ =~= before + test_block(c, vs@.subrange(0, i as int)),
        decreases vs@.len() - i,
    {
        let v = vs[i];
        let c2 = DataConfiguration { test_length: v, ..c };
        assert(vs@.subrange(0, i + 1).drop_last() =~= vs@.subrange(0, i as int));
        push_min_active(out, c2, &min_active_periods());
        i += 1;
    }
    assert(vs@.subrange(0, vs@.len() as int) =~= vs@);
}

/// `c` with each training length of `vs`, in order, each followed by all deeper dimensions.
pub open spec fn train_block(c: DataConfiguration, vs: Seq<u8>) -> Seq<DataConfiguration>
    decreases vs.len(),
{
    if vs.len() == 0 {
        Seq::empty()
    } else {
        train_block(c, vs.drop_last()) + test_block(DataConfiguration { train_length: vs.last(), ..c }, windows_test_spec())
    }
}

/// Appends the block of `c` over the values `vs` of the training length.
fn push_train(out: &mut Vec<DataConfiguration>, c: DataConfiguration, vs: &Vec<u8>)
    ensures
        final(out)@ == old(out)@ + train_block(c, vs@),
{
    let ghost before = out@;
    let mut i: usize = 0;
    assert(vs@.subrange(0, 0) =~= Seq::<u8>::empty());
    while i < vs.len()
        invariant
            i <= vs@.len(),
            out@ =~= before + train_block(c, vs@.subrange(0, i as int)),
        decreases vs@.len() - i,
    {
        let v = vs[i];
        let c2 = DataConfiguration { train_length: v, ..c };
        assert(vs@.subrange(0, i + 1).drop_last() =~= vs@.subrange(0, i as int));
        push_test(out, c2, &windows_test());
        i += 1;
    }
    assert(vs@.subrange(0, vs@.len() as int) =~= vs@);
}

/// The configuration that the grid starts from for one location and
/// destination: every parameter zero.
pub open spec fn grid_base(location: Location, dst: NetworkKey) -> DataConfiguration {
    DataConfiguration {
        location,
        iprange_dst: dst,
        window_start: 0,
        train_length: 0,
        test_length: 0,
        min_active: 0,
        min_pkts_avg: 0,
        low_pass: 0,
        above_train_limit: 0,
    }
}

/// Every configuration of the grid for one location and destination, over
/// the training lengths `train_lengths`: for each training length, test
/// length, minimum active intervals not above the training length, minimum
/// average packets, low-pass limit and above-train limit, in that order of
/// nesting, every window start from 1 on at which training and test window
/// fit in the data.
pub fn grid_configurations(location: Location, dst: NetworkKey, train_lengths: &Vec<u8>) -> (r: Vec<
    DataConfiguration,
>)
    ensures
        r@ == train_block(grid_base(location, dst), train_lengths@),
        forall|x: DataConfiguration| r@.contains(x) <==> in_grid(x, location, dst, train_lengths@),
{
    let mut out: Vec<DataConfiguration> = Vec::new();
    let base = DataConfiguration {
        location,
        iprange_dst: dst,
        window_start: 0,
        train_length: 0,
        test_length: 0,
        min_active: 0,
        min_pkts_avg: 0,
        low_pass: 0,
        above_train_limit: 0,
    };
    push_train(&mut out, base, train_lengths);
    assert(out@ =~= train_block(grid_base(location, dst), train_lengths@));
    assert forall|x: DataConfiguration| out@.contains(x) <==> in_grid(x, location, dst, train_lengths@) by {
        lemma_grid_members(location, dst, train_lengths@, x);
    }
    out
}

/// The lengths of windows from `start` that fit in the data.
pub open spec fn fits_at(start: int) -> spec_fn(u8) -> bool {
    |l: u8| start + l - 1 <= TOTAL_TIME_LENGTH
}

/// The window from `start` of a given length.
pub open spec fn key_at(start: int) -> spec_fn(u8) -> (u32, u8) {
    |l: u8| (start as u32, l)
}

/// The windows that the grid reads, as `(start, length)`: for every start
/// from 1 to `starts` and every length of `lengths`, those that fit in the
/// data, start by start.
pub open spec fn window_keys_block(starts: int, lengths: Seq<u8>) -> Seq<(u32, u8)>
    decreases starts,
{
    if starts <= 0 {
        Seq::empty()
    } else {
        window_keys_block(starts - 1, lengths) + lengths.filter(fits_at(starts)).map_values(
            key_at(starts),
        )
    }
}

/// The windows to fetch for the window cache, start by start.
pub fn window_cache_keys() -> (r: Vec<(u32, u8)>)
    ensures
        r@ == window_keys_block(TOTAL_TIME_LENGTH as int, windows_train_spec()),
{
    let lengths = windows_train();
    let mut out: Vec<(u32, u8)> = Vec::new();
    let mut start: u32 = 1;
    while start <= TOTAL_TIME_LENGTH
        invariant
            1 <= start <= TOTAL_TIME_LENGTH + 1,
            lengths@ == windows_train_spec(),
            out@ == window_keys_block(start - 1, lengths@),
        decreases TOTAL_TIME_LENGTH + 1 - start,
    {
        let ghost before = out@;
        let ghost fits = fits_at(start as int);
        let mut i: usize = 0;
        assert(lengths@.subrange(0, 0).filter(fits) =~= Seq::<u8>::empty()) by {
            assert(lengths@.subrange(0, 0) =~= Seq::<u8>::empty());
        }
        while i < lengths.len()
            invariant
                i <= lengths@.len(),
                1 <= start <= TOTAL_TIME_LENGTH,
                fits == fits_at(start as int),
                out@ =~= before + lengths@.subrange(0, i as int).filter(fits).map_values(
                    key_at(start as int),
                ),
            decreases lengths@.len() - i,
        {
            let l = lengths[i];
            proof {
                let pre = lengths@.subrange(0, i + 1);
                assert(pre.drop_last() =~= lengths@.subrange(0, i as int));
                reveal(Seq::filter);
            }
            if start + l as u32 - 1 <= TOTAL_TIME_LENGTH {
                out.push((start, l));
            }
            i += 1;
        }
        assert(lengths@.subrange(0, lengths@.len() as int) =~= lengths@);
        start += 1;
    }
    out
}

/// Number of locations that serve `dst`, among the (location, destination)
/// pairs `pairs`.
pub fn locations_serving(pairs: &Vec<(Location, NetworkKey)>, dst: &NetworkKey) -> (r: u64)
    requires
        pairs@.len() <= u64::MAX,
    ensures
        r == pairs@.filter(|p: (Location, NetworkKey)| p.1 == *dst).len(),
{
    let mut n: u64 = 0;
    let mut i: usize = 0;
    assert(pairs@.subrange(0, 0) =~= Seq::<(Location, NetworkKey)>::empty());
    while i < pairs.len()
        invariant
            i <= pairs@.len() <= u64::MAX,
            n == pairs@.subrange(0, i as int).filter(|p: (Location, NetworkKey)| p.1 == *dst).len(),
            n <= i,
        decreases pairs@.len() - i,
    {
        proof {
            assert(pairs@.subrange(0, i + 1).drop_last() =~= pairs@.subrange(0, i as int));
            reveal(Seq::filter);
        }
        if pairs[i].1.same(dst) {
            n += 1;
        }
        i += 1;
    }
    assert(pairs@.subrange(0, pairs@.len() as int) =~= pairs@);
    n
}

/// `(a + b)` holds `x` exactly when `a` or `b` does.
proof fn lemma_concat_contains<T>(a: Seq<T>, b: Seq<T>, x: T)
    ensures
        (a + b).contains(x) <==> a.contains(x) || b.contains(x),
{
    if a.contains(x) {
        let i = choose|i: int| 0 <= i < a.len() && a[i] == x;
        assert((a + b)[i] == x);
    }
    if b.contains(x) {
        let i = choose|i: int| 0 <= i < b.len() && b[i] == x;
        assert((a + b)[a.len() + i] == x);
    }
    if (a + b).contains(x) {
        let i = choose|i: int| 0 <= i < (a + b).len() && (a + b)[i] == x;
        if i < a.len() {
            assert(a[i] == x);
        } else {
            assert(b[i - a.len()] == x);
        }
    }
}

/// A non-empty sequence holds `v` exactly when its front or its last does.
proof fn lemma_last_contains<T>(vs: Seq<T>, v: T)
    requires
        vs.len() > 0,
    ensures
        vs.contains(v) <==> vs.drop_last().contains(v) || v == vs.last(),
{
    if vs.contains(v) {
        let i = choose|i: int| 0 <= i < vs.len() && vs[i] == v;
        if i < vs.len() - 1 {
            assert(vs.drop_last()[i] == v);
        }
    }
    if vs.drop_last().contains(v) {
        let i = choose|i: int| 0 <= i < vs.drop_last().len() && vs.drop_last()[i] == v;
        assert(vs[i] == v);
    }
    if v == vs.last() {
        assert(vs[vs.len() - 1] == v);
    }
}

/// `x` is `c` at a window start at which both windows fit.
pub open spec fn mem_window(c: DataConfiguration, x: DataConfiguration) -> bool {
    &&& x == DataConfiguration { window_start: x.window_start, ..c }
    &&& 1 <= x.window_start <= window_count(c)
}

proof fn lemma_window_mem(c: DataConfiguration, x: DataConfiguration)
    ensures
        window_block(c).contains(x) <==> mem_window(c, x),
{
    let b = window_block(c);
    if mem_window(c, x) {
        assert(b[x.window_start - 1] == x);
    }
    if b.contains(x) {
        let j = choose|j: int| 0 <= j < b.len() && b[j] == x;
        assert(x.window_start == j + 1);
    }
}

/// `x` extends `c` by a above train limit of its dimension and all deeper dimensions.
pub open spec fn mem_limit(c: DataConfiguration, x: DataConfiguration) -> bool {
    above_train_limits_spec().contains(x.above_train_limit) && mem_window(DataConfiguration { above_train_limit: x.above_train_limit, ..c }, x)
}

proof fn lemma_limit_mem(c: DataConfiguration, vs: Seq<u32>, x: DataConfiguration)
    ensures
        limit_block(c, vs).contains(x) <==> vs.contains(x.above_train_limit) && mem_window(
            DataConfiguration { above_train_limit: x.above_train_limit, ..c },
            x,
        ),
    decreases vs.len(),
{
    if vs.len() == 0 {
        assert(!limit_block(c, vs).contains(x));
        assert(!vs.contains(x.above_train_limit));
    } else {
        let c2 = DataConfiguration { above_train_limit: vs.last(), ..c };
        lemma_limit_mem(c, vs.drop_last(), x);
        lemma_window_mem(c2, x);
        lemma_last_contains(vs, x.above_train_limit);
        let front = limit_block(c, vs.drop_last());
        let back = window_block(c2);
        assert(limit_block(c, vs) == front + back);
        lemma_concat_contains(front, back, x);
    }
}

/// `x` extends `c` by a low pass of its dimension and all deeper dimensions.
pub open spec fn mem_low_pass(c: DataConfiguration, x: DataConfiguration) -> bool {
    low_pass_filter_spec().contains(x.low_pass) && mem_limit(DataConfiguration { low_pass: x.low_pass, ..c }, x)
}

proof fn lemma_low_pass_mem(c: DataConfiguration, vs: Seq<u32>, x: DataConfiguration)
    ensures
        low_pass_block(c, vs).contains(x) <==> vs.contains(x.low_pass) && mem_limit(
            DataConfiguration { low_pass: x.low_pass, ..c },
            x,
        ),
    decreases vs.len(),
{
    if vs.len() == 0 {
        assert(!low_pass_block(c, vs).contains(x));
        assert(!vs.contains(x.low_pass));
    } else {
        let c2 = DataConfiguration { low_pass: vs.last(), ..c };
        lemma_low_pass_mem(c, vs.drop_last(), x);
        lemma_limit_mem(c2, above_train_limits_spec(), x);
        lemma_last_contains(vs, x.low_pass);
        let front = low_pass_block(c, vs.drop_last());
        let back = limit_block(c2, above_train_limits_spec());
        assert(low_pass_block(c, vs) == front + back);
        lemma_concat_contains(front, back, x);
    }
}

/// `x` extends `c` by a min pkts avg of its dimension and all deeper dimensions.
pub open spec fn mem_min_pkts(c: DataConfiguration, x: DataConfiguration) -> bool {
    min_pkts_avg_spec().contains(x.min_pkts_avg) && mem_low_pass(DataConfiguration { min_pkts_avg: x.min_pkts_avg, ..c }, x)
}

proof fn lemma_min_pkts_mem(c: DataConfiguration, vs: Seq<u32>, x: DataConfiguration)
    ensures
        min_pkts_block(c, vs).contains(x) <==> vs.contains(x.min_pkts_avg) && mem_low_pass(
            DataConfiguration { min_pkts_avg: x.min_pkts_avg, ..c },
            x,
        ),
    decreases vs.len(),
{
    if vs.len() == 0 {
        assert(!min_pkts_block(c, vs).contains(x));
        assert(!vs.contains(x.min_pkts_avg));
    } else {
        let c2 = DataConfiguration { min_pkts_avg: vs.last(), ..c };
        lemma_min_pkts_mem(c, vs.drop_last(), x);
        lemma_low_pass_mem(c2, low_pass_filter_spec(), x);
        lemma_last_contains(vs, x.min_pkts_avg);
        let front = min_pkts_block(c, vs.drop_last());
        let back = low_pass_block(c2, low_pass_filter_spec());
        assert(min_pkts_block(c, vs) == front + back);
        lemma_concat_contains(front, back, x);
    }
}

/// `x` extends `c` by a min active of its dimension and all deeper dimensions.
pub open spec fn mem_min_active(c: DataConfiguration, x: DataConfiguration) -> bool {
    min_active_periods_spec().contains(x.min_active) && x.min_active <= c.train_length && mem_min_pkts(DataConfiguration { min_active: x.min_active, ..c }, x)
}

proof fn lemma_min_active_mem(c: DataConfiguration, vs: Seq<u8>, x: DataConfiguration)
    ensures
        min_active_block(c, vs).contains(x) <==> vs.contains(x.min_active) && x.min_active <= c.train_length && mem_min_pkts(
            DataConfiguration { min_active: x.min_active, ..c },
            x,
        ),
    decreases vs.len(),
{
    if vs.len() == 0 {
        assert(!min_active_block(c, vs).contains(x));
        assert(!vs.contains(x.min_active));
    } else {
        let c2 = DataConfiguration { min_active: vs.last(), ..c };
        lemma_min_active_mem(c, vs.drop_last(), x);
        lemma_min_pkts_mem(c2, min_pkts_avg_spec(), x);
        lemma_last_contains(vs, x.min_active);
        let front = min_active_block(c, vs.drop_last());
        let back = if vs.last() <= c.train_length { min_pkts_block(c2, min_pkts_avg_spec()) } else { Seq::empty() };
        assert(min_active_block(c, vs) == front + back);
        lemma_concat_contains(front, back, x);
    }
}

/// `x` extends `c` by a test length of its dimension and all deeper dimensions.
pub open spec fn mem_test(c: DataConfiguration, x: DataConfiguration) -> bool {
    windows_test_spec().contains(x.test_length) && mem_min_active(DataConfiguration { test_length: x.test_length, ..c }, x)
}

proof fn lemma_test_mem(c: DataConfiguration, vs: Seq<u8>, x: DataConfiguration)
    ensures
        test_block(c, vs).contains(x) <==> vs.contains(x.test_length) && mem_min_active(
            DataConfiguration { test_length: x.test_length, ..c },
            x,
        ),
    decreases vs.len(),
{
    if vs.len() == 0 {
        assert(!test_block(c, vs).contains(x));
        assert(!vs.contains(x.test_length));
    } else {
        let c2 = DataConfiguration { test_length: vs.last(), ..c };
        lemma_test_mem(c, vs.drop_last(), x);
        lemma_min_active_mem(c2, min_active_periods_spec(), x);
        lemma_last_contains(vs, x.test_length);
        let front = test_block(c, vs.drop_last());
        let back = min_active_block(c2, min_active_periods_spec());
        assert(test_block(c, vs) == front + back);
        lemma_concat_contains(front, back, x);
    }
}

proof fn lemma_train_mem(c: DataConfiguration, vs: Seq<u8>, x: DataConfiguration)
    ensures
        train_block(c, vs).contains(x) <==> vs.contains(x.train_length) && mem_test(
            DataConfiguration { train_length: x.train_length, ..c },
            x,
        ),
    decreases vs.len(),
{
    if vs.len() == 0 {
        assert(!train_block(c, vs).contains(x));
        assert(!vs.contains(x.train_length));
    } else {
        let c2 = DataConfiguration { train_length: vs.last(), ..c };
        lemma_train_mem(c, vs.drop_last(), x);
        lemma_test_mem(c2, windows_test_spec(), x);
        lemma_last_contains(vs, x.train_length);
        let front = train_block(c, vs.drop_last());
        let back = test_block(c2, windows_test_spec());
        assert(train_block(c, vs) == front + back);
        lemma_concat_contains(front, back, x);
    }
}

/// `x` is a configuration of the grid of `location` and `dst` over the
/// training lengths `trains`: each parameter from its dimension, at most as
/// many minimum active intervals as training intervals, and a window start
/// from 1 at which training and test window fit in the data.
pub open spec fn in_grid(x: DataConfiguration, location: Location, dst: NetworkKey, trains: Seq<u8>) -> bool {
    &&& x.location == location
    &&& x.iprange_dst == dst
    &&& trains.contains(x.train_length)
    &&& windows_test_spec().contains(x.test_length)
    &&& min_active_periods_spec().contains(x.min_active)
    &&& x.min_active <= x.train_length
    &&& min_pkts_avg_spec().contains(x.min_pkts_avg)
    &&& low_pass_filter_spec().contains(x.low_pass)
    &&& above_train_limits_spec().contains(x.above_train_limit)
    &&& 1 <= x.window_start <= window_count(x)
}

/// The grid holds exactly the configurations that `in_grid` describes.
pub proof fn lemma_grid_members(location: Location, dst: NetworkKey, trains: Seq<u8>, x: DataConfiguration)
    ensures
        train_block(grid_base(location, dst), trains).contains(x) <==> in_grid(x, location, dst, trains),
{
    lemma_train_mem(grid_base(location, dst), trains, x);
}

proof fn lemma_window_key_present(starts: int, lengths: Seq<u8>, s: u32, l: u8)
    requires
        1 <= s <= starts,
        lengths.contains(l),
        s + l - 1 <= TOTAL_TIME_LENGTH,
    ensures
        window_keys_block(starts, lengths).contains((s, l)),
    decreases starts,
{
    let front = window_keys_block(starts - 1, lengths);
    let f = lengths.filter(fits_at(starts));
    let back = f.map_values(key_at(starts));
    assert(window_keys_block(starts, lengths) == front + back);
    if s < starts {
        lemma_window_key_present(starts - 1, lengths, s, l);
    } else {
        let i = choose|i: int| 0 <= i < lengths.len() && lengths[i] == l;
        lengths.lemma_filter_contains(fits_at(starts), i);
        let j = choose|j: int| 0 <= j < f.len() && f[j] == l;
        assert(back[j] == (s, l));
    }
    lemma_concat_contains(front, back, (s, l));
}

/// Every window that a configuration of the grid reads, its training window
/// and the test window that follows, is among the windows fetched for the
/// window cache, when the training lengths are among the standard ones.
pub proof fn lemma_grid_windows_prefetched(
    location: Location,
    dst: NetworkKey,
    trains: Seq<u8>,
    x: DataConfiguration,
)
    requires
        forall|i: int| 0 <= i < trains.len() ==> windows_train_spec().contains(#[trigger] trains[i]),
        in_grid(x, location, dst, trains),
    ensures
        window_keys_block(TOTAL_TIME_LENGTH as int, windows_train_spec()).contains(
            (x.window_start, x.train_length),
        ),
        window_keys_block(TOTAL_TIME_LENGTH as int, windows_train_spec()).contains(
            ((x.window_start + x.train_length) as u32, x.test_length),
        ),
{
    let w = windows_train_spec();
    let i = choose|i: int| 0 <= i < trains.len() && trains[i] == x.train_length;
    assert(w.contains(x.train_length));
    lemma_window_key_present(TOTAL_TIME_LENGTH as int, w, x.window_start, x.train_length);
    let t = windows_test_spec();
    let k = choose|k: int| 0 <= k < t.len() && t[k] == x.test_length;
    if k == 0 {
        assert(w[3] == x.test_length);
    } else if k == 1 {
        assert(w[5] == x.test_length);
    } else {
        assert(w[9] == x.test_length);
    }
    lemma_window_key_present(
        TOTAL_TIME_LENGTH as int,
        w,
        (x.window_start + x.train_length) as u32,
        x.test_length,
    );
}

} // verus!
