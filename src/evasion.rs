//! The parts of the evasion summary that read result file paths: the number
//! of evasion networks from the directory name (`name-10000ips`), the attack
//! bandwidth from the file name (`..._109951162777600bps.json`), and the
//! placement of results by window start.
use vstd::prelude::*;
use vstd::string::StringSliceAdditionalSpecFns;

verus! {

/// The byte is an ASCII decimal digit.
pub open spec fn is_digit(c: u8) -> bool {
    0x30 <= c <= 0x39
}

/// The value of a string of decimal digits.
pub open spec fn decimal_value(s: Seq<u8>) -> int
    decreases s.len(),
{
    if s.len() == 0 {
        0
    } else {
        decimal_value(s.drop_last()) * 10 + (s.last() - 0x30)
    }
}

/// The digits of `s`, without one leading `+`.
pub open spec fn unsigned_digits(s: Seq<u8>) -> Seq<u8> {
    if s.len() > 0 && s[0] == 0x2b {
        s.drop_first()
    } else {
        s
    }
}

/// `s` read as a `u64` the way Rust's `u64::from_str` reads it: an optional
/// `+` and at least one decimal digit, of a value that fits.
pub open spec fn parse_u64_spec(s: Seq<u8>) -> Option<u64> {
    let d = unsigned_digits(s);
    if d.len() > 0 && (forall|i: int| 0 <= i < d.len() ==> is_digit(#[trigger] d[i]))
        && decimal_value(d) <= u64::MAX {
        Some(decimal_value(d) as u64)
    } else {
        None
    }
}

proof fn lemma_decimal_grows(s: Seq<u8>, i: int)
    requires
        0 <= i <= s.len(),
        forall|j: int| 0 <= j < s.len() ==> is_digit(#[trigger] s[j]),
    ensures
        decimal_value(s.subrange(0, i)) <= decimal_value(s),
        decimal_value(s) >= 0,
    decreases s.len(),
{
    if s.len() > 0 {
        assert forall|j: int| 0 <= j < s.drop_last().len() implies is_digit(#[trigger] s.drop_last()[j]) by {
            assert(s.drop_last()[j] == s[j]);
        }
        if i == s.len() {
            assert(s.subrange(0, i) =~= s);
            lemma_decimal_grows(s.drop_last(), 0);
        } else {
            assert(s.drop_last().subrange(0, i) =~= s.subrange(0, i));
            lemma_decimal_grows(s.drop_last(), i);
        }
        assert(is_digit(s[s.len() - 1]));
    } else {
        assert(s.subrange(0, i) =~= s);
    }
}

/// Reads `s[start..end]` as a `u64` the way `u64::from_str` does.
pub fn parse_u64(s: &[u8], start: usize, end: usize) -> (r: Option<u64>)
    requires
        start <= end <= s@.len(),
    ensures
        r == parse_u64_spec(s@.subrange(start as int, end as int)),
{
    let ghost whole = s@.subrange(start as int, end as int);
    let mut i = start;
    if i < end && s[i] == 0x2b {
        i = i + 1;
    }
    let ghost d = s@.subrange(i as int, end as int);
    assert(d =~= unsigned_digits(whole));
    if i == end {
        return None;
    }
    let first = i;
    let mut v: u64 = 0;
    assert(d.subrange(0, 0) =~= Seq::<u8>::empty());
    while i < end
        invariant
            first <= i <= end <= s@.len(),
            d == s@.subrange(first as int, end as int),
            whole == s@.subrange(start as int, end as int),
            d == unsigned_digits(whole),
            v as int == decimal_value(d.subrange(0, i - first)),
            forall|j: int| 0 <= j < i - first ==> is_digit(#[trigger] d[j]),
        decreases end - i,
    {
        let c = s[i];
        if c < 0x30 || c > 0x39 {
            assert(!is_digit(d[i - first]));
            return None;
        }
        assert(d.subrange(0, i + 1 - first).drop_last() =~= d.subrange(0, i - first));
        if v > 1844674407370955161 || (v == 1844674407370955161 && c > 0x35) {
            proof {
                let p = d.subrange(0, i + 1 - first);
                assert(decimal_value(p) > u64::MAX);
                if forall|j: int| 0 <= j < d.len() ==> is_digit(#[trigger] d[j]) {
                    lemma_decimal_grows(d, i + 1 - first);
                }
            }
            return None;
        }
        v = v * 10 + (c - 0x30) as u64;
        i = i + 1;
    }
    assert(d.subrange(0, end - first) =~= d);
    Some(v)
}

/// What follows the last `sep` in `s`; all of `s` without one.
pub open spec fn after_last(s: Seq<u8>, sep: u8) -> Seq<u8>
    decreases s.len(),
{
    if s.len() == 0 {
        s
    } else if s.last() == sep {
        Seq::empty()
    } else {
        after_last(s.drop_last(), sep).push(s.last())
    }
}

/// The start of the part of `s[start..end]` after its last `sep` (`start`
/// without one).
fn after_last_start(s: &[u8], start: usize, end: usize, sep: u8) -> (r: usize)
    requires
        start <= end <= s@.len(),
    ensures
        start <= r <= end,
        s@.subrange(r as int, end as int) == after_last(s@.subrange(start as int, end as int), sep),
{
    let mut i = end;
    assert(s@.subrange(end as int, end as int) =~= Seq::<u8>::empty());
    while i > start
        invariant
            start <= i <= end <= s@.len(),
            forall|j: int| i <= j < end ==> s@[j] != sep,
            after_last(s@.subrange(start as int, end as int), sep) == after_last(
                s@.subrange(start as int, i as int),
                sep,
            ) + s@.subrange(i as int, end as int),
        decreases i - start,
    {
        let ghost pre = s@.subrange(start as int, i as int);
        assert(pre.drop_last() =~= s@.subrange(start as int, i - 1));
        assert(pre.last() == s@[i - 1]);
        if s[i - 1] == sep {
            assert(after_last(pre, sep) =~= Seq::<u8>::empty());
            assert(after_last(s@.subrange(start as int, end as int), sep) =~= s@.subrange(
                i as int,
                end as int,
            ));
            return i;
        }
        assert(s@.subrange(i - 1, end as int) =~= seq![s@[i - 1]] + s@.subrange(i as int, end as int));
        assert(after_last(pre, sep) =~= after_last(s@.subrange(start as int, i - 1), sep).push(s@[i - 1]));
        i = i - 1;
    }
    assert(s@.subrange(start as int, start as int) =~= Seq::<u8>::empty());
    assert(after_last(s@.subrange(start as int, end as int), sep) =~= s@.subrange(start as int, end as int));
    start
}

/// The bytes of `ips`.
pub open spec fn ips_suffix() -> Seq<u8> {
    seq![0x69u8, 0x70u8, 0x73u8]
}

/// The number of evasion networks that a directory name such as
/// `name-10000ips` gives: the name must end in `ips`, and what stands between
/// the last `-` and that suffix must read as a `u64`.
pub fn evasion_ips_of_dir(name: &str) -> (r: Option<u64>)
    ensures
        ({
            let b = name.spec_bytes();
            if b.len() >= 3 && b.subrange(b.len() - 3, b.len() as int) == ips_suffix() {
                r == parse_u64_spec(after_last(b.subrange(0, b.len() - 3), 0x2du8))
            } else {
                r is None
            }
        }),
{
    let b = name.as_bytes();
    let n = b.len();
    if n < 3 || b[n - 3] != 0x69 || b[n - 2] != 0x70 || b[n - 1] != 0x73 {
        proof {
            if b@.len() >= 3 {
                let suf = b@.subrange(b@.len() - 3, b@.len() as int);
                if suf == ips_suffix() {
                    assert(suf[0] == 0x69 && suf[1] == 0x70 && suf[2] == 0x73);
                }
            }
        }
        return None;
    }
    assert(b@.subrange(n - 3, n as int) =~= ips_suffix());
    let s = after_last_start(b, 0, n - 3, 0x2d);
    parse_u64(b, s, n - 3)
}

/// What precedes the first `bps` in `s`; all of `s` without one.
pub open spec fn before_bps(s: Seq<u8>) -> Seq<u8>
    decreases s.len(),
{
    if s.len() < 3 {
        s
    } else if s[0] == 0x62 && s[1] == 0x70 && s[2] == 0x73 {
        Seq::empty()
    } else {
        seq![s[0]] + before_bps(s.drop_first())
    }
}

/// The end of the part of `s` before its first `bps`.
fn before_bps_end(s: &[u8]) -> (r: usize)
    ensures
        r <= s@.len(),
        s@.subrange(0, r as int) == before_bps(s@),
{
    let n = s.len();
    let mut i: usize = 0;
    assert(s@.subrange(0, 0) =~= Seq::<u8>::empty());
    assert(s@.subrange(0, n as int) =~= s@);
    while i < n
        invariant
            i <= n == s@.len(),
            before_bps(s@) == s@.subrange(0, i as int) + before_bps(s@.subrange(i as int, n as int)),
        decreases n - i,
    {
        let ghost rest = s@.subrange(i as int, n as int);
        if n - i >= 3 && s[i] == 0x62 && s[i + 1] == 0x70 && s[i + 2] == 0x73 {
            assert(before_bps(rest) =~= Seq::<u8>::empty());
            assert(s@.subrange(0, i as int) + Seq::<u8>::empty() =~= s@.subrange(0, i as int));
            return i;
        }
        if n - i < 3 {
            assert(before_bps(rest) == rest);
            assert(s@.subrange(0, i as int) + rest =~= s@.subrange(0, n as int));
            return n;
        }
        assert(rest.drop_first() =~= s@.subrange(i + 1, n as int));
        assert(s@.subrange(0, i as int) + (seq![rest[0]] + before_bps(rest.drop_first())) =~= s@.subrange(
            0,
            i + 1,
        ) + before_bps(s@.subrange(i + 1, n as int)));
        i = i + 1;
    }
    assert(s@.subrange(n as int, n as int) =~= Seq::<u8>::empty());
    assert(s@.subrange(0, n as int) + Seq::<u8>::empty() =~= s@.subrange(0, n as int));
    n
}

/// The attack bandwidth, in bits per second, that a result file path such
/// as `.../eval_results_xxx_198.51.100.1_109951162777600bps.json` gives: what
/// stands between the last `_` and the first `bps`, read as a `u64`.
pub fn attack_bandwidth_of_path(path: &str) -> (r: Option<u64>)
    ensures
        r == parse_u64_spec(after_last(before_bps(path.spec_bytes()), 0x5fu8)),
{
    let b = path.as_bytes();
    let e = before_bps_end(b);
    let s = after_last_start(b, 0, e, 0x5f);
    parse_u64(b, s, e)
}


/// The above-train limit (given in thousandths) rounded to the nearest whole
/// number, halves away from zero, and capped at 255.
pub fn round_limit(limit: u32) -> (r: u8)
    ensures
        r as int == if (limit as int + 500) / 1000 > 255 {
            255
        } else {
            (limit as int + 500) / 1000
        },
{
    let q: u64 = (limit as u64 + 500) / 1000;
    if q > 255 {
        255
    } else {
        q as u8
    }
}

/// Puts `result` at position `window_start - 1` of `slots`, growing `slots`
/// with empty positions as needed.
pub fn place_result<T>(slots: &mut Vec<Option<T>>, window_start: u32, result: T)
    requires
        window_start >= 1,
    ensures
        final(slots)@.len() == if old(slots)@.len() < window_start {
            window_start as nat
        } else {
            old(slots)@.len()
        },
        final(slots)@[window_start - 1] == Some(result),
        forall|j: int|
            0 <= j < final(slots)@.len() && j != window_start - 1 ==> #[trigger] final(slots)@[j] == if j
                < old(slots)@.len() {
                old(slots)@[j]
            } else {
                None
            },
{
    let ghost before = slots@;
    let target = window_start as usize;
    while slots.len() < target
        invariant
            before.len() <= slots@.len(),
            slots@.len() <= target || slots@.len() == before.len(),
            forall|j: int| 0 <= j < before.len() ==> #[trigger] slots@[j] == before[j],
            forall|j: int| before.len() <= j < slots@.len() ==> #[trigger] slots@[j] is None,
        decreases target - slots@.len(),
    {
        slots.push(None);
    }
    slots.set(target - 1, Some(result));
}

/// The results of all positions, or `None` if a position is empty.
pub fn complete_series<T: Copy>(slots: &Vec<Option<T>>) -> (r: Option<Vec<T>>)
    ensures
        r is Some <==> forall|j: int| 0 <= j < slots@.len() ==> (#[trigger] slots@[j]) is Some,
        r matches Some(v) ==> v@.len() == slots@.len() && forall|j: int|
            0 <= j < slots@.len() ==> slots@[j] == Some(#[trigger] v@[j]),
{
    let mut v: Vec<T> = Vec::new();
    let mut i: usize = 0;
    while i < slots.len()
        invariant
            i <= slots@.len(),
            v@.len() == i,
            forall|j: int| 0 <= j < i ==> slots@[j] == Some(#[trigger] v@[j]),
        decreases slots@.len() - i,
    {
        match slots[i] {
            Some(x) => v.push(x),
            None => {
                return None;
            },
        }
        i += 1;
    }
    assert forall|j: int| 0 <= j < slots@.len() implies (#[trigger] slots@[j]) is Some by {
        assert(slots@[j] == Some(v@[j]));
    }
    Some(v)
}

/// `needle` occurs in `hay` at position `i`.
pub open spec fn occurs_at(hay: Seq<u8>, needle: Seq<u8>, i: int) -> bool {
    0 <= i && i + needle.len() <= hay.len() && hay.subrange(i, i + needle.len()) == needle
}

/// Whether `n` occurs in `h` at position `i`.
fn matches_at(h: &[u8], n: &[u8], i: usize) -> (r: bool)
    requires
        n@.len() <= h@.len(),
        i <= h@.len() - n@.len(),
    ensures
        r == occurs_at(h@, n@, i as int),
{
    let mut j: usize = 0;
    let hl = h.len();
    while j < n.len()
        invariant
            hl == h@.len(),
            n@.len() <= h@.len(),
            i <= h@.len() - n@.len(),
            j <= n@.len(),
            forall|m: int| 0 <= m < j ==> h@[i + m] == n@[m],
        decreases n@.len() - j,
    {
        if h[i + j] != n[j] {
            assert(h@.subrange(i as int, i + n@.len())[j as int] != n@[j as int]);
            return false;
        }
        j += 1;
    }
    assert(h@.subrange(i as int, i + n@.len()) =~= n@);
    true
}

/// Whether `needle` occurs in `hay`.
pub fn contains_str(hay: &str, needle: &str) -> (r: bool)
    ensures
        r == exists|i: int| occurs_at(hay.spec_bytes(), needle.spec_bytes(), i),
{
    let h = hay.as_bytes();
    let n = needle.as_bytes();
    if n.len() > h.len() {
        return false;
    }
    let last = h.len() - n.len();
    let mut i: usize = 0;
    loop
        invariant
            n@.len() <= h@.len(),
            last == h@.len() - n@.len(),
            h@ == hay.spec_bytes(),
            n@ == needle.spec_bytes(),
            i <= last,
            forall|k: int| 0 <= k < i ==> !occurs_at(h@, n@, k),
        decreases last - i,
    {
        if matches_at(h, n, i) {
            return true;
        }
        if i == last {
            return false;
        }
        i += 1;
    }
}

} // verus!
