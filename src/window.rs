//! The window cache: the traffic of every window that the evaluations of one
//! location and destination read, fetched once and then only read.
use crate::join::{all_wf, ascending};
use crate::network::NetworkKey;
use std::collections::HashMap;
use vstd::prelude::*;

verus! {

/// A traffic map: ascending, well-formed keys.
pub open spec fn valid_map(s: Seq<(NetworkKey, u64)>) -> bool {
    ascending(s) && all_wf(s)
}

/// Whether `s` is a traffic map: keys well formed and strictly ascending.
pub fn is_valid_map(s: &Vec<(NetworkKey, u64)>) -> (r: bool)
    ensures
        r == valid_map(s@),
{
    let mut i: usize = 0;
    while i < s.len()
        invariant
            i <= s@.len(),
            forall|j: int| 0 <= j < i ==> (#[trigger] s@[j]).0.wf(),
            forall|a: int, b: int| 0 <= a < b < i ==> #[trigger] s@[a].0.rank() < #[trigger] s@[b].0.rank(),
        decreases s@.len() - i,
    {
        let k = s[i].0;
        let ok = match k {
            NetworkKey::V4 { prefix, .. } => prefix <= 32,
            NetworkKey::V6 { prefix, .. } => prefix <= 128,
        };
        if !ok {
            return false;
        }
        if i > 0 {
            let prev = s[i - 1].0;
            match prev.compare(&k) {
                core::cmp::Ordering::Less => {},
                _ => {
                    assert(!ascending(s@)) by {
                        assert(!(s@[i - 1].0.rank() < s@[i as int].0.rank()));
                    }
                    return false;
                },
            }
            assert forall|a: int, b: int| 0 <= a < b < i + 1 implies #[trigger] s@[a].0.rank()
                < #[trigger] s@[b].0.rank() by {
                if b == i && a < i - 1 {
                    assert(s@[a].0.rank() < s@[i - 1].0.rank());
                }
            }
        }
        i += 1;
    }
    true
}

/// The cache key of the window of `length` intervals from `start`.
pub open spec fn window_key(start: u32, length: u8) -> u64 {
    (start as u64 * 256 + length as u64) as u64
}

/// Traffic per window, keyed by `window_key`.
#[derive(Debug)]
pub struct WindowCache {
    pub windows: HashMap<u64, Vec<(NetworkKey, u64)>>,
}

impl WindowCache {
    /// Every window holds a traffic map.
    pub open spec fn wf(&self) -> bool {
        forall|k: u64| #[trigger] self.windows@.contains_key(k) ==> valid_map(self.windows@[k]@)
    }

    /// The traffic of the window of `length` intervals from `start`, if
    /// cached.
    pub open spec fn window(&self, start: u32, length: u8) -> Option<Seq<(NetworkKey, u64)>> {
        if self.windows@.contains_key(window_key(start, length)) {
            Some(self.windows@[window_key(start, length)]@)
        } else {
            None
        }
    }

    /// An empty cache.
    pub fn new() -> (r: WindowCache)
        ensures
            r.wf(),
            forall|s: u32, l: u8| r.window(s, l) is None,
    {
        WindowCache { windows: HashMap::new() }
    }

    /// Caches `traffic` as the window of `length` intervals from `start`, if
    /// it is a traffic map; returns whether it was cached.
    pub fn insert(&mut self, start: u32, length: u8, traffic: Vec<(NetworkKey, u64)>) -> (r: bool)
        requires
            old(self).wf(),
        ensures
            final(self).wf(),
            r == valid_map(traffic@),
            r ==> final(self).windows@ == old(self).windows@.insert(window_key(start, length), traffic),
            !r ==> final(self).windows@ == old(self).windows@,
    {
        if !is_valid_map(&traffic) {
            return false;
        }
        let key: u64 = start as u64 * 256 + length as u64;
        self.windows.insert(key, traffic);
        true
    }

    /// The traffic of the window of `length` intervals from `start`, if
    /// cached.
    pub fn get(&self, start: u32, length: u8) -> (r: Option<&Vec<(NetworkKey, u64)>>)
        ensures
            r matches Some(v) ==> self.window(start, length) == Some(v@),
            r is None ==> self.window(start, length) is None,
    {
        let key: u64 = start as u64 * 256 + length as u64;
        self.windows.get(&key)
    }
}

} // verus!
