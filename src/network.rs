//! Canonical IP network keys.
//!
//! A key is a base address and a prefix length. It is canonical (normalized)
//! when no host bit of the base address is set; all maps that are joined are
//! keyed by canonical keys only.
use vstd::prelude::*;

verus! {

/// An IP address, IPv4 as a `u32` and IPv6 as a `u128`, most significant
/// byte first.
#[derive(Clone, Copy, Debug, PartialEq, Eq, Structural, PartialOrd, Ord, Hash)]
pub enum IpAddress {
    V4(u32),
    V6(u128),
}

/// An IP network: a base address with a prefix length.
#[allow(inconsistent_fields)]
#[derive(Clone, Copy, Debug, PartialEq, Eq, Structural, PartialOrd, Ord, Hash)]
pub enum NetworkKey {
    V4 { addr: u32, prefix: u8 },
    V6 { addr: u128, prefix: u8 },
}

/// Number of bits in an IPv4 address.
pub const V4_BITS: u8 = 32;

/// Number of bits in an IPv6 address.
pub const V6_BITS: u8 = 128;

/// The network address of `addr` under `prefix`: all host bits cleared.
pub open spec fn v4_network(addr: u32, prefix: u8) -> u32 {
    if prefix == 0 {
        0
    } else {
        (addr >> ((32 - prefix) as u32)) << ((32 - prefix) as u32)
    }
}

/// The network address of `addr` under `prefix`: all host bits cleared.
pub open spec fn v6_network(addr: u128, prefix: u8) -> u128 {
    if prefix == 0 {
        0
    } else {
        (addr >> ((128 - prefix) as u128)) << ((128 - prefix) as u128)
    }
}

impl NetworkKey {
    /// The prefix length does not exceed the address width.
    pub open spec fn wf(self) -> bool {
        match self {
            NetworkKey::V4 { prefix, .. } => prefix <= 32,
            NetworkKey::V6 { prefix, .. } => prefix <= 128,
        }
    }

    /// The same network with all host bits of the base address cleared.
    pub open spec fn normal(self) -> NetworkKey {
        match self {
            NetworkKey::V4 { addr, prefix } => NetworkKey::V4 { addr: v4_network(addr, prefix), prefix },
            NetworkKey::V6 { addr, prefix } => NetworkKey::V6 { addr: v6_network(addr, prefix), prefix },
        }
    }

    /// The key is canonical: normalizing it changes nothing.
    pub open spec fn is_normal(self) -> bool {
        self.normal() == self
    }

    /// Position of the key in the total order of keys: every IPv4 key comes
    /// before every IPv6 key, then keys go by base address, then by prefix.
    pub open spec fn rank(self) -> int {
        match self {
            NetworkKey::V4 { addr, prefix } => addr as int * 256 + prefix as int,
            NetworkKey::V6 { addr, prefix } => 0x100_0000_0000 + addr as int * 256 + prefix as int,
        }
    }

    /// Returns the network with the given base address and prefix length.
    pub fn new(ip: IpAddress, prefix: u8) -> (r: NetworkKey)
        ensures
            r == (match ip {
                IpAddress::V4(a) => NetworkKey::V4 { addr: a, prefix },
                IpAddress::V6(a) => NetworkKey::V6 { addr: a, prefix },
            }),
    {
        match ip {
            IpAddress::V4(a) => NetworkKey::V4 { addr: a, prefix },
            IpAddress::V6(a) => NetworkKey::V6 { addr: a, prefix },
        }
    }

    /// The prefix length.
    pub fn prefix(&self) -> (r: u8)
        ensures
            r == (match *self {
                NetworkKey::V4 { prefix, .. } => prefix,
                NetworkKey::V6 { prefix, .. } => prefix,
            }),
    {
        match *self {
            NetworkKey::V4 { prefix, .. } => prefix,
            NetworkKey::V6 { prefix, .. } => prefix,
        }
    }

    /// Returns the canonical form of the key: the base address with all host
    /// bits cleared, the prefix length kept.
    pub fn normalize(&self) -> (r: NetworkKey)
        requires
            self.wf(),
        ensures
            r == self.normal(),
            r.wf(),
    {
        match *self {
            NetworkKey::V4 { addr, prefix } => NetworkKey::V4 {
                addr: ipv4_to_network_address(addr, prefix),
                prefix,
            },
            NetworkKey::V6 { addr, prefix } => NetworkKey::V6 {
                addr: ipv6_to_network_address(addr, prefix),
                prefix,
            },
        }
    }

    /// Whether the key is canonical.
    pub fn is_normalized(&self) -> (r: bool)
        requires
            self.wf(),
        ensures
            r == self.is_normal(),
    {
        let n = self.normalize();
        n.same(self)
    }

    /// Key equality, field by field.
    pub fn same(&self, other: &NetworkKey) -> (r: bool)
        ensures
            r == (*self == *other),
    {
        match (*self, *other) {
            (NetworkKey::V4 { addr: a, prefix: p }, NetworkKey::V4 { addr: b, prefix: q }) => a == b
                && p == q,
            (NetworkKey::V6 { addr: a, prefix: p }, NetworkKey::V6 { addr: b, prefix: q }) => a == b
                && p == q,
            _ => false,
        }
    }

    /// Whether the key comes before `other` in the order given by `rank`.
    pub fn precedes(&self, other: &NetworkKey) -> (r: bool)
        ensures
            r == (self.rank() < other.rank()),
    {
        match self.compare(other) {
            core::cmp::Ordering::Less => true,
            _ => false,
        }
    }

    /// Compares two keys in the order given by `rank`.
    pub fn compare(&self, other: &NetworkKey) -> (r: core::cmp::Ordering)
        ensures
            (r == core::cmp::Ordering::Less) == (self.rank() < other.rank()),
            (r == core::cmp::Ordering::Equal) == (*self == *other),
            (r == core::cmp::Ordering::Greater) == (self.rank() > other.rank()),
    {
        proof {
            lemma_rank_injective(*self, *other);
        }
        match (*self, *other) {
            (NetworkKey::V4 { .. }, NetworkKey::V6 { .. }) => core::cmp::Ordering::Less,
            (NetworkKey::V6 { .. }, NetworkKey::V4 { .. }) => core::cmp::Ordering::Greater,
            (NetworkKey::V4 { addr: a, prefix: p }, NetworkKey::V4 { addr: b, prefix: q }) => {
                if a < b || (a == b && p < q) {
                    core::cmp::Ordering::Less
                } else if a == b && p == q {
                    core::cmp::Ordering::Equal
                } else {
                    core::cmp::Ordering::Greater
                }
            },
            (NetworkKey::V6 { addr: a, prefix: p }, NetworkKey::V6 { addr: b, prefix: q }) => {
                if a < b || (a == b && p < q) {
                    core::cmp::Ordering::Less
                } else if a == b && p == q {
                    core::cmp::Ordering::Equal
                } else {
                    core::cmp::Ordering::Greater
                }
            },
        }
    }
}

/// Distinct keys have distinct ranks.
pub proof fn lemma_rank_injective(a: NetworkKey, b: NetworkKey)
    ensures
        a.rank() == b.rank() <==> a == b,
{
}

/// Returns the network address of an IPv4 address: all bits past the first
/// `cidr` cleared; a zero prefix gives the all-zero address.
pub fn ipv4_to_network_address(ip: u32, cidr: u8) -> (r: u32)
    requires
        cidr <= V4_BITS,
    ensures
        r == v4_network(ip, cidr),
{
    if cidr == 0 {
        return 0;
    }
    let host_bits: u32 = (V4_BITS - cidr) as u32;
    (ip >> host_bits) << host_bits
}

/// Returns the network address of an IPv6 address: all bits past the first
/// `cidr` cleared; a zero prefix gives the all-zero address.
pub fn ipv6_to_network_address(ip: u128, cidr: u8) -> (r: u128)
    requires
        cidr <= V6_BITS,
    ensures
        r == v6_network(ip, cidr),
{
    if cidr == 0 {
        return 0;
    }
    let host_bits: u128 = (V6_BITS - cidr) as u128;
    (ip >> host_bits) << host_bits
}

/// Returns the network address of `ip`, with prefix `cidrv4` for an IPv4
/// address and `cidrv6` for an IPv6 address.
pub fn ip_to_network_address(ip: IpAddress, cidrv4: u8, cidrv6: u8) -> (r: IpAddress)
    requires
        cidrv4 <= V4_BITS,
        cidrv6 <= V6_BITS,
    ensures
        r == (match ip {
            IpAddress::V4(a) => IpAddress::V4(v4_network(a, cidrv4)),
            IpAddress::V6(a) => IpAddress::V6(v6_network(a, cidrv6)),
        }),
{
    match ip {
        IpAddress::V4(a) => IpAddress::V4(ipv4_to_network_address(a, cidrv4)),
        IpAddress::V6(a) => IpAddress::V6(ipv6_to_network_address(a, cidrv6)),
    }
}

proof fn lemma_v4_network_idempotent(addr: u32, prefix: u8)
    requires
        prefix <= 32,
    ensures
        v4_network(v4_network(addr, prefix), prefix) == v4_network(addr, prefix),
{
    if prefix > 0 {
        let s = (32 - prefix) as u32;
        assert((((addr >> s) << s) >> s) << s == (addr >> s) << s) by (bit_vector)
            requires
                s < 32,
        ;
    }
}

proof fn lemma_v6_network_idempotent(addr: u128, prefix: u8)
    requires
        prefix <= 128,
    ensures
        v6_network(v6_network(addr, prefix), prefix) == v6_network(addr, prefix),
{
    if prefix > 0 {
        let s = (128 - prefix) as u128;
        assert((((addr >> s) << s) >> s) << s == (addr >> s) << s) by (bit_vector)
            requires
                s < 128,
        ;
    }
}

/// Normalizing a normalized key returns it unchanged, for every prefix length
/// from zero to the address width.
pub proof fn lemma_normalize_idempotent(k: NetworkKey)
    requires
        k.wf(),
    ensures
        k.normal().is_normal(),
        k.normal().wf(),
{
    match k {
        NetworkKey::V4 { addr, prefix } => lemma_v4_network_idempotent(addr, prefix),
        NetworkKey::V6 { addr, prefix } => lemma_v6_network_idempotent(addr, prefix),
    }
}

/// Clearing host bits keeps the order of addresses (not strictly).
pub proof fn lemma_v4_network_monotonic(a: u32, b: u32, prefix: u8)
    requires
        prefix <= 32,
        a <= b,
    ensures
        v4_network(a, prefix) <= v4_network(b, prefix),
{
    if prefix > 0 {
        let s = (32 - prefix) as u32;
        assert((a >> s) << s <= (b >> s) << s) by (bit_vector)
            requires
                s < 32,
                a <= b,
        ;
    }
}

/// Clearing host bits keeps the order of addresses (not strictly).
pub proof fn lemma_v6_network_monotonic(a: u128, b: u128, prefix: u8)
    requires
        prefix <= 128,
        a <= b,
    ensures
        v6_network(a, prefix) <= v6_network(b, prefix),
{
    if prefix > 0 {
        let s = (128 - prefix) as u128;
        assert((a >> s) << s <= (b >> s) << s) by (bit_vector)
            requires
                s < 128,
                a <= b,
        ;
    }
}

} // verus!
