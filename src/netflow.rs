//! Flow records as nfdump exports them, and their split into packets.
use crate::network::{ip_to_network_address, v4_network, v6_network, IpAddress};
use vstd::prelude::*;
use vstd::std_specs::iter::IteratorSpec;
use vstd::string::StringSliceAdditionalSpecFns;

verus! {

broadcast use {vstd::string::axiom_spec_iter, vstd::string::next_postcondition};

/// An IP protocol number.
#[derive(Clone, Copy, Debug, PartialEq, Eq, Structural, PartialOrd, Ord, Hash)]
pub struct Proto(pub u8);

/// Protocol numbers.
impl Proto {
    /// Internet Control Message
    pub const ICMP: u8 = 1;
    /// Gateway-to-Gateway
    pub const GGP: u8 = 3;
    /// Transmission Control
    pub const TCP: u8 = 6;
    /// Interior Gateway
    pub const IGP: u8 = 9;
    /// User Datagram
    pub const UDP: u8 = 17;
    /// Encap Security Payload
    pub const ESP: u8 = 50;
    /// ICMP for IPv6
    pub const ICMP6: u8 = 58;
    /// Protocol Independent Multicast
    pub const PIM: u8 = 103;
    /// Generic Routing Encapsulation
    pub const GRE: u8 = 47;
    /// Open Shortest Path First Internet Gateway Protocol
    pub const OSPFIGP: u8 = 89;
    /// Stream Control Transmission Protocol
    pub const SCTP: u8 = 132;
}

/// The forwarding status of a flow.
#[derive(Clone, Copy, Debug, PartialEq, Eq, Structural)]
pub struct ForwardStatus(pub u8);

/// TCP flags as a bit set.
#[derive(Clone, Copy, Debug, PartialEq, Eq, Structural)]
pub struct TcpFlags(pub u8);

/// The flag bits in the order nfdump prints them: CWR, ECE, URG, ACK, PSH,
/// RST, SYN, FIN.
pub open spec fn flag_bit(i: int) -> u8 {
    if i == 0 {
        0x80
    } else if i == 1 {
        0x40
    } else if i == 2 {
        0x20
    } else if i == 3 {
        0x10
    } else if i == 4 {
        0x08
    } else if i == 5 {
        0x04
    } else if i == 6 {
        0x02
    } else {
        0x01
    }
}

/// The flags that the first `n` characters of `s` set: every character but
/// `.` sets the flag of its position.
pub open spec fn flags_value(s: Seq<char>, n: int) -> int
    decreases n,
{
    if n <= 0 {
        0
    } else {
        flags_value(s, n - 1) + if s[n - 1] == '.' {
            0
        } else {
            flag_bit(n - 1) as int
        }
    }
}

/// The text was not eight bytes long.
#[derive(Clone, Copy, Debug, PartialEq, Eq, Structural)]
pub struct InvalidTcpFlags;

/// Flag bits.
impl TcpFlags {
    pub const FIN: u8 = 0x01;
    pub const SYN: u8 = 0x02;
    pub const RST: u8 = 0x04;
    pub const PSH: u8 = 0x08;
    pub const ACK: u8 = 0x10;
    pub const URG: u8 = 0x20;
    pub const ECE: u8 = 0x40;
    pub const CWR: u8 = 0x80;

    /// Parses flags as nfdump prints them, such as `...A...F`: eight bytes,
    /// one character per flag from CWR down to FIN, `.` for a flag not set.
    pub fn from_str(s: &str) -> (r: Result<TcpFlags, InvalidTcpFlags>)
        ensures
            r is Err <==> s.len() != 8,
            r matches Ok(f) ==> f.0 as int == flags_value(
                s@,
                if s@.len() < 8 {
                    s@.len() as int
                } else {
                    8
                },
            ),
    {
        if s.len() != 8 {
            return Err(InvalidTcpFlags);
        }
        let mut chars = s.chars();
        let mut value: u8 = 0;
        let mut i: usize = 0;
        while i < 8
            invariant
                i <= 8,
                i <= s@.len() ==> chars.remaining() == s@.subrange(i as int, s@.len() as int),
                i > s@.len() ==> chars.remaining().len() == 0,
                i <= s@.len() || i == 8,
                value as int == flags_value(s@, if (i as int) < s@.len() { i as int } else { s@.len() as int }),
                i < 8 ==> value as int <= 256 - 2 * flag_bit(i as int),
                s.len() == 8,
                chars.obeys_prophetic_iter_laws(),
            decreases 8 - i,
        {
            match chars.next() {
                Some(c) => {
                    let bit: u8 = if i == 0 {
                        0x80
                    } else if i == 1 {
                        0x40
                    } else if i == 2 {
                        0x20
                    } else if i == 3 {
                        0x10
                    } else if i == 4 {
                        0x08
                    } else if i == 5 {
                        0x04
                    } else if i == 6 {
                        0x02
                    } else {
                        0x01
                    };
                    assert(bit == flag_bit(i as int));
                    if c != '.' {
                        value = value + bit;
                    }
                    i += 1;
                },
                None => {
                    i = 8;
                },
            }
        }
        Ok(TcpFlags(value))
    }
}


/// The direction of a flow.
#[derive(Clone, Copy, Debug, PartialEq, Eq, Structural)]
pub enum Direction {
    Incomming,
    Outgoing,
}

impl Direction {
    /// The direction with nfdump's number: 0 incoming, 1 outgoing.
    pub fn from_code(code: u8) -> (r: Option<Direction>)
        ensures
            code == 0 ==> r == Some(Direction::Incomming),
            code == 1 ==> r == Some(Direction::Outgoing),
            code > 1 ==> r is None,
    {
        if code == 0 {
            Some(Direction::Incomming)
        } else if code == 1 {
            Some(Direction::Outgoing)
        } else {
            None
        }
    }
}

/// Packet count of one aggregate.
#[derive(Clone, Copy, Debug, PartialEq, Eq, Structural)]
pub struct IpAggregate {
    pub total_packets: u64,
}

impl IpAggregate {
    /// Adds the packets of `rhs`.
    pub fn add_assign(&mut self, rhs: IpAggregate)
        requires
            old(self).total_packets + rhs.total_packets <= u64::MAX,
        ensures
            final(self).total_packets == old(self).total_packets + rhs.total_packets,
    {
        self.total_packets = self.total_packets + rhs.total_packets;
    }
}

/// The fields of an nfdump flow record that the logic reads. Times are
/// nanoseconds since the Unix epoch.
#[derive(Clone, Copy, Debug, PartialEq, Eq, Structural)]
pub struct NfdumpOutput {
    pub proto: Proto,
    pub src4_addr: Option<u32>,
    pub dst4_addr: Option<u32>,
    pub src6_addr: Option<u128>,
    pub dst6_addr: Option<u128>,
    pub dst_port: Option<u16>,
    pub in_packets: u64,
    pub in_bytes: u64,
    pub t_first: i64,
    pub t_last: i64,
}

/// Returns `true` if the flow targets a name server: DNS port, over TCP or
/// UDP.
pub fn is_for_target_cctld(flow: &NfdumpOutput) -> (r: bool)
    ensures
        r == (flow.dst_port == Some(53u16) && (flow.proto.0 == Proto::TCP || flow.proto.0
            == Proto::UDP)),
{
    match flow.dst_port {
        Some(p) => {
            if p != 53 {
                return false;
            }
        },
        None => {
            return false;
        },
    }
    flow.proto.0 == Proto::TCP || flow.proto.0 == Proto::UDP
}

/// One packet of a flow. The time is in nanoseconds since the Unix epoch.
#[derive(Clone, Copy, Debug, PartialEq, Eq, Structural)]
pub struct Packet {
    pub src_addr: IpAddress,
    pub dst_addr: IpAddress,
    pub proto: Proto,
    pub bytes: u64,
    pub time: i128,
}

/// The name of the time step that chrono computes between packets of a
/// flow from `first` to `last` (nanoseconds since the epoch) split into
/// `parts` steps, in nanoseconds.
pub uninterp spec fn flow_step(first: i64, last: i64, parts: i32) -> int;

/// Relies on chrono: `(last - first) / parts` for two `NaiveDateTime`s
/// taken from nanosecond timestamps, returned as the whole seconds and the
/// sub-second nanoseconds of the `TimeDelta`; it depends on the arguments
/// alone.
#[verifier::external_body]
fn time_step(first: i64, last: i64, parts: i32) -> (r: (i64, i32))
    requires
        parts >= 1,
    ensures
        r.0 as int * 1_000_000_000 + r.1 as int == flow_step(first, last, parts),
{
    let first = chrono::DateTime::from_timestamp_nanos(first).naive_utc();
    let last = chrono::DateTime::from_timestamp_nanos(last).naive_utc();
    let step = (last - first) / parts;
    (step.num_seconds(), step.subsec_nanos())
}

/// The source address of a flow: IPv4 if present, else IPv6.
pub open spec fn flow_src(flow: NfdumpOutput) -> Option<IpAddress> {
    match flow.src4_addr {
        Some(a) => Some(IpAddress::V4(a)),
        None => match flow.src6_addr {
            Some(a) => Some(IpAddress::V6(a)),
            None => None,
        },
    }
}

/// The destination address of a flow: IPv4 if present, else IPv6.
pub open spec fn flow_dst(flow: NfdumpOutput) -> Option<IpAddress> {
    match flow.dst4_addr {
        Some(a) => Some(IpAddress::V4(a)),
        None => match flow.dst6_addr {
            Some(a) => Some(IpAddress::V6(a)),
            None => None,
        },
    }
}

fn pick_addr(v4: Option<u32>, v6: Option<u128>) -> (r: Option<IpAddress>)
    ensures
        r == (match v4 {
            Some(a) => Some(IpAddress::V4(a)),
            None => match v6 {
                Some(a) => Some(IpAddress::V6(a)),
                None => None,
            },
        }),
{
    match v4 {
        Some(a) => Some(IpAddress::V4(a)),
        None => match v6 {
            Some(a) => Some(IpAddress::V6(a)),
            None => None,
        },
    }
}

/// Splits one flow into its packets. The first packet is at the start of the
/// flow and the last at its end, the others equally spaced between; all have
/// the same size but the first, which also carries the remainder of the bytes.
pub fn split_flow(flow: NfdumpOutput) -> (r: Vec<Packet>)
    requires
        flow_src(flow) is Some,
        flow_dst(flow) is Some,
        1 <= flow.in_packets <= 0x7fff_ffff,
    ensures
        r@.len() == flow.in_packets,
        forall|k: int|
            0 <= k < r@.len() ==> {
                &&& (#[trigger] r@[k]).src_addr == flow_src(flow)->0
                &&& r@[k].dst_addr == flow_dst(flow)->0
                &&& r@[k].proto == flow.proto
            },
        flow.in_packets == 1 ==> r@[0].bytes == flow.in_bytes && r@[0].time == flow.t_first,
        flow.in_packets > 1 ==> {
            &&& r@[0].bytes == flow.in_bytes / flow.in_packets + flow.in_bytes % flow.in_packets
            &&& r@[0].time == flow.t_first
            &&& forall|k: int|
                1 <= k < r@.len() ==> (#[trigger] r@[k]).bytes == flow.in_bytes / flow.in_packets
                    && r@[k].time == flow.t_first + k * flow_step(
                    flow.t_first,
                    flow.t_last,
                    (flow.in_packets - 1) as i32,
                )
        },
{
    let src_addr = pick_addr(flow.src4_addr, flow.src6_addr).unwrap();
    let dst_addr = pick_addr(flow.dst4_addr, flow.dst6_addr).unwrap();
    let proto = flow.proto;
    let num_packets = flow.in_packets;
    let total_bytes = flow.in_bytes;
    if num_packets == 1 {
        let mut res: Vec<Packet> = Vec::new();
        res.push(Packet { src_addr, dst_addr, proto, bytes: total_bytes, time: flow.t_first as i128 });
        return res;
    }
    let bytes_per_packet = total_bytes / num_packets;
    let extra_bytes = total_bytes % num_packets;
    let parts: i32 = (num_packets - 1) as i32;
    let (step_secs, step_nanos) = time_step(flow.t_first, flow.t_last, parts);
    let step: i128 = step_secs as i128 * 1_000_000_000 + step_nanos as i128;
    proof {
        vstd::arithmetic::div_mod::lemma_fundamental_div_mod(total_bytes as int, num_packets as int);
        assert(bytes_per_packet + extra_bytes <= total_bytes) by (nonlinear_arith)
            requires
                total_bytes == num_packets * bytes_per_packet + extra_bytes,
                num_packets >= 2,
                bytes_per_packet >= 0,
        ;
    }
    let mut res: Vec<Packet> = Vec::new();
    res.push(
        Packet {
            src_addr,
            dst_addr,
            proto,
            bytes: bytes_per_packet + extra_bytes,
            time: flow.t_first as i128,
        },
    );
    let mut time: i128 = flow.t_first as i128;
    let mut k: u64 = 1;
    while k < num_packets
        invariant
            1 <= k <= num_packets,
            num_packets <= 0x7fff_ffff,
            res@.len() == k,
            time == flow.t_first + (k - 1) * step,
            -0x8000_0000_0000_0000 * 1_000_000_000 - 0x8000_0000 <= step <= 0x7fff_ffff_ffff_ffff
                * 1_000_000_000 + 0x7fff_ffff,
            res@[0].bytes == bytes_per_packet + extra_bytes,
            res@[0].time == flow.t_first,
            forall|j: int|
                0 <= j < k ==> {
                    &&& (#[trigger] res@[j]).src_addr == src_addr
                    &&& res@[j].dst_addr == dst_addr
                    &&& res@[j].proto == proto
                },
            forall|j: int|
                1 <= j < k ==> (#[trigger] res@[j]).bytes == bytes_per_packet && res@[j].time
                    == flow.t_first + j * step,
        decreases num_packets - k,
    {
        proof {
            assert(-0x8000_0000_0000_0000 * 1_000_000_000 * 0x8000_0000 <= k * step <= 0x8000_0000_0000_0000
                * 1_000_000_000 * 0x8000_0000) by (nonlinear_arith)
                requires
                    1 <= k <= 0x7fff_ffff,
                    -0x8000_0000_0000_0000 * 1_000_000_000 - 0x8000_0000 <= step <= 0x7fff_ffff_ffff_ffff
                        * 1_000_000_000 + 0x7fff_ffff,
            ;
            assert(flow.t_first + k * step == flow.t_first + (k - 1) * step + step) by (nonlinear_arith);
        }
        time = time + step;
        res.push(Packet { src_addr, dst_addr, proto, bytes: bytes_per_packet, time });
        k += 1;
    }
    res
}


/// Prefix length that IPv4 sources are aggregated to.
pub const AGG_PREFIX_V4: u8 = 24;

/// Prefix length that IPv6 sources are aggregated to.
pub const AGG_PREFIX_V6: u8 = 48;

/// Where a packet is counted: interval start, protocol, source network and
/// destination address.
#[derive(Clone, Copy, Debug, PartialEq, Eq, Structural)]
pub enum AggregateKey {
    V4 { time: u32, proto: Proto, src: u32, dst: u32 },
    V6 { time: u32, proto: Proto, src: u128, dst: u128 },
}

/// The whole seconds of a time in nanoseconds (rounded down), as a `u32`
/// (modulo 2^32).
pub open spec fn packet_seconds(t: i128) -> int {
    (t as int / 1_000_000_000) % 0x1_0000_0000
}

/// Source and destination are of the same address family.
pub open spec fn same_family(p: Packet) -> bool {
    match (p.src_addr, p.dst_addr) {
        (IpAddress::V4(_), IpAddress::V4(_)) => true,
        (IpAddress::V6(_), IpAddress::V6(_)) => true,
        _ => false,
    }
}

/// Whether source and destination of the packet are of the same family.
pub fn same_family_addresses(p: &Packet) -> (r: bool)
    ensures
        r == same_family(*p),
{
    match (p.src_addr, p.dst_addr) {
        (IpAddress::V4(_), IpAddress::V4(_)) => true,
        (IpAddress::V6(_), IpAddress::V6(_)) => true,
        _ => false,
    }
}

/// The whole seconds of a time in nanoseconds (rounded down), as a `u32`
/// (modulo 2^32).
pub fn seconds_of(t: i128) -> (r: u32)
    ensures
        r as int == packet_seconds(t),
{
    let d: i128 = 1_000_000_000;
    let w: i128 = 0x1_0000_0000;
    let secs: i128 = if t >= 0 {
        t / d
    } else {
        let u: i128 = -(t + 1);
        proof {
            let ui = u as int;
            let ti = t as int;
            vstd::arithmetic::div_mod::lemma_fundamental_div_mod(ui, 1_000_000_000);
            vstd::arithmetic::div_mod::lemma_fundamental_div_mod(ti, 1_000_000_000);
            assert(-(ui / 1_000_000_000) - 1 == ti / 1_000_000_000) by (nonlinear_arith)
                requires
                    ui == -ti - 1,
                    ui >= 0,
                    ui == 1_000_000_000 * (ui / 1_000_000_000) + ui % 1_000_000_000,
                    0 <= ui % 1_000_000_000 < 1_000_000_000,
                    ti == 1_000_000_000 * (ti / 1_000_000_000) + ti % 1_000_000_000,
                    0 <= ti % 1_000_000_000 < 1_000_000_000,
            ;
        }
        -(u / d) - 1
    };
    if secs >= 0 {
        (secs % w) as u32
    } else {
        let m: i128 = (-secs) % w;
        proof {
            let si = secs as int;
            let mi = m as int;
            let wi = 0x1_0000_0000int;
            vstd::arithmetic::div_mod::lemma_fundamental_div_mod(-si, wi);
            vstd::arithmetic::div_mod::lemma_fundamental_div_mod(si, wi);
            assert(mi == 0 ==> si % wi == 0) by (nonlinear_arith)
                requires
                    si < 0,
                    wi == 0x1_0000_0000,
                    -si == wi * ((-si) / wi) + mi,
                    si == wi * (si / wi) + si % wi,
                    0 <= si % wi < wi,
                    0 <= mi < wi,
            ;
            assert(mi != 0 ==> si % wi == wi - mi) by (nonlinear_arith)
                requires
                    si < 0,
                    wi == 0x1_0000_0000,
                    -si == wi * ((-si) / wi) + mi,
                    si == wi * (si / wi) + si % wi,
                    0 <= si % wi < wi,
                    0 <= mi < wi,
            ;
        }
        if m == 0 {
            0
        } else {
            (w - m) as u32
        }
    }
}

/// Where a packet is counted, or `None` when its interval lies outside
/// `[time_start, time_end)`. The interval start is the packet's second rounded
/// down to a multiple of `agg_interval`; the source is cut to its /24 (IPv4)
/// or /48 (IPv6) network.
pub fn aggregate_key(packet: &Packet, time_start: u32, time_end: u32, agg_interval: u32) -> (r: Option<
    AggregateKey,
>)
    requires
        agg_interval > 0,
        same_family(*packet),
    ensures
        ({
            let secs = packet_seconds(packet.time);
            let ts = secs - secs % agg_interval as int;
            if ts < time_start || ts >= time_end {
                r is None
            } else {
                r == Some(
                    match (packet.src_addr, packet.dst_addr) {
                        (IpAddress::V4(s), IpAddress::V4(d)) => AggregateKey::V4 {
                            time: ts as u32,
                            proto: packet.proto,
                            src: v4_network(s, 24),
                            dst: d,
                        },
                        (IpAddress::V6(s), IpAddress::V6(d)) => AggregateKey::V6 {
                            time: ts as u32,
                            proto: packet.proto,
                            src: v6_network(s, 48),
                            dst: d,
                        },
                        _ => AggregateKey::V4 { time: 0, proto: packet.proto, src: 0, dst: 0 },
                    },
                )
            }
        }),
{
    let seconds = seconds_of(packet.time);
    proof {
        vstd::arithmetic::div_mod::lemma_mod_decreases(seconds as nat, agg_interval as nat);
    }
    let timestamp = seconds - (seconds % agg_interval);
    if timestamp < time_start || timestamp >= time_end {
        return None;
    }
    let src = ip_to_network_address(packet.src_addr, AGG_PREFIX_V4, AGG_PREFIX_V6);
    match (src, packet.dst_addr) {
        (IpAddress::V4(s), IpAddress::V4(d)) => Some(
            AggregateKey::V4 { time: timestamp, proto: packet.proto, src: s, dst: d },
        ),
        (IpAddress::V6(s), IpAddress::V6(d)) => Some(
            AggregateKey::V6 { time: timestamp, proto: packet.proto, src: s, dst: d },
        ),
        _ => Some(AggregateKey::V4 { time: 0, proto: packet.proto, src: 0, dst: 0 }),
    }
}

} // verus!
