use evaluation::netflow::{
    aggregate_key, is_for_target_cctld, seconds_of, split_flow, AggregateKey, Direction,
    ForwardStatus, IpAggregate, InvalidTcpFlags, NfdumpOutput, Packet, Proto, TcpFlags,
};
use evaluation::network::IpAddress;

fn flow(packets: u64, bytes: u64, t_first: i64, t_last: i64) -> NfdumpOutput {
    NfdumpOutput {
        proto: Proto(Proto::UDP),
        src4_addr: Some(0x0a00_0001),
        dst4_addr: Some(0xc633_6401),
        src6_addr: None,
        dst6_addr: None,
        dst_port: Some(53),
        in_packets: packets,
        in_bytes: bytes,
        t_first,
        t_last,
    }
}

#[test]
fn tcp_flags_parse() {
    assert_eq!(TcpFlags::from_str("........"), Ok(TcpFlags(0)));
    assert_eq!(TcpFlags::from_str("...A...F"), Ok(TcpFlags(TcpFlags::ACK | TcpFlags::FIN)));
    assert_eq!(TcpFlags::from_str("CEUAPRSF"), Ok(TcpFlags(0xff)));
    assert_eq!(TcpFlags::from_str("......S."), Ok(TcpFlags(TcpFlags::SYN)));
    assert_eq!(TcpFlags::from_str("......."), Err(InvalidTcpFlags));
    assert_eq!(TcpFlags::from_str(""), Err(InvalidTcpFlags));
    // Eight bytes but seven characters: the missing flag stays unset.
    assert_eq!(TcpFlags::from_str("\u{e9}A....."), Ok(TcpFlags(0x80 | 0x40)));
}

#[test]
fn target_filter() {
    assert!(is_for_target_cctld(&flow(1, 1, 0, 0)));
    let mut f = flow(1, 1, 0, 0);
    f.dst_port = Some(443);
    assert!(!is_for_target_cctld(&f));
    f.dst_port = None;
    assert!(!is_for_target_cctld(&f));
    let mut f = flow(1, 1, 0, 0);
    f.proto = Proto(Proto::ICMP);
    assert!(!is_for_target_cctld(&f));
    f.proto = Proto(Proto::TCP);
    assert!(is_for_target_cctld(&f));
}

#[test]
fn single_packet_flow() {
    let p = split_flow(flow(1, 100, 5, 9));
    assert_eq!(
        p,
        vec![Packet {
            src_addr: IpAddress::V4(0x0a00_0001),
            dst_addr: IpAddress::V4(0xc633_6401),
            proto: Proto(Proto::UDP),
            bytes: 100,
            time: 5,
        }]
    );
}

#[test]
fn flow_is_split_evenly() {
    let p = split_flow(flow(3, 301, 1_000_000_000, 3_000_000_000));
    assert_eq!(p.len(), 3);
    assert_eq!(p[0].bytes, 101);
    assert_eq!(p[1].bytes, 100);
    assert_eq!(p[2].bytes, 100);
    assert_eq!(p[0].time, 1_000_000_000);
    assert_eq!(p[1].time, 2_000_000_000);
    assert_eq!(p[2].time, 3_000_000_000);
    let p = split_flow(flow(4, 8, 0, 1_000_000_000));
    assert_eq!(p[1].time, 333_333_333);
    assert_eq!(p[3].time, 999_999_999);
}

#[test]
fn ipv6_flow_uses_ipv6_addresses() {
    let mut f = flow(2, 10, 0, 10);
    f.src4_addr = None;
    f.dst4_addr = None;
    f.src6_addr = Some(1);
    f.dst6_addr = Some(2);
    let p = split_flow(f);
    assert_eq!(p[1].src_addr, IpAddress::V6(1));
    assert_eq!(p[1].dst_addr, IpAddress::V6(2));
}

#[test]
fn seconds_round_down() {
    assert_eq!(seconds_of(1_999_999_999), 1);
    assert_eq!(seconds_of(0), 0);
    assert_eq!(seconds_of(-1), u32::MAX);
    assert_eq!(seconds_of(-1_000_000_000), u32::MAX);
    assert_eq!(seconds_of(-1_000_000_001), u32::MAX - 1);
    assert_eq!(seconds_of(4_294_967_296_000_000_000), 0);
}

#[test]
fn packets_are_bucketed() {
    let packet = Packet {
        src_addr: IpAddress::V4(0x0a00_0142),
        dst_addr: IpAddress::V4(0xc633_6401),
        proto: Proto(Proto::UDP),
        bytes: 60,
        time: 3_725_000_000_000,
    };
    assert_eq!(
        aggregate_key(&packet, 0, u32::MAX, 3600),
        Some(AggregateKey::V4 { time: 3600, proto: Proto(Proto::UDP), src: 0x0a00_0100, dst: 0xc633_6401 })
    );
    assert_eq!(aggregate_key(&packet, 7200, u32::MAX, 3600), None);
    assert_eq!(aggregate_key(&packet, 0, 3600, 3600), None);
    let v6_packet = Packet { src_addr: IpAddress::V6(u128::MAX), dst_addr: IpAddress::V6(5), ..packet };
    assert_eq!(
        aggregate_key(&v6_packet, 0, u32::MAX, 60),
        Some(AggregateKey::V6 { time: 3720, proto: Proto(Proto::UDP), src: u128::MAX << 80, dst: 5 })
    );
}

#[test]
fn small_types() {
    assert_eq!(Direction::from_code(0), Some(Direction::Incomming));
    assert_eq!(Direction::from_code(1), Some(Direction::Outgoing));
    assert_eq!(Direction::from_code(2), None);
    let mut a = IpAggregate { total_packets: 3 };
    a.add_assign(IpAggregate { total_packets: 4 });
    assert_eq!(a.total_packets, 7);
    assert_eq!(ForwardStatus(64).0, 64);
}

#[test]
fn address_families_must_match() {
    let p = Packet {
        src_addr: IpAddress::V4(1),
        dst_addr: IpAddress::V6(1),
        proto: Proto(Proto::UDP),
        bytes: 1,
        time: 0,
    };
    assert!(!evaluation::netflow::same_family_addresses(&p));
    let q = Packet { dst_addr: IpAddress::V4(2), ..p };
    assert!(evaluation::netflow::same_family_addresses(&q));
}
