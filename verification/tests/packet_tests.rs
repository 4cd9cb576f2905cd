use starry_modules::packet::{incoming_tcp_head, ip_packet_addrs, is_snoopable, TcpSegmentHead};
use starry_modules::router::{initial_routes, IpAddress, RouteDecision};

fn v4(a: u8, b: u8, c: u8, d: u8) -> IpAddress {
    IpAddress::Ipv4(u32::from_be_bytes([a, b, c, d]))
}

/// An IPv4 packet from `src` to `dst` of protocol `proto` carrying `payload`.
fn ipv4_packet(src: [u8; 4], dst: [u8; 4], proto: u8, payload: &[u8]) -> Vec<u8> {
    let total = (20 + payload.len()) as u16;
    let mut p = vec![0x45, 0, (total >> 8) as u8, total as u8, 0, 0, 0, 0, 64, proto, 0, 0];
    p.extend_from_slice(&src);
    p.extend_from_slice(&dst);
    p.extend_from_slice(payload);
    p
}

/// A TCP header from port `sp` to port `dp` with flag byte `flags`.
fn tcp_header(sp: u16, dp: u16, flags: u8) -> Vec<u8> {
    let mut t = vec![0u8; 20];
    t[0..2].copy_from_slice(&sp.to_be_bytes());
    t[2..4].copy_from_slice(&dp.to_be_bytes());
    t[12] = 0x50;
    t[13] = flags;
    t
}

#[test]
fn ipv4_packet_addresses_are_read() {
    let p = ipv4_packet([10, 0, 2, 15], [8, 8, 8, 8], 17, &[1, 2, 3]);
    assert_eq!(ip_packet_addrs(&p), Some((v4(10, 0, 2, 15), v4(8, 8, 8, 8))));
}

#[test]
fn ipv6_packet_addresses_are_read() {
    let mut p = vec![0x60, 0, 0, 0, 0, 2, 17, 64];
    let src: u128 = 0xfe80_0000_0000_0000_0000_0000_0000_0001;
    let dst: u128 = 0xff02_0000_0000_0000_0000_0000_0000_0001;
    p.extend_from_slice(&src.to_be_bytes());
    p.extend_from_slice(&dst.to_be_bytes());
    p.extend_from_slice(&[9, 9]);
    assert_eq!(ip_packet_addrs(&p), Some((IpAddress::Ipv6(src), IpAddress::Ipv6(dst))));
    // A payload length past the end of the buffer does not check.
    p[5] = 3;
    assert_eq!(ip_packet_addrs(&p), None);
}

#[test]
fn bad_packets_give_no_addresses() {
    assert_eq!(ip_packet_addrs(&[]), None);
    let mut p = ipv4_packet([1, 1, 1, 1], [2, 2, 2, 2], 17, &[]);
    p[0] = 0x55;
    assert_eq!(ip_packet_addrs(&p), None);
    let short = ipv4_packet([1, 1, 1, 1], [2, 2, 2, 2], 17, &[]);
    assert_eq!(ip_packet_addrs(&short[..19]), None);
    let mut long_total = ipv4_packet([1, 1, 1, 1], [2, 2, 2, 2], 17, &[]);
    long_total[3] = 30;
    assert_eq!(ip_packet_addrs(&long_total), None);
}

#[test]
fn dispatch_routes_by_destination() {
    let t = initial_routes(Some((u32::from_be_bytes([10, 0, 2, 15]), u32::from_be_bytes([10, 0, 2, 2]))));
    let p = ipv4_packet([10, 0, 2, 15], [8, 8, 8, 8], 17, &[]);
    assert_eq!(
        t.dispatch_decision(&p),
        Some((
            v4(10, 0, 2, 15),
            v4(8, 8, 8, 8),
            RouteDecision::Device { dev: 1, next_hop: v4(10, 0, 2, 2), src: v4(10, 0, 2, 15) }
        ))
    );
    let b = ipv4_packet([10, 0, 2, 15], [255, 255, 255, 255], 17, &[]);
    assert_eq!(t.dispatch_decision(&b), Some((v4(10, 0, 2, 15), v4(255, 255, 255, 255), RouteDecision::AllDevices)));
    assert_eq!(t.dispatch_decision(&[0x45]), None);
    let only_lo = initial_routes(None);
    assert_eq!(only_lo.dispatch_decision(&p), Some((v4(10, 0, 2, 15), v4(8, 8, 8, 8), RouteDecision::NoRoute)));
}

#[test]
fn incoming_syn_is_seen() {
    let p = ipv4_packet([10, 0, 2, 2], [10, 0, 2, 15], 6, &tcp_header(0x1234, 80, 0x02));
    assert!(is_snoopable(&p));
    assert_eq!(
        incoming_tcp_head(&p),
        Some(TcpSegmentHead {
            src_addr: v4(10, 0, 2, 2),
            src_port: 0x1234,
            dst_addr: v4(10, 0, 2, 15),
            dst_port: 80,
            syn: true,
            ack: false,
        })
    );
    let synack = ipv4_packet([10, 0, 2, 2], [10, 0, 2, 15], 6, &tcp_header(1, 2, 0x12));
    let h = incoming_tcp_head(&synack).unwrap();
    assert!(h.syn && h.ack);
    let udp = ipv4_packet([10, 0, 2, 2], [10, 0, 2, 15], 17, &[0; 8]);
    assert!(is_snoopable(&udp));
    assert_eq!(incoming_tcp_head(&udp), None);
}

#[test]
fn truncated_tcp_is_not_snoopable() {
    assert!(!is_snoopable(&[]));
    assert!(!is_snoopable(&[0x75, 0, 0]));
    let p = ipv4_packet([10, 0, 2, 2], [10, 0, 2, 15], 6, &[0; 10]);
    assert!(!is_snoopable(&p));
}
