use starry_modules::addr::{mask_to_prefix, IpAddr, Ipv4Addr, Ipv6Addr, MacAddr, MaskError, SocketAddr};

fn v4_of(a: IpAddr) -> u32 {
    match a {
        IpAddr::Ipv4(Ipv4Addr(x)) => x,
        IpAddr::Ipv6(_) => panic!("not an IPv4 address"),
    }
}

#[test]
fn ipv4_new_puts_first_octet_lowest() {
    let a = Ipv4Addr::new(10, 0, 2, 15);
    assert_eq!(a.0, 10 | (2 << 16) | (15 << 24));
    assert_eq!(a.to_string(), "10.0.2.15");
}

#[test]
fn ipv4_from_bytes_takes_at_most_four() {
    assert_eq!(Ipv4Addr::from_bytes(&[1, 2]).0, 0x0201);
    assert_eq!(Ipv4Addr::from_bytes(&[1, 2, 3, 4, 5]).0, 0x0403_0201);
    assert_eq!(Ipv4Addr::from_bytes(&[]).0, 0);
}

#[test]
fn ipv4_text_of_extremes() {
    assert_eq!(Ipv4Addr(0).to_string(), "0.0.0.0");
    assert_eq!(Ipv4Addr(u32::MAX).to_string(), "255.255.255.255");
}

#[test]
fn ip_parse_dotted() {
    assert_eq!(v4_of(IpAddr::parse("10.0.2.15").unwrap()), Ipv4Addr::new(10, 0, 2, 15).0);
    let parsed: IpAddr = "192.168.1.1".parse().unwrap();
    assert_eq!(v4_of(parsed), Ipv4Addr::new(192, 168, 1, 1).0);
}

#[test]
fn ip_parse_ignores_pieces_after_the_fourth() {
    assert_eq!(v4_of(IpAddr::parse("1.2.3.4.5").unwrap()), Ipv4Addr::new(1, 2, 3, 4).0);
}

#[test]
fn ip_parse_accepts_plus_sign() {
    assert_eq!(v4_of(IpAddr::parse("+1.2.3.4").unwrap()), Ipv4Addr::new(1, 2, 3, 4).0);
}

#[test]
fn ip_parse_errors() {
    assert!(IpAddr::parse("1.2.3").is_err());
    assert!(IpAddr::parse("256.1.1.1").is_err());
    assert!(IpAddr::parse("1..2.3").is_err());
    assert!(IpAddr::parse("").is_err());
    assert!(IpAddr::parse("a.b.c.d").is_err());
    assert!(IpAddr::parse("-1.2.3.4").is_err());
}

#[test]
fn ip_as_bytes_is_memory_order() {
    assert_eq!(IpAddr::Ipv4(Ipv4Addr::new(1, 2, 3, 4)).as_bytes(), vec![1, 2, 3, 4]);
    let v6 = Ipv6Addr { addr: [0x0403_0201, 0, 0, 0x1000_0000], zone: 0 };
    let b = IpAddr::Ipv6(v6).as_bytes();
    assert_eq!(b.len(), 16);
    assert_eq!(&b[0..4], &[1, 2, 3, 4]);
    assert_eq!(b[15], 0x10);
}

#[test]
fn mac_text() {
    let m = MacAddr::from_bytes(&[0x52, 0x54, 0x00, 0x12, 0x34, 0x56]);
    assert_eq!(m.0, [0x52, 0x54, 0x00, 0x12, 0x34, 0x56]);
    assert_eq!(m.to_string(), "52-54-00-12-34-56");
    assert_eq!(MacAddr([0xff; 6]).to_string(), "ff-ff-ff-ff-ff-ff");
}

#[test]
fn ipv6_text_collapses_first_zero_run() {
    // 2001:db8::1
    let a = Ipv6Addr { addr: [0xb80d_0120, 0, 0, 0x0100_0000], zone: 0 };
    assert_eq!(a.to_string(), "2001:db8::1");
    assert_eq!(Ipv6Addr { addr: [0; 4], zone: 0 }.to_string(), "::");
    assert_eq!(IpAddr::Ipv6(a).to_string(), "2001:db8::1");
}

#[test]
fn ipv6_text_writes_later_zeros() {
    // words 1,0,0,1,0,0,0,1
    let a = Ipv6Addr { addr: [0x0000_0100, 0x0100_0000, 0, 0x0100_0000], zone: 0 };
    assert_eq!(a.to_string(), "1::1:0:0:0:1");
}

#[test]
fn ipv6_text_without_zero_group() {
    let a = Ipv6Addr { addr: [0x0200_0100, 0x0400_0300, 0x0600_0500, 0x0800_0700], zone: 0 };
    assert_eq!(a.to_string(), "1:2:3:4:5:6:7:8");
}

#[test]
fn socket_addr_text_and_parse() {
    let s = SocketAddr::new(IpAddr::Ipv4(Ipv4Addr::new(10, 0, 0, 1)), 80);
    assert_eq!(s.port, 80);
    assert_eq!(s.to_string(), "10.0.0.1:80");
    let p = SocketAddr::parse("10.0.0.1:8080").unwrap();
    assert_eq!(p.port, 8080);
    assert_eq!(v4_of(p.addr), Ipv4Addr::new(10, 0, 0, 1).0);
    let q: SocketAddr = "1.2.3.4:5:6".parse().unwrap();
    assert_eq!(q.port, 5);
}

#[test]
fn socket_addr_parse_errors() {
    assert!(SocketAddr::parse("10.0.0.1").is_err());
    assert!(SocketAddr::parse("10.0.0.1:70000").is_err());
    assert!(SocketAddr::parse("10.0.0:80").is_err());
    assert!(SocketAddr::parse("10.0.0.1:").is_err());
}

#[test]
fn mask_to_prefix_ipv4() {
    assert_eq!(mask_to_prefix(IpAddr::Ipv4(Ipv4Addr::new(255, 255, 255, 0))), Ok(24));
    assert_eq!(mask_to_prefix(IpAddr::Ipv4(Ipv4Addr::new(255, 255, 255, 255))), Ok(32));
    assert_eq!(mask_to_prefix(IpAddr::Ipv4(Ipv4Addr::new(0, 0, 0, 0))), Ok(0));
    assert_eq!(mask_to_prefix(IpAddr::Ipv4(Ipv4Addr::new(255, 128, 0, 0))), Ok(9));
}

#[test]
fn mask_to_prefix_rejects_holes() {
    assert_eq!(mask_to_prefix(IpAddr::Ipv4(Ipv4Addr::new(255, 0, 255, 0))), Err(MaskError));
    assert_eq!(mask_to_prefix(IpAddr::Ipv4(Ipv4Addr::new(0, 0, 0, 1))), Err(MaskError));
}

#[test]
fn mask_to_prefix_ipv6() {
    let m = Ipv6Addr { addr: [u32::MAX, u32::MAX, 0, 0], zone: 0 };
    assert_eq!(mask_to_prefix(IpAddr::Ipv6(m)), Ok(64));
    let all = Ipv6Addr { addr: [u32::MAX; 4], zone: 0 };
    assert_eq!(mask_to_prefix(IpAddr::Ipv6(all)), Ok(128));
    let bad = Ipv6Addr { addr: [u32::MAX, 0, 0x0000_0080, 0], zone: 0 };
    assert_eq!(mask_to_prefix(IpAddr::Ipv6(bad)), Err(MaskError));
    // ffff:ff80:: is a prefix of 25
    let p25 = Ipv6Addr { addr: [0x80ff_ffff, 0, 0, 0], zone: 0 };
    assert_eq!(mask_to_prefix(IpAddr::Ipv6(p25)), Ok(25));
}

#[test]
fn text_parses_back() {
    for x in [0u32, 1, 0x0f02_000a, 0xffff_ffff, 0x0100_0000, 0x00ff_00ff] {
        let s = Ipv4Addr(x).to_string();
        assert_eq!(v4_of(IpAddr::parse(&s).unwrap()), x);
    }
    let sa = SocketAddr::new(IpAddr::Ipv4(Ipv4Addr(0x0f02_000a)), 65535);
    let back = SocketAddr::parse(&sa.to_string()).unwrap();
    assert_eq!((v4_of(back.addr), back.port), (0x0f02_000a, 65535));
}
