use starry_modules::errors::{AxError, LinuxError};
use starry_modules::listen_table::{ListenTable, PortAllocator, LISTEN_QUEUE_SIZE, PORT_END, PORT_START};
use starry_modules::options::{GeneralOptions, GetSocketOption, OptionValue, SetSocketOption, UnixCredentials};
use starry_modules::router::{IpAddress, IpCidr, RouteDecision, RouteTable, Rule};
use starry_modules::socket::{RecvFlags, Shutdown, SocketAddrEx, UnixSocketAddr, VsockAddr};
use starry_modules::state::{State, StateLock};

#[test]
fn listen_twice_is_addr_in_use() {
    let mut t = ListenTable::new();
    assert!(t.can_listen(80));
    assert_eq!(t.listen(80), Ok(()));
    assert!(!t.can_listen(80));
    assert_eq!(t.listen(80), Err(AxError::AddrInUse));
    assert_eq!(t.listen(0), Err(AxError::InvalidInput));
}

#[test]
fn accept_takes_first_connected_socket() {
    let mut t = ListenTable::new();
    t.listen(8080).unwrap();
    assert!(t.accepts_syn(8080));
    assert!(!t.accepts_syn(8081));
    t.push_syn(8080, 11);
    t.push_syn(8080, 12);
    t.push_syn(8080, 13);
    assert_eq!(t.can_accept(8080, &vec![false, false, false]), Ok(false));
    assert_eq!(t.accept(8080, &vec![false, false, false]), Err(AxError::WouldBlock));
    assert_eq!(t.can_accept(8080, &vec![false, true, true]), Ok(true));
    assert_eq!(t.accept(8080, &vec![false, true, true]), Ok(12));
    assert_eq!(t.accept(8080, &vec![true, false]), Ok(11));
    assert_eq!(t.unlisten(8080), vec![13]);
    assert!(t.can_listen(8080));
}

#[test]
fn accept_on_closed_port_is_invalid() {
    let mut t = ListenTable::new();
    assert_eq!(t.accept(9, &vec![]), Err(AxError::InvalidInput));
    assert_eq!(t.can_accept(9, &vec![]), Err(AxError::InvalidInput));
    assert_eq!(t.unlisten(9), Vec::<usize>::new());
}

#[test]
fn syn_queue_is_bounded() {
    let mut t = ListenTable::new();
    t.listen(1).unwrap();
    for h in 0..LISTEN_QUEUE_SIZE {
        assert!(t.accepts_syn(1));
        t.push_syn(1, h);
    }
    assert!(!t.accepts_syn(1));
}

#[test]
fn ports_wrap_round() {
    let mut a = PortAllocator::new();
    assert_eq!(a.next(), PORT_START);
    assert_eq!(a.next(), PORT_START + 1);
    let mut b = PortAllocator::new();
    for _ in 0..(PORT_END - PORT_START) {
        b.next();
    }
    assert_eq!(b.next(), PORT_END);
    assert_eq!(b.next(), PORT_START);
}

#[test]
fn next_free_port_skips_listening_ports() {
    let mut t = ListenTable::new();
    t.listen(PORT_START).unwrap();
    t.listen(PORT_START + 1).unwrap();
    let mut a = PortAllocator::new();
    assert_eq!(a.next_free(&t), Ok(PORT_START + 2));
    assert_eq!(a.next(), PORT_START + 3);
}

fn v4(a: u8, b: u8, c: u8, d: u8) -> IpAddress {
    IpAddress::Ipv4(u32::from_be_bytes([a, b, c, d]))
}

fn table() -> RouteTable {
    let mut t = RouteTable::new();
    t.add_rule(Rule::new(IpCidr { address: v4(0, 0, 0, 0), prefix_len: 0 }, Some(v4(10, 0, 2, 2)), 1, v4(10, 0, 2, 15)));
    t.add_rule(Rule::new(IpCidr { address: v4(127, 0, 0, 0), prefix_len: 8 }, None, 0, v4(127, 0, 0, 1)));
    t.add_rule(Rule::new(IpCidr { address: v4(10, 0, 2, 0), prefix_len: 24 }, None, 1, v4(10, 0, 2, 15)));
    t
}

#[test]
fn route_by_longest_prefix() {
    let t = table();
    assert_eq!(
        t.route(v4(10, 0, 2, 9)),
        RouteDecision::Device { dev: 1, next_hop: v4(10, 0, 2, 9), src: v4(10, 0, 2, 15) }
    );
    assert_eq!(
        t.route(v4(127, 0, 0, 1)),
        RouteDecision::Device { dev: 0, next_hop: v4(127, 0, 0, 1), src: v4(127, 0, 0, 1) }
    );
    assert_eq!(
        t.route(v4(8, 8, 8, 8)),
        RouteDecision::Device { dev: 1, next_hop: v4(10, 0, 2, 2), src: v4(10, 0, 2, 15) }
    );
    assert_eq!(t.route(v4(255, 255, 255, 255)), RouteDecision::AllDevices);
    assert_eq!(t.route(IpAddress::Ipv6(1)), RouteDecision::NoRoute);
    assert_eq!(t.route(IpAddress::Ipv6(0xff02u128 << 112)), RouteDecision::AllDevices);
}

#[test]
fn route_lookup_and_masks() {
    let t = table();
    assert_eq!(t.lookup(&v4(127, 1, 2, 3)).unwrap().dev, 0);
    assert!(t.lookup(&IpAddress::Ipv6(5)).is_none());
    assert_eq!(t.device_mask_for(None), u32::MAX);
    assert_eq!(t.device_mask_for(Some(v4(127, 0, 0, 1))), 1);
    assert_eq!(t.device_mask_for(Some(v4(10, 0, 2, 15))), 2);
    assert_eq!(t.device_mask_for(Some(IpAddress::Ipv6(7))), 0);
    assert_eq!(t.get_source_address(&v4(1, 2, 3, 4)), v4(10, 0, 2, 15));
}

#[test]
fn empty_route_table_has_no_route() {
    let t = RouteTable::new();
    assert_eq!(t.route(v4(1, 1, 1, 1)), RouteDecision::NoRoute);
}

#[test]
fn options_read_back() {
    let mut o = GeneralOptions::new();
    assert!(!o.nonblocking());
    assert_eq!(o.get_option(GetSocketOption::Error), Ok(OptionValue::Int(0)));
    assert_eq!(o.set_option(SetSocketOption::NonBlocking(true)), Ok(()));
    assert!(o.nonblocking());
    assert_eq!(o.get_option(GetSocketOption::NonBlocking), Ok(OptionValue::Bool(true)));
    assert_eq!(o.set_option(SetSocketOption::ReuseAddress(true)), Ok(()));
    assert!(o.reuse_address());
    assert_eq!(o.send_timeout(), None);
    assert_eq!(o.set_option(SetSocketOption::SendTimeout(1_500_000_000)), Ok(()));
    assert_eq!(o.send_timeout(), Some(1_500_000_000));
    assert_eq!(o.get_option(GetSocketOption::SendTimeout), Ok(OptionValue::Nanos(1_500_000_000)));
    assert_eq!(o.set_option(SetSocketOption::ReceiveTimeout(0)), Ok(()));
    assert_eq!(o.recv_timeout(), None);
}

#[test]
fn options_not_held_are_enoprotoopt() {
    let mut o = GeneralOptions::new();
    assert_eq!(o.set_option(SetSocketOption::NoDelay(true)), Err(LinuxError::ENOPROTOOPT));
    assert_eq!(o.get_option(GetSocketOption::NoDelay), Err(LinuxError::ENOPROTOOPT));
    assert_eq!(o.set_option(SetSocketOption::SendBuffer(4096)), Ok(()));
    assert_eq!(o.get_option(GetSocketOption::SendBuffer), Err(LinuxError::ENOPROTOOPT));
    o.set_externally_driven(true);
    assert!(o.externally_driven());
}

#[test]
fn credentials_of_a_process() {
    assert_eq!(UnixCredentials::new(42), UnixCredentials { pid: 42, uid: 0, gid: 0 });
}

#[test]
fn state_lock_round_trip() {
    let mut l = StateLock::new(State::Idle);
    let g = l.lock(State::Idle).ok().unwrap();
    assert_eq!(l.get(), State::Busy);
    assert_eq!(l.lock(State::Idle).err(), Some(State::Busy));
    let r: Result<u8, ()> = g.transit(&mut l, State::Connected, || Ok(1));
    assert_eq!(r, Ok(1));
    assert_eq!(l.get(), State::Connected);
    let g2 = l.lock(State::Connected).ok().unwrap();
    let r2: Result<u8, i32> = g2.transit(&mut l, State::Closed, || Err(-1));
    assert_eq!(r2, Err(-1));
    assert_eq!(l.get(), State::Connected);
    l.set(State::Listening);
    assert_eq!(l.get(), State::Listening);
}

#[test]
fn state_codes() {
    for s in [State::Idle, State::Busy, State::Connecting, State::Connected, State::Listening, State::Closed] {
        assert_eq!(State::try_from_code(s.code()), Ok(s));
    }
    assert_eq!(State::Connected.code(), 3);
    assert_eq!(State::try_from_code(6), Err(()));
}

#[test]
fn shutdown_directions() {
    assert!(Shutdown::Read.has_read() && !Shutdown::Read.has_write());
    assert!(!Shutdown::Write.has_read() && Shutdown::Write.has_write());
    assert!(Shutdown::Both.has_read() && Shutdown::Both.has_write());
}

#[test]
fn recv_flags() {
    let both = RecvFlags { bits: RecvFlags::PEEK().bits | RecvFlags::TRUNCATE().bits };
    assert!(both.contains(RecvFlags::PEEK()));
    assert!(!RecvFlags::empty().contains(RecvFlags::TRUNCATE()));
    assert!(RecvFlags::PEEK().contains(RecvFlags::empty()));
}

#[test]
fn socket_address_families() {
    let ip: core::net::SocketAddr = "10.0.0.1:80".parse().unwrap();
    assert_eq!(SocketAddrEx::Ip(ip).into_ip().unwrap(), ip);
    let v = VsockAddr { cid: 3, port: 1024 };
    assert_eq!(SocketAddrEx::Vsock(v).into_vsock(), Ok(v));
    assert_eq!(v.to_device_addr(), Ok((3, 1024)));
    assert_eq!(SocketAddrEx::Vsock(v).into_ip(), Err(AxError::Other(LinuxError::EAFNOSUPPORT)));
    match SocketAddrEx::Unix(UnixSocketAddr::Path("/tmp/s".to_string())).into_unix() {
        Ok(UnixSocketAddr::Path(p)) => assert_eq!(p, "/tmp/s"),
        _ => panic!("expected a path address"),
    }
    assert!(SocketAddrEx::Ip(ip).into_unix().is_err());
    assert!(SocketAddrEx::Unix(UnixSocketAddr::Unnamed).into_vsock().is_err());
}

#[test]
fn only_opening_packets_make_sockets() {
    let mut t = ListenTable::new();
    t.listen(22).unwrap();
    assert!(t.wants_socket(22, true, false));
    assert!(!t.wants_socket(22, true, true));
    assert!(!t.wants_socket(22, false, false));
    assert!(!t.wants_socket(23, true, false));
}

#[test]
fn routes_at_start() {
    let only_lo = starry_modules::router::initial_routes(None);
    assert_eq!(
        only_lo.route(v4(127, 0, 0, 5)),
        RouteDecision::Device { dev: 0, next_hop: v4(127, 0, 0, 5), src: v4(127, 0, 0, 1) }
    );
    assert_eq!(only_lo.route(v4(8, 8, 8, 8)), RouteDecision::NoRoute);
    let with_eth = starry_modules::router::initial_routes(Some((u32::from_be_bytes([10, 0, 2, 15]), u32::from_be_bytes([10, 0, 2, 2]))));
    assert_eq!(
        with_eth.route(v4(8, 8, 8, 8)),
        RouteDecision::Device { dev: 1, next_hop: v4(10, 0, 2, 2), src: v4(10, 0, 2, 15) }
    );
    assert_eq!(with_eth.lookup(&v4(127, 0, 0, 1)).unwrap().dev, 0);
}
