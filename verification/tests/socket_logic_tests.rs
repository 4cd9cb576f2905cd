use starry_modules::socket::bind_check_endpoint;
use starry_modules::errors::{AxError, LinuxError};
use starry_modules::options::{GeneralOptions, GetSocketOption, OptionValue, SetSocketOption};
use starry_modules::router::IpAddress;
use starry_modules::socket::Shutdown;
use starry_modules::socket::RecvFlags;
use starry_modules::state::State;
use starry_modules::tcp::{
    connect_busy_error, connect_outcome, poll_connect, poll_events, recv_step, send_check, shutdown_plan, stream_events,
    tcp_get_option, tcp_set_option, IoEvents, RecvStep, ShutdownPlan, TcpOptionAction, TcpState, TcpStatus,
    TCP_RX_BUF_LEN,
};
use starry_modules::udp::{
    datagram_accepted, recv_len, recv_source, udp_recv_finish, udp_recv_round, RecvSource, UdpRecvAction, send_ready, send_target, udp_get_option, udp_poll, udp_set_option, IpEndpoint,
};

fn status(state: TcpState) -> TcpStatus {
    TcpStatus { state, may_recv: true, can_recv: false, may_send: true, can_send: true }
}

#[test]
fn connect_progress() {
    assert_eq!(poll_connect(TcpState::SynSent), (None, false));
    assert_eq!(poll_connect(TcpState::Established), (Some(State::Connected), true));
    assert_eq!(poll_connect(TcpState::Closed), (Some(State::Closed), true));
    assert_eq!(connect_busy_error(State::Connecting), AxError::InProgress);
    assert_eq!(connect_busy_error(State::Listening), AxError::AlreadyConnected);
    assert_eq!(connect_outcome(false, State::Connecting), Err(AxError::WouldBlock));
    assert_eq!(connect_outcome(true, State::Connected), Ok(()));
    assert_eq!(connect_outcome(true, State::Closed), Err(AxError::ConnectionRefused));
}

#[test]
fn readiness_by_state() {
    assert_eq!(
        stream_events(false, true, false, true, true),
        IoEvents { readable: false, writable: true, read_hup: false }
    );
    assert_eq!(stream_events(false, false, false, true, false).readable, true);
    assert_eq!(stream_events(true, false, true, true, false).readable, false);
    let (e, next) = poll_events(State::Connecting, status(TcpState::Established), false, false);
    assert_eq!((e.readable, e.writable, next), (false, true, Some(State::Connected)));
    let (e, next) = poll_events(State::Listening, status(TcpState::Listen), true, true);
    assert_eq!((e, next), (IoEvents { readable: true, writable: false, read_hup: true }, None));
    let (e, _) = poll_events(State::Busy, status(TcpState::Established), false, true);
    assert_eq!(e, IoEvents { readable: false, writable: false, read_hup: false });
    let (e, _) = poll_events(State::Connected, status(TcpState::Established), false, false);
    assert_eq!(e, IoEvents { readable: false, writable: true, read_hup: false });
}

#[test]
fn send_and_receive_decisions() {
    assert_eq!(send_check(false, true), Err(AxError::NotConnected));
    assert_eq!(send_check(true, false), Err(AxError::WouldBlock));
    assert_eq!(send_check(true, true), Ok(()));
    assert_eq!(recv_step(true, true, true, 10, false), RecvStep::Fail(AxError::NotConnected));
    assert_eq!(recv_step(false, false, true, 10, false), RecvStep::Fail(AxError::NotConnected));
    assert_eq!(recv_step(false, true, false, 0, false), RecvStep::EndOfStream);
    assert_eq!(recv_step(false, true, true, 0, false), RecvStep::Fail(AxError::WouldBlock));
    assert_eq!(recv_step(false, true, true, 3, true), RecvStep::Read { peek: true });
}

#[test]
fn tcp_options() {
    let mut g = GeneralOptions::new();
    assert_eq!(tcp_get_option(&g, GetSocketOption::NoDelay, true, false), Some(OptionValue::Bool(false)));
    assert_eq!(tcp_get_option(&g, GetSocketOption::KeepAlive, true, true), Some(OptionValue::Bool(true)));
    assert_eq!(tcp_get_option(&g, GetSocketOption::MaxSegment, true, false), Some(OptionValue::Size(1460)));
    assert_eq!(tcp_get_option(&g, GetSocketOption::ReceiveBuffer, true, false), Some(OptionValue::Size(TCP_RX_BUF_LEN)));
    assert_eq!(tcp_get_option(&g, GetSocketOption::Ttl, true, false), None);
    assert_eq!(tcp_set_option(&mut g, SetSocketOption::NoDelay(true)), TcpOptionAction::SetNagle(false));
    assert_eq!(tcp_set_option(&mut g, SetSocketOption::KeepAlive(true)), TcpOptionAction::SetKeepAlive(Some(75)));
    assert_eq!(tcp_set_option(&mut g, SetSocketOption::KeepAlive(false)), TcpOptionAction::SetKeepAlive(None));
    assert_eq!(tcp_set_option(&mut g, SetSocketOption::NonBlocking(true)), TcpOptionAction::Done);
    assert!(g.nonblocking());
    assert_eq!(tcp_set_option(&mut g, SetSocketOption::Ttl(3)), TcpOptionAction::NotHeld);
}

#[test]
fn shutdown_plans() {
    assert_eq!(
        shutdown_plan(State::Connected, Shutdown::Write),
        ShutdownPlan { close_rx: false, close_tx: true, unlisten: false, new_state: State::Closed }
    );
    assert_eq!(
        shutdown_plan(State::Listening, Shutdown::Both),
        ShutdownPlan { close_rx: true, close_tx: false, unlisten: true, new_state: State::Closed }
    );
    assert_eq!(
        shutdown_plan(State::Idle, Shutdown::Read),
        ShutdownPlan { close_rx: true, close_tx: false, unlisten: false, new_state: State::Idle }
    );
}

fn ep(a: u32, port: u16) -> IpEndpoint {
    IpEndpoint { addr: IpAddress::Ipv4(a), port }
}

#[test]
fn udp_targets() {
    assert_eq!(send_target(None, None, true), Err(LinuxError::ENOTCONN));
    assert_eq!(send_target(Some(ep(0x0a00_0001, 0)), None, true), Err(LinuxError::EINVAL));
    assert_eq!(send_target(Some(ep(0, 53)), None, true), Err(LinuxError::EINVAL));
    assert_eq!(send_target(Some(ep(0x0a00_0001, 53)), None, false), Err(LinuxError::ENOTCONN));
    assert_eq!(send_target(None, Some(ep(0x0a00_0001, 53)), true), Ok(ep(0x0a00_0001, 53)));
    assert_eq!(send_target(Some(ep(1, 1)), Some(ep(2, 2)), true), Ok(ep(1, 1)));
    assert_eq!(send_ready(false, true), Some(Err(LinuxError::ENOTCONN)));
    assert_eq!(send_ready(true, false), None);
    assert_eq!(send_ready(true, true), Some(Ok(())));
}

#[test]
fn udp_receive_filters_and_lengths() {
    assert!(datagram_accepted(&ep(0, 0), &ep(5, 9)));
    assert!(datagram_accepted(&ep(5, 0), &ep(5, 9)));
    assert!(!datagram_accepted(&ep(5, 8), &ep(5, 9)));
    assert!(!datagram_accepted(&ep(6, 0), &ep(5, 9)));
    assert!(!datagram_accepted(&IpEndpoint { addr: IpAddress::Ipv6(5), port: 0 }, &ep(5, 9)));
    assert_eq!(recv_len(100, 10, false), 10);
    assert_eq!(recv_len(100, 10, true), 100);
    assert_eq!(recv_len(5, 10, false), 5);
    assert_eq!(udp_poll(false, true, true), (false, false));
    assert_eq!(udp_poll(true, true, false), (true, false));
}

#[test]
fn udp_options() {
    let mut g = GeneralOptions::new();
    assert_eq!(udp_get_option(&g, GetSocketOption::Ttl, None), Some(OptionValue::Ttl(64)));
    assert_eq!(udp_get_option(&g, GetSocketOption::Ttl, Some(3)), Some(OptionValue::Ttl(3)));
    assert_eq!(udp_get_option(&g, GetSocketOption::SendBuffer, None), Some(OptionValue::Size(65536)));
    assert_eq!(udp_get_option(&g, GetSocketOption::NoDelay, None), None);
    assert_eq!(udp_set_option(&mut g, SetSocketOption::Ttl(9)), Some(Some(9)));
    assert_eq!(udp_set_option(&mut g, SetSocketOption::ReuseAddress(true)), Some(None));
    assert!(g.reuse_address());
    assert_eq!(udp_set_option(&mut g, SetSocketOption::NoDelay(true)), None);
}

use starry_modules::options::UnixCredentials;
use starry_modules::router::masked_devices;
use starry_modules::socket::bind_check as ip_bind_check;
use starry_modules::unix::{
    bind_check, connect_check, dgram_events, dgram_get_option, dgram_set_option, dgram_target, stream_events as unix_stream_events,
    stream_get_option, stream_recv_finish, stream_send_check, stream_send_finish, DgramTarget, STREAM_BUF_SIZE,
};

#[test]
fn unix_stream_decisions() {
    assert_eq!(bind_check(true, false), Err(LinuxError::EADDRINUSE));
    assert_eq!(bind_check(false, true), Err(LinuxError::EINVAL));
    assert_eq!(bind_check(false, false), Ok(()));
    assert_eq!(connect_check(true, true), Err(LinuxError::EISCONN));
    assert_eq!(connect_check(false, false), Err(LinuxError::ENOTCONN));
    assert_eq!(connect_check(false, true), Ok(()));
    assert_eq!(stream_send_check(true, true, true), Err(LinuxError::EINVAL));
    assert_eq!(stream_send_check(false, false, true), Err(LinuxError::ENOTCONN));
    assert_eq!(stream_send_check(false, true, false), Err(LinuxError::EPIPE));
    assert_eq!(stream_send_check(false, true, true), Ok(()));
    assert_eq!(stream_send_finish(7, true), Ok(7));
    assert_eq!(stream_send_finish(7, false), Err(LinuxError::EAGAIN));
    assert_eq!(stream_recv_finish(3, false, true), Err(LinuxError::EAGAIN));
    assert_eq!(stream_recv_finish(3, true, true), Ok(3));
    assert_eq!(stream_recv_finish(0, false, false), Ok(0));
    assert_eq!(unix_stream_events(Some((1, 0)), None), IoEvents { readable: true, writable: false, read_hup: false });
    assert_eq!(unix_stream_events(None, Some(2)), IoEvents { readable: true, writable: false, read_hup: false });
    assert_eq!(unix_stream_events(None, None), IoEvents { readable: false, writable: false, read_hup: false });
    assert_eq!(stream_get_option(GetSocketOption::SendBuffer), Some(OptionValue::Size(STREAM_BUF_SIZE)));
    assert_eq!(stream_get_option(GetSocketOption::ReceiveBuffer), None);
}

#[test]
fn unix_dgram_decisions() {
    assert_eq!(dgram_events(None), IoEvents { readable: false, writable: true, read_hup: false });
    assert_eq!(dgram_events(Some(1)).readable, true);
    assert_eq!(dgram_target(Some(true), false), Ok(DgramTarget::Destination));
    assert_eq!(dgram_target(Some(false), true), Err(LinuxError::ENOTCONN));
    assert_eq!(dgram_target(None, true), Ok(DgramTarget::Peer));
    assert_eq!(dgram_target(None, false), Err(LinuxError::ENOTCONN));
    let mut g = GeneralOptions::new();
    assert_eq!(
        dgram_get_option(&g, GetSocketOption::PeerCredentials, 77),
        Some(OptionValue::Credentials(UnixCredentials { pid: 77, uid: 0, gid: 0 }))
    );
    assert_eq!(dgram_get_option(&g, GetSocketOption::PassCredentials, 77), Some(OptionValue::Unit));
    assert_eq!(dgram_get_option(&g, GetSocketOption::Ttl, 77), None);
    assert!(dgram_set_option(&mut g, SetSocketOption::PassCredentials(true)));
    assert!(!dgram_set_option(&mut g, SetSocketOption::Ttl(1)));
}

#[test]
fn binding_and_device_masks() {
    let bound = vec![None, Some(IpAddress::Ipv4(0x0a00_0001)), Some(IpAddress::Ipv4(0x7f00_0001))];
    assert_eq!(ip_bind_check(&bound, IpAddress::Ipv4(0x7f00_0001)), Err(LinuxError::EADDRINUSE));
    assert_eq!(ip_bind_check(&bound, IpAddress::Ipv4(0x0a00_0002)), Ok(()));
    assert_eq!(ip_bind_check(&vec![], IpAddress::Ipv6(1)), Ok(()));
    assert_eq!(masked_devices(0b101, 3), vec![0, 2]);
    assert_eq!(masked_devices(u32::MAX, 2), vec![0, 1]);
    assert_eq!(masked_devices(0, 4), Vec::<usize>::new());
}

use starry_modules::listen_table::{ListenTable, PortAllocator, PORT_START};
use starry_modules::smol_tcp::{
    connect_failure_error, connect_round, connect_settle, ConnectFailure,
    bound_endpoint, io_gate, local_addr_allowed, peer_addr_allowed, recv_round, retry_round, send_round, RecvRound,
    SocketState, STATE_BUSY, STATE_CLOSED, STATE_CONNECTED, STATE_CONNECTING, STATE_LISTENING,
};

#[test]
fn smol_socket_state_changes() {
    let mut s = SocketState::new();
    assert_eq!(s.begin(STATE_CONNECTED), Err(STATE_CLOSED));
    assert_eq!(s.begin(STATE_CLOSED), Ok(()));
    assert_eq!(s.state, STATE_BUSY);
    s.end(STATE_CLOSED, STATE_CONNECTING, true);
    assert_eq!(s.state, STATE_CONNECTING);
    assert_eq!(s.begin(STATE_CONNECTING), Ok(()));
    s.end(STATE_CONNECTING, STATE_CONNECTED, false);
    assert_eq!(s.state, STATE_CONNECTING);
}

#[test]
fn smol_socket_gates() {
    assert_eq!(io_gate(STATE_CONNECTING), Err(LinuxError::EAGAIN));
    assert_eq!(io_gate(STATE_LISTENING), Err(LinuxError::ENOTCONN));
    assert_eq!(io_gate(STATE_CONNECTED), Ok(()));
    assert_eq!(local_addr_allowed(STATE_CLOSED), Ok(()));
    assert_eq!(local_addr_allowed(STATE_BUSY), Err(LinuxError::ENOTCONN));
    assert_eq!(peer_addr_allowed(STATE_CLOSED), Err(LinuxError::ENOTCONN));
    assert_eq!(peer_addr_allowed(STATE_LISTENING), Ok(()));
}

#[test]
fn smol_socket_rounds() {
    assert_eq!(recv_round(5, false, false, true), RecvRound::Read);
    assert_eq!(recv_round(0, false, true, false), RecvRound::Fail(LinuxError::ECONNREFUSED));
    assert_eq!(recv_round(0, true, false, true), RecvRound::EndOfStream);
    assert_eq!(recv_round(0, true, true, true), RecvRound::Fail(LinuxError::ETIMEDOUT));
    assert_eq!(recv_round(0, true, true, false), RecvRound::Fail(LinuxError::EAGAIN));
    assert_eq!(send_round(true, false, true), Err(LinuxError::ECONNRESET));
    assert_eq!(send_round(true, true, true), Ok(()));
    assert_eq!(send_round(true, true, false), Err(LinuxError::EAGAIN));
    let wait: Result<u8, LinuxError> = Err(LinuxError::EAGAIN);
    assert!(retry_round(false, &wait));
    assert!(!retry_round(true, &wait));
    assert!(!retry_round(false, &Ok::<u8, LinuxError>(1)));
}

#[test]
fn smol_socket_endpoints() {
    let mut t = ListenTable::new();
    let mut ports = PortAllocator::new();
    assert_eq!(bound_endpoint(false, 80, &mut ports, &t), Ok((true, 80)));
    t.listen(PORT_START).unwrap();
    assert_eq!(bound_endpoint(true, 0, &mut ports, &t), Ok((false, PORT_START + 1)));
}

#[test]
fn binding_by_address_and_port() {
    let bound = vec![(Some(IpAddress::Ipv4(1)), 80), (None, 443)];
    assert_eq!(bind_check_endpoint(&bound, IpAddress::Ipv4(1), 80), Err(AxError::AddrInUse));
    assert_eq!(bind_check_endpoint(&bound, IpAddress::Ipv4(1), 81), Ok(()));
    assert_eq!(bind_check_endpoint(&bound, IpAddress::Ipv4(1), 0), Ok(()));
    assert_eq!(bind_check_endpoint(&bound, IpAddress::Ipv4(2), 443), Ok(()));
}

#[test]
fn udp_receive_needs_a_bound_socket_and_a_source() {
    assert_eq!(recv_source(false, true, None), Err(LinuxError::ENOTCONN));
    assert_eq!(recv_source(true, true, None), Ok(RecvSource::Any));
    assert_eq!(recv_source(true, false, None), Err(LinuxError::ENOTCONN));
    assert_eq!(recv_source(true, false, Some(ep(5, 9))), Ok(RecvSource::Expecting(ep(5, 9))));
}

#[test]
fn udp_receive_round_peeks_with_peek() {
    assert_eq!(udp_recv_round(false, true, RecvFlags::empty()), UdpRecvAction::Fail(LinuxError::ENOTCONN));
    assert_eq!(udp_recv_round(true, false, RecvFlags::empty()), UdpRecvAction::Wait);
    assert_eq!(udp_recv_round(true, true, RecvFlags::empty()), UdpRecvAction::Read { peek: false });
    assert_eq!(udp_recv_round(true, true, RecvFlags::PEEK()), UdpRecvAction::Read { peek: true });
}

#[test]
fn udp_receive_finish_reports_length_and_sender() {
    assert_eq!(udp_recv_finish(RecvSource::Any, None, 10, RecvFlags::empty()), Err(LinuxError::EAGAIN));
    assert_eq!(udp_recv_finish(RecvSource::Any, Some((20, ep(5, 9))), 10, RecvFlags::empty()), Ok((10, 10, Some(ep(5, 9)))));
    assert_eq!(udp_recv_finish(RecvSource::Any, Some((20, ep(5, 9))), 10, RecvFlags::TRUNCATE()), Ok((20, 10, Some(ep(5, 9)))));
    assert_eq!(udp_recv_finish(RecvSource::Expecting(ep(5, 9)), Some((4, ep(5, 9))), 10, RecvFlags::empty()), Ok((4, 4, None)));
    assert_eq!(udp_recv_finish(RecvSource::Expecting(ep(6, 9)), Some((4, ep(5, 9))), 10, RecvFlags::empty()), Err(LinuxError::EAGAIN));
}

#[test]
fn smol_connect_steps() {
    assert_eq!(connect_failure_error(ConnectFailure::InvalidState), LinuxError::EISCONN);
    assert_eq!(connect_failure_error(ConnectFailure::Unaddressable), LinuxError::ECONNREFUSED);
    assert_eq!(connect_settle(Err(STATE_CONNECTED), false), Some(Err(LinuxError::EISCONN)));
    assert_eq!(connect_settle(Ok(Err(LinuxError::EADDRINUSE)), false), Some(Err(LinuxError::EADDRINUSE)));
    assert_eq!(connect_settle(Ok(Ok(())), true), Some(Err(LinuxError::EAGAIN)));
    assert_eq!(connect_settle(Ok(Ok(())), false), None);
    assert_eq!(connect_round(false, STATE_CONNECTING), Err(LinuxError::EAGAIN));
    assert_eq!(connect_round(true, STATE_CONNECTED), Ok(()));
    assert_eq!(connect_round(true, STATE_CONNECTING), Err(LinuxError::ECONNREFUSED));
}
