use vstd::prelude::*;

use crate::errors::AxError;
use crate::options::{GeneralOptions, GetSocketOption, OptionValue, SetSocketOption, get_spec, set_spec, set_supported};
use crate::socket::Shutdown;
use crate::state::State;

verus! {

/// Size of the receive buffer of a TCP socket.
pub const TCP_RX_BUF_LEN: usize = 65536;

/// Size of the send buffer of a TCP socket.
pub const TCP_TX_BUF_LEN: usize = 65536;

/// The segment size that a TCP socket reports.
pub const TCP_MAX_SEGMENT: usize = 1460;

/// Seconds between keep-alive probes, when they are on.
pub const TCP_KEEP_ALIVE_SECS: u64 = 75;

/// The states of a TCP connection in the protocol engine.
#[derive(Clone, Copy, Debug, PartialEq, Eq, Structural)]
pub enum TcpState {
    Closed,
    Listen,
    SynSent,
    SynReceived,
    Established,
    FinWait1,
    FinWait2,
    CloseWait,
    Closing,
    LastAck,
    TimeWait,
}

/// The readiness of a socket.
#[derive(Clone, Copy, Debug, PartialEq, Eq, Structural)]
pub struct IoEvents {
    /// Data can be read, or reading would not block.
    pub readable: bool,
    /// Data can be written, or writing would not block.
    pub writable: bool,
    /// The reading side was shut down.
    pub read_hup: bool,
}

/// What the connection of a socket in progress says: the state the socket
/// moves to (none while the handshake goes on) and whether it is writable.
pub open spec fn connect_poll_spec(tcp: TcpState) -> (Option<State>, bool) {
    match tcp {
        TcpState::SynSent => (None, false),
        TcpState::Established => (Some(State::Connected), true),
        _ => (Some(State::Closed), true),
    }
}

/// Polls a connection in progress.
pub fn poll_connect(tcp: TcpState) -> (r: (Option<State>, bool))
    ensures
        r == connect_poll_spec(tcp),
{
    match tcp {
        TcpState::SynSent => (None, false),
        TcpState::Established => (Some(State::Connected), true),
        _ => (Some(State::Closed), true),
    }
}

/// The error of `connect` on a socket that is not idle.
pub fn connect_busy_error(current: State) -> (r: AxError)
    ensures
        r == (if current == State::Connecting {
            AxError::InProgress
        } else {
            AxError::AlreadyConnected
        }),
{
    if current == State::Connecting {
        AxError::InProgress
    } else {
        AxError::AlreadyConnected
    }
}

/// How a `connect` that waits for the handshake ends, after a poll that
/// found the socket `writable` or not, in state `state`.
pub fn connect_outcome(writable: bool, state: State) -> (r: Result<(), AxError>)
    ensures
        !writable ==> r == Err::<(), AxError>(AxError::WouldBlock),
        writable && state == State::Connected ==> r is Ok,
        writable && state != State::Connected ==> r == Err::<(), AxError>(AxError::ConnectionRefused),
{
    if !writable {
        Err(AxError::WouldBlock)
    } else if state == State::Connected {
        Ok(())
    } else {
        Err(AxError::ConnectionRefused)
    }
}

/// The readiness of a connected stream (or of one that is idle or closed).
pub open spec fn stream_events_spec(
    rx_closed: bool,
    may_recv: bool,
    can_recv: bool,
    may_send: bool,
    can_send: bool,
) -> IoEvents {
    IoEvents {
        readable: !rx_closed && (!may_recv || can_recv),
        writable: !may_send || can_send,
        read_hup: false,
    }
}

pub fn stream_events(rx_closed: bool, may_recv: bool, can_recv: bool, may_send: bool, can_send: bool) -> (r:
    IoEvents)
    ensures
        r == stream_events_spec(rx_closed, may_recv, can_recv, may_send, can_send),
{
    IoEvents { readable: !rx_closed && (!may_recv || can_recv), writable: !may_send || can_send, read_hup: false }
}

/// What the protocol engine says of a socket's connection when it is polled.
#[derive(Clone, Copy, Debug, PartialEq, Eq, Structural)]
pub struct TcpStatus {
    pub state: TcpState,
    pub may_recv: bool,
    pub can_recv: bool,
    pub may_send: bool,
    pub can_send: bool,
}

/// The readiness of a TCP socket in state `state`, and the state a
/// connection in progress moves to. A listener is readable when a
/// connection waits to be accepted; a busy socket is never ready.
pub fn poll_events(state: State, status: TcpStatus, rx_closed: bool, can_accept: bool) -> (r: (IoEvents, Option<State>))
    ensures
        r.0.read_hup == rx_closed,
        state == State::Connecting ==> r.1 == connect_poll_spec(status.state).0 && !r.0.readable && r.0.writable
            == connect_poll_spec(status.state).1,
        state != State::Connecting ==> r.1 is None,
        (state == State::Connected || state == State::Idle || state == State::Closed) ==> r.0.readable
            == stream_events_spec(rx_closed, status.may_recv, status.can_recv, status.may_send, status.can_send).readable
            && r.0.writable == stream_events_spec(
            rx_closed,
            status.may_recv,
            status.can_recv,
            status.may_send,
            status.can_send,
        ).writable,
        state == State::Listening ==> r.0.readable == can_accept && !r.0.writable,
        state == State::Busy ==> !r.0.readable && !r.0.writable,
{
    let (events, next) = match state {
        State::Connecting => {
            let (next, writable) = poll_connect(status.state);
            (IoEvents { readable: false, writable, read_hup: false }, next)
        },
        State::Connected | State::Idle | State::Closed => (
            stream_events(rx_closed, status.may_recv, status.can_recv, status.may_send, status.can_send),
            None,
        ),
        State::Listening => (IoEvents { readable: can_accept, writable: false, read_hup: false }, None),
        State::Busy => (IoEvents { readable: false, writable: false, read_hup: false }, None),
    };
    (IoEvents { read_hup: rx_closed, ..events }, next)
}

/// Whether a send may go on: the connection is open and has room.
pub fn send_check(is_active: bool, can_send: bool) -> (r: Result<(), AxError>)
    ensures
        !is_active ==> r == Err::<(), AxError>(AxError::NotConnected),
        is_active && !can_send ==> r == Err::<(), AxError>(AxError::WouldBlock),
        is_active && can_send ==> r is Ok,
{
    if !is_active {
        Err(AxError::NotConnected)
    } else if !can_send {
        Err(AxError::WouldBlock)
    } else {
        Ok(())
    }
}

/// What a receive does next.
#[derive(Clone, Copy, Debug, PartialEq, Eq, Structural)]
pub enum RecvStep {
    /// Fail with this error.
    Fail(AxError),
    /// The peer closed its side: return 0.
    EndOfStream,
    /// Take data from the receive queue (peek only, with `PEEK`).
    Read { peek: bool },
}

/// The decision of a receive on a socket whose reading side is closed or
/// not, given the connection's status and the length of its receive queue.
pub fn recv_step(rx_closed: bool, is_active: bool, may_recv: bool, recv_queue: usize, peek: bool) -> (r: RecvStep)
    ensures
        rx_closed ==> r == RecvStep::Fail(AxError::NotConnected),
        !rx_closed && !is_active ==> r == RecvStep::Fail(AxError::NotConnected),
        !rx_closed && is_active && !may_recv ==> r == RecvStep::EndOfStream,
        !rx_closed && is_active && may_recv && recv_queue == 0 ==> r == RecvStep::Fail(AxError::WouldBlock),
        !rx_closed && is_active && may_recv && recv_queue > 0 ==> r == (RecvStep::Read { peek }),
{
    if rx_closed {
        RecvStep::Fail(AxError::NotConnected)
    } else if !is_active {
        RecvStep::Fail(AxError::NotConnected)
    } else if !may_recv {
        RecvStep::EndOfStream
    } else if recv_queue == 0 {
        RecvStep::Fail(AxError::WouldBlock)
    } else {
        RecvStep::Read { peek }
    }
}

/// What reading option `opt` of a TCP socket gives: the general options
/// first, then the TCP ones, from whether Nagle's algorithm and keep-alive
/// are on.
pub open spec fn tcp_get_spec(
    general: crate::options::GeneralOptionsView,
    opt: GetSocketOption,
    nagle_enabled: bool,
    keep_alive: bool,
) -> Option<OptionValue> {
    match get_spec(general, opt) {
        Some(v) => Some(v),
        None => match opt {
            GetSocketOption::NoDelay => Some(OptionValue::Bool(!nagle_enabled)),
            GetSocketOption::KeepAlive => Some(OptionValue::Bool(keep_alive)),
            GetSocketOption::MaxSegment => Some(OptionValue::Size(TCP_MAX_SEGMENT)),
            GetSocketOption::SendBuffer => Some(OptionValue::Size(TCP_TX_BUF_LEN)),
            GetSocketOption::ReceiveBuffer => Some(OptionValue::Size(TCP_RX_BUF_LEN)),
            GetSocketOption::TcpInfo => Some(OptionValue::Unit),
            _ => None,
        },
    }
}

/// Reads option `opt` of a TCP socket; `None` when TCP sockets do not hold it.
pub fn tcp_get_option(general: &GeneralOptions, opt: GetSocketOption, nagle_enabled: bool, keep_alive: bool) -> (r:
    Option<OptionValue>)
    ensures
        r == tcp_get_spec(general@, opt, nagle_enabled, keep_alive),
{
    match general.get_option_inner(opt) {
        Some(v) => Some(v),
        None => match opt {
            GetSocketOption::NoDelay => Some(OptionValue::Bool(!nagle_enabled)),
            GetSocketOption::KeepAlive => Some(OptionValue::Bool(keep_alive)),
            GetSocketOption::MaxSegment => Some(OptionValue::Size(TCP_MAX_SEGMENT)),
            GetSocketOption::SendBuffer => Some(OptionValue::Size(TCP_TX_BUF_LEN)),
            GetSocketOption::ReceiveBuffer => Some(OptionValue::Size(TCP_RX_BUF_LEN)),
            GetSocketOption::TcpInfo => Some(OptionValue::Unit),
            _ => None,
        },
    }
}

/// What setting an option of a TCP socket leaves to the protocol engine.
#[derive(Clone, Copy, Debug, PartialEq, Eq, Structural)]
pub enum TcpOptionAction {
    /// The general options took it; nothing more to do.
    Done,
    /// Turn Nagle's algorithm on or off.
    SetNagle(bool),
    /// Set the keep-alive interval in seconds, or turn keep-alive off.
    SetKeepAlive(Option<u64>),
    /// TCP sockets do not take the option.
    NotHeld,
}

/// Sets option `opt` of a TCP socket.
pub fn tcp_set_option(general: &mut GeneralOptions, opt: SetSocketOption) -> (r: TcpOptionAction)
    ensures
        final(general)@ == set_spec(old(general)@, opt),
        set_supported(opt) ==> r == TcpOptionAction::Done,
        !set_supported(opt) ==> r == (match opt {
            SetSocketOption::NoDelay(b) => TcpOptionAction::SetNagle(!b),
            SetSocketOption::KeepAlive(b) => TcpOptionAction::SetKeepAlive(
                if b { Some(TCP_KEEP_ALIVE_SECS) } else { None },
            ),
            _ => TcpOptionAction::NotHeld,
        }),
{
    if general.set_option_inner(opt) {
        return TcpOptionAction::Done;
    }
    match opt {
        SetSocketOption::NoDelay(b) => TcpOptionAction::SetNagle(!b),
        SetSocketOption::KeepAlive(b) => TcpOptionAction::SetKeepAlive(
            if b {
                Some(TCP_KEEP_ALIVE_SECS)
            } else {
                None
            },
        ),
        _ => TcpOptionAction::NotHeld,
    }
}

/// The work of shutting a TCP socket down.
#[derive(Clone, Copy, Debug, PartialEq, Eq, Structural)]
pub struct ShutdownPlan {
    /// Close the reading side and wake its waiters.
    pub close_rx: bool,
    /// Close the connection in the protocol engine.
    pub close_tx: bool,
    /// Stop listening on the bound port.
    pub unlisten: bool,
    /// The state of the socket afterwards.
    pub new_state: State,
}

/// How `shutdown(how)` acts on a socket in state `state`: a connection
/// closes (its sending side when `how` has writing), a listener stops
/// listening, other states are left alone; the reading side closes when
/// `how` has reading.
pub fn shutdown_plan(state: State, how: Shutdown) -> (r: ShutdownPlan)
    ensures
        r.close_rx == (how == Shutdown::Read || how == Shutdown::Both),
        r.close_tx == (state == State::Connected && (how == Shutdown::Write || how == Shutdown::Both)),
        r.unlisten == (state == State::Listening),
        r.new_state == (if state == State::Connected || state == State::Listening {
            State::Closed
        } else {
            state
        }),
{
    let close_rx = how.has_read();
    if state == State::Connected {
        ShutdownPlan { close_rx, close_tx: how.has_write(), unlisten: false, new_state: State::Closed }
    } else if state == State::Listening {
        ShutdownPlan { close_rx, close_tx: false, unlisten: true, new_state: State::Closed }
    } else {
        ShutdownPlan { close_rx, close_tx: false, unlisten: false, new_state: state }
    }
}

/// What taking received data from the head of a receive queue of packet
/// buffers does: the buffer holds `len` bytes in its first part out of
/// `tot_len` in all, of which the first `offset` were taken before, and the
/// caller has room for `room`. A buffer in several parts is not supported;
/// otherwise as much as fits is copied, and the buffer goes back to the
/// head of the queue at its new offset when bytes are left (`Some`), or is
/// freed (`None`).
pub fn pbuf_take(len: usize, tot_len: usize, offset: usize, room: usize) -> (r: Result<(usize, Option<usize>), AxError>)
    requires
        offset <= len,
    ensures
        r == (if len != tot_len {
            Err(AxError::OperationNotSupported)
        } else {
            let copy = if len - offset < room { len - offset } else { room as int };
            Ok::<(usize, Option<usize>), AxError>(
                (
                    copy as usize,
                    if offset + copy < len {
                        Some((offset + copy) as usize)
                    } else {
                        None
                    },
                ),
            )
        }),
{
    if len != tot_len {
        return Err(AxError::OperationNotSupported);
    }
    let copy = if len - offset < room {
        len - offset
    } else {
        room
    };
    let rest = if offset + copy < len {
        Some(offset + copy)
    } else {
        None
    };
    Ok((copy, rest))
}

/// One round of a receive from a queue of packet buffers: a connection the
/// peer closed gives 0 (and nothing is taken from the queue); else the
/// bytes taken are returned; with none (`taken` is 0, also for an empty
/// queue) a socket that does not block fails with
/// `WouldBlock`, and one that blocks tries again (`None`).
pub fn pbuf_recv_round(remote_closed: bool, taken: usize, nonblocking: bool) -> (r: Option<Result<usize, AxError>>)
    ensures
        r == (if remote_closed {
            Some(Ok::<usize, AxError>(0))
        } else if taken > 0 {
            Some(Ok(taken))
        } else if nonblocking {
            Some(Err(AxError::WouldBlock))
        } else {
            None
        }),
{
    if remote_closed {
        Some(Ok(0))
    } else if taken > 0 {
        Some(Ok(taken))
    } else if nonblocking {
        Some(Err(AxError::WouldBlock))
    } else {
        None
    }
}

/// A stream is reported writable exactly when it may no longer send (so a
/// writer wakes and meets the error) or has room to send, and readable
/// exactly when its receive side is open and it may no longer receive or
/// has data. `poll_events` reports this for a connected, idle or closed
/// socket.
pub proof fn lemma_stream_readiness(rx_closed: bool, may_recv: bool, can_recv: bool, may_send: bool, can_send: bool)
    ensures
        stream_events_spec(rx_closed, may_recv, can_recv, may_send, can_send).writable <==> (!may_send || can_send),
        !may_send ==> stream_events_spec(rx_closed, may_recv, can_recv, may_send, can_send).writable,
        stream_events_spec(rx_closed, may_recv, can_recv, may_send, can_send).readable <==> (!rx_closed && (
        !may_recv || can_recv)),
{
}

} // verus!
