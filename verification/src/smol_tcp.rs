use vstd::prelude::*;

use crate::errors::LinuxError;
use crate::listen_table::{ListenTable, PortAllocator};

verus! {

/// The socket is closed (or bound, not yet connected or listening).
pub const STATE_CLOSED: u8 = 0;
/// An operation is changing the socket.
pub const STATE_BUSY: u8 = 1;
pub const STATE_CONNECTING: u8 = 2;
pub const STATE_CONNECTED: u8 = 3;
pub const STATE_LISTENING: u8 = 4;

/// The state of a TCP socket of the smoltcp stack: one of the `STATE_`
/// numbers. An operation moves it with `begin` and `end`.
pub struct SocketState {
    pub state: u8,
}

impl SocketState {
    pub fn new() -> (r: SocketState)
        ensures
            r.state == STATE_CLOSED,
    {
        SocketState { state: STATE_CLOSED }
    }

    /// Starts an operation that needs the state `expect`: the state becomes
    /// busy. Gives the state the socket is in otherwise.
    pub fn begin(&mut self, expect: u8) -> (r: Result<(), u8>)
        ensures
            old(self).state == expect ==> r is Ok && final(self).state == STATE_BUSY,
            old(self).state != expect ==> r == Err::<(), u8>(old(self).state) && final(self).state == old(self).state,
    {
        if self.state == expect {
            self.state = STATE_BUSY;
            Ok(())
        } else {
            Err(self.state)
        }
    }

    /// Ends an operation begun with `begin(expect)`: the state becomes `new`
    /// when it succeeded and goes back to `expect` when it failed.
    pub fn end(&mut self, expect: u8, new: u8, succeeded: bool)
        ensures
            final(self).state == if succeeded { new } else { expect },
    {
        self.state = if succeeded {
            new
        } else {
            expect
        };
    }
}

/// Sending or receiving needs a connection: `EAGAIN` while it is being
/// made, `ENOTCONN` without one.
pub fn io_gate(state: u8) -> (r: Result<(), LinuxError>)
    ensures
        state == STATE_CONNECTING ==> r == Err::<(), LinuxError>(LinuxError::EAGAIN),
        state != STATE_CONNECTING && state != STATE_CONNECTED ==> r == Err::<(), LinuxError>(LinuxError::ENOTCONN),
        state == STATE_CONNECTED ==> r is Ok,
{
    if state == STATE_CONNECTING {
        Err(LinuxError::EAGAIN)
    } else if state != STATE_CONNECTED {
        Err(LinuxError::ENOTCONN)
    } else {
        Ok(())
    }
}

/// The local address can be read when connected, listening or closed.
pub fn local_addr_allowed(state: u8) -> (r: Result<(), LinuxError>)
    ensures
        (state == STATE_CONNECTED || state == STATE_LISTENING || state == STATE_CLOSED) ==> r is Ok,
        !(state == STATE_CONNECTED || state == STATE_LISTENING || state == STATE_CLOSED) ==> r == Err::<(), LinuxError>(
            LinuxError::ENOTCONN,
        ),
{
    if state == STATE_CONNECTED || state == STATE_LISTENING || state == STATE_CLOSED {
        Ok(())
    } else {
        Err(LinuxError::ENOTCONN)
    }
}

/// The peer address can be read when connected or listening.
pub fn peer_addr_allowed(state: u8) -> (r: Result<(), LinuxError>)
    ensures
        (state == STATE_CONNECTED || state == STATE_LISTENING) ==> r is Ok,
        !(state == STATE_CONNECTED || state == STATE_LISTENING) ==> r == Err::<(), LinuxError>(LinuxError::ENOTCONN),
{
    if state == STATE_CONNECTED || state == STATE_LISTENING {
        Ok(())
    } else {
        Err(LinuxError::ENOTCONN)
    }
}

/// What one round of a receive does.
#[derive(Clone, Copy, Debug, PartialEq, Eq, Structural)]
pub enum RecvRound {
    /// Take the queued data.
    Read,
    /// The peer closed: return 0.
    EndOfStream,
    /// Fail, or (with `EAGAIN`) wait for the next round.
    Fail(LinuxError),
}

/// One round of a receive: queued data is read first; then a connection
/// that is not open was refused, one the peer closed gives 0, a passed
/// deadline is `ETIMEDOUT`, and otherwise the receive waits.
pub fn recv_round(recv_queue: usize, is_active: bool, may_recv: bool, timed_out: bool) -> (r: RecvRound)
    ensures
        recv_queue > 0 ==> r == RecvRound::Read,
        recv_queue == 0 && !is_active ==> r == RecvRound::Fail(LinuxError::ECONNREFUSED),
        recv_queue == 0 && is_active && !may_recv ==> r == RecvRound::EndOfStream,
        recv_queue == 0 && is_active && may_recv && timed_out ==> r == RecvRound::Fail(LinuxError::ETIMEDOUT),
        recv_queue == 0 && is_active && may_recv && !timed_out ==> r == RecvRound::Fail(LinuxError::EAGAIN),
{
    if recv_queue > 0 {
        RecvRound::Read
    } else if !is_active {
        RecvRound::Fail(LinuxError::ECONNREFUSED)
    } else if !may_recv {
        RecvRound::EndOfStream
    } else if timed_out {
        RecvRound::Fail(LinuxError::ETIMEDOUT)
    } else {
        RecvRound::Fail(LinuxError::EAGAIN)
    }
}

/// One round of a send: a connection the peer closed is reset; with room
/// the data is written; otherwise the send waits.
pub fn send_round(is_active: bool, may_send: bool, can_send: bool) -> (r: Result<(), LinuxError>)
    ensures
        (!is_active || !may_send) ==> r == Err::<(), LinuxError>(LinuxError::ECONNRESET),
        is_active && may_send && can_send ==> r is Ok,
        is_active && may_send && !can_send ==> r == Err::<(), LinuxError>(LinuxError::EAGAIN),
{
    if !is_active || !may_send {
        Err(LinuxError::ECONNRESET)
    } else if can_send {
        Ok(())
    } else {
        Err(LinuxError::EAGAIN)
    }
}

/// Whether a blocking operation goes round again after a round ended with
/// `outcome`: only when it must wait and the socket blocks.
pub fn retry_round<T>(nonblocking: bool, outcome: &Result<T, LinuxError>) -> (r: bool)
    ensures
        r == (!nonblocking && (outcome matches Err(e) && e == LinuxError::EAGAIN)),
{
    if nonblocking {
        return false;
    }
    match outcome {
        Err(LinuxError::EAGAIN) => true,
        _ => false,
    }
}

/// Why the stack refused to start a connection.
#[derive(Clone, Copy, Debug, PartialEq, Eq, Structural)]
pub enum ConnectFailure {
    /// The socket is not closed.
    InvalidState,
    /// The remote endpoint cannot be reached.
    Unaddressable,
}

/// The error a refused connection start reports: `EISCONN` for a socket
/// that is not closed, `ECONNREFUSED` for an unreachable endpoint.
pub fn connect_failure_error(e: ConnectFailure) -> (r: LinuxError)
    ensures
        r == (match e {
            ConnectFailure::InvalidState => LinuxError::EISCONN,
            ConnectFailure::Unaddressable => LinuxError::ECONNREFUSED,
        }),
{
    match e {
        ConnectFailure::InvalidState => LinuxError::EISCONN,
        ConnectFailure::Unaddressable => LinuxError::ECONNREFUSED,
    }
}

/// What a connect does once it tried to start the connection: `started` is
/// `Err` when the socket was not closed (`EISCONN`), else what starting gave.
/// A failed start fails the connect; a started one fails with `EAGAIN` on a
/// socket that does not block, and waits (`None`) on one that does.
pub fn connect_settle(started: Result<Result<(), LinuxError>, u8>, nonblocking: bool) -> (r: Option<
    Result<(), LinuxError>,
>)
    ensures
        r == (match started {
            Err(_) => Some(Err::<(), LinuxError>(LinuxError::EISCONN)),
            Ok(Err(e)) => Some(Err(e)),
            Ok(Ok(())) => if nonblocking {
                Some(Err(LinuxError::EAGAIN))
            } else {
                None
            },
        }),
{
    match started {
        Err(_) => Some(Err(LinuxError::EISCONN)),
        Ok(Err(e)) => Some(Err(e)),
        Ok(Ok(())) => {
            if nonblocking {
                Some(Err(LinuxError::EAGAIN))
            } else {
                None
            }
        },
    }
}

/// One round of waiting for a connection: not yet writable waits
/// (`EAGAIN`), then a connected socket succeeds and any other is refused.
pub fn connect_round(writable: bool, state: u8) -> (r: Result<(), LinuxError>)
    ensures
        r == (if !writable {
            Err(LinuxError::EAGAIN)
        } else if state == STATE_CONNECTED {
            Ok(())
        } else {
            Err(LinuxError::ECONNREFUSED)
        }),
{
    if !writable {
        Err(LinuxError::EAGAIN)
    } else if state == STATE_CONNECTED {
        Ok(())
    } else {
        Err(LinuxError::ECONNREFUSED)
    }
}

/// The endpoint a socket binds to or connects from: whether it names an
/// address (else any), and its port, or the next free automatic port when
/// it has none (`EADDRINUSE` when every automatic port is taken).
pub fn bound_endpoint(local_addr_unspecified: bool, local_port: u16, ports: &mut PortAllocator, table: &ListenTable) -> (r:
    Result<(bool, u16), LinuxError>)
    requires
        table.wf(),
    ensures
        local_port != 0 ==> r == Ok::<(bool, u16), LinuxError>((!local_addr_unspecified, local_port))
            && final(ports)@ == old(ports)@,
        local_port == 0 ==> match r {
            Ok((named, p)) => named == !local_addr_unspecified && table@[p as int] is None,
            Err(e) => e == LinuxError::EADDRINUSE,
        },
{
    let port = if local_port != 0 {
        local_port
    } else {
        match ports.next_free(table) {
            Ok(p) => p,
            Err(_) => return Err(LinuxError::EADDRINUSE),
        }
    };
    Ok((!local_addr_unspecified, port))
}

} // verus!
