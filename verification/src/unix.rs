use vstd::prelude::*;

use crate::errors::LinuxError;
use crate::options::{GeneralOptions, GetSocketOption, OptionValue, SetSocketOption, UnixCredentials, get_spec, set_spec, set_supported};
use crate::tcp::IoEvents;

verus! {

/// Binding a Unix socket: the address must be free (`EADDRINUSE`) and the
/// socket not bound yet (`EINVAL`).
pub fn bind_check(address_taken: bool, already_bound: bool) -> (r: Result<(), LinuxError>)
    ensures
        address_taken ==> r == Err::<(), LinuxError>(LinuxError::EADDRINUSE),
        !address_taken && already_bound ==> r == Err::<(), LinuxError>(LinuxError::EINVAL),
        !address_taken && !already_bound ==> r is Ok,
{
    if address_taken {
        Err(LinuxError::EADDRINUSE)
    } else if already_bound {
        Err(LinuxError::EINVAL)
    } else {
        Ok(())
    }
}

/// Connecting a Unix socket: not connected yet (`EISCONN`), and something
/// is bound at the address (`ENOTCONN`).
pub fn connect_check(already_connected: bool, peer_bound: bool) -> (r: Result<(), LinuxError>)
    ensures
        already_connected ==> r == Err::<(), LinuxError>(LinuxError::EISCONN),
        !already_connected && !peer_bound ==> r == Err::<(), LinuxError>(LinuxError::ENOTCONN),
        !already_connected && peer_bound ==> r is Ok,
{
    if already_connected {
        Err(LinuxError::EISCONN)
    } else if !peer_bound {
        Err(LinuxError::ENOTCONN)
    } else {
        Ok(())
    }
}

/// Before a stream send writes: a stream takes no destination (`EINVAL`),
/// must be connected (`ENOTCONN`) and its peer must still read (`EPIPE`).
pub fn stream_send_check(has_destination: bool, connected: bool, peer_reading: bool) -> (r: Result<(), LinuxError>)
    ensures
        has_destination ==> r == Err::<(), LinuxError>(LinuxError::EINVAL),
        !has_destination && !connected ==> r == Err::<(), LinuxError>(LinuxError::ENOTCONN),
        !has_destination && connected && !peer_reading ==> r == Err::<(), LinuxError>(LinuxError::EPIPE),
        !has_destination && connected && peer_reading ==> r is Ok,
{
    if has_destination {
        Err(LinuxError::EINVAL)
    } else if !connected {
        Err(LinuxError::ENOTCONN)
    } else if !peer_reading {
        Err(LinuxError::EPIPE)
    } else {
        Ok(())
    }
}

/// After a stream send wrote what fitted: done with the `total` written
/// when nothing is left to send, else wait for room.
pub fn stream_send_finish(total: usize, all_sent: bool) -> (r: Result<usize, LinuxError>)
    ensures
        all_sent ==> r == Ok::<usize, LinuxError>(total),
        !all_sent ==> r == Err::<usize, LinuxError>(LinuxError::EAGAIN),
{
    if all_sent {
        Ok(total)
    } else {
        Err(LinuxError::EAGAIN)
    }
}

/// After a stream receive took what there was: done when the buffer is
/// full or the peer no longer writes, else wait for data.
pub fn stream_recv_finish(read: usize, buffer_full: bool, peer_writing: bool) -> (r: Result<usize, LinuxError>)
    ensures
        (buffer_full || !peer_writing) ==> r == Ok::<usize, LinuxError>(read),
        !(buffer_full || !peer_writing) ==> r == Err::<usize, LinuxError>(LinuxError::EAGAIN),
{
    if buffer_full || !peer_writing {
        Ok(read)
    } else {
        Err(LinuxError::EAGAIN)
    }
}

/// The readiness of a Unix stream: with a connection, readable when data
/// waits and writable when there is room; a listener is readable when a
/// connection waits.
pub fn stream_events(channel: Option<(usize, usize)>, pending_connections: Option<usize>) -> (r: IoEvents)
    ensures
        channel matches Some((occupied, vacant)) ==> r == (IoEvents { readable: occupied > 0, writable: vacant > 0, read_hup: false }),
        channel is None ==> r == (IoEvents {
            readable: match pending_connections {
                Some(n) => n > 0,
                None => false,
            },
            writable: false,
            read_hup: false,
        }),
{
    match channel {
        Some((occupied, vacant)) => IoEvents { readable: occupied > 0, writable: vacant > 0, read_hup: false },
        None => IoEvents {
            readable: match pending_connections {
                Some(n) => n > 0,
                None => false,
            },
            writable: false,
            read_hup: false,
        },
    }
}

/// The readiness of a Unix datagram socket: always writable, readable when
/// it is bound and a datagram waits.
pub fn dgram_events(queued: Option<usize>) -> (r: IoEvents)
    ensures
        r == (IoEvents {
            readable: match queued {
                Some(n) => n > 0,
                None => false,
            },
            writable: true,
            read_hup: false,
        }),
{
    IoEvents {
        readable: match queued {
            Some(n) => n > 0,
            None => false,
        },
        writable: true,
        read_hup: false,
    }
}

/// Where a datagram goes: to the socket bound at the given destination, or
/// to the connected peer.
#[derive(Clone, Copy, Debug, PartialEq, Eq, Structural)]
pub enum DgramTarget {
    Destination,
    Peer,
}

/// The target of a datagram send: the destination when one is given (a
/// socket must be bound there), else the connected peer, else `ENOTCONN`.
pub fn dgram_target(destination: Option<bool>, connected: bool) -> (r: Result<DgramTarget, LinuxError>)
    ensures
        destination == Some(true) ==> r == Ok::<DgramTarget, LinuxError>(DgramTarget::Destination),
        destination == Some(false) ==> r == Err::<DgramTarget, LinuxError>(LinuxError::ENOTCONN),
        destination is None && connected ==> r == Ok::<DgramTarget, LinuxError>(DgramTarget::Peer),
        destination is None && !connected ==> r == Err::<DgramTarget, LinuxError>(LinuxError::ENOTCONN),
{
    match destination {
        Some(true) => Ok(DgramTarget::Destination),
        Some(false) => Err(LinuxError::ENOTCONN),
        None => if connected {
            Ok(DgramTarget::Peer)
        } else {
            Err(LinuxError::ENOTCONN)
        },
    }
}

/// What reading option `opt` of a Unix datagram socket made by process
/// `pid` gives: the general options, then credential passing (read as
/// nothing) and the peer's credentials, which are the creator's own.
pub open spec fn dgram_get_spec(general: crate::options::GeneralOptionsView, opt: GetSocketOption, pid: u32) -> Option<
    OptionValue,
> {
    match get_spec(general, opt) {
        Some(v) => Some(v),
        None => match opt {
            GetSocketOption::PassCredentials => Some(OptionValue::Unit),
            GetSocketOption::PeerCredentials => Some(OptionValue::Credentials(UnixCredentials { pid, uid: 0, gid: 0 })),
            _ => None,
        },
    }
}

pub fn dgram_get_option(general: &GeneralOptions, opt: GetSocketOption, pid: u32) -> (r: Option<OptionValue>)
    ensures
        r == dgram_get_spec(general@, opt, pid),
{
    match general.get_option_inner(opt) {
        Some(v) => Some(v),
        None => match opt {
            GetSocketOption::PassCredentials => Some(OptionValue::Unit),
            GetSocketOption::PeerCredentials => Some(OptionValue::Credentials(UnixCredentials::new(pid))),
            _ => None,
        },
    }
}

/// Sets option `opt` of a Unix datagram socket; returns whether it takes
/// it (credential passing is taken and has no effect).
pub fn dgram_set_option(general: &mut GeneralOptions, opt: SetSocketOption) -> (r: bool)
    ensures
        final(general)@ == set_spec(old(general)@, opt),
        r == (set_supported(opt) || opt is PassCredentials),
{
    if general.set_option_inner(opt) {
        return true;
    }
    match opt {
        SetSocketOption::PassCredentials(_) => true,
        _ => false,
    }
}

/// Size of each direction's buffer of a Unix stream.
pub const STREAM_BUF_SIZE: usize = 65536;

/// Reads option `opt` of a Unix stream: only its send buffer size.
pub fn stream_get_option(opt: GetSocketOption) -> (r: Option<OptionValue>)
    ensures
        opt == GetSocketOption::SendBuffer ==> r == Some(OptionValue::Size(STREAM_BUF_SIZE)),
        opt != GetSocketOption::SendBuffer ==> r is None,
{
    match opt {
        GetSocketOption::SendBuffer => Some(OptionValue::Size(STREAM_BUF_SIZE)),
        _ => None,
    }
}

} // verus!
