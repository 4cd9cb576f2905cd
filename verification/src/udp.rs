use vstd::prelude::*;

use crate::errors::LinuxError;
use crate::options::{GeneralOptions, GetSocketOption, OptionValue, SetSocketOption, get_spec, set_spec, set_supported};
use crate::router::IpAddress;
use crate::socket::RecvFlags;

verus! {

/// Size of the receive buffer of a UDP socket.
pub const UDP_RX_BUF_LEN: usize = 65536;

/// Size of the send buffer of a UDP socket.
pub const UDP_TX_BUF_LEN: usize = 65536;

/// The hop limit reported when none is set.
pub const UDP_DEFAULT_TTL: u8 = 64;

/// An address and a port.
#[derive(Clone, Copy, Debug, PartialEq, Eq, Structural)]
pub struct IpEndpoint {
    pub addr: IpAddress,
    pub port: u16,
}

pub open spec fn is_unspecified(a: IpAddress) -> bool {
    match a {
        IpAddress::Ipv4(x) => x == 0,
        IpAddress::Ipv6(x) => x == 0,
    }
}

/// The address is the unspecified address of its family.
pub fn addr_is_unspecified(a: &IpAddress) -> (r: bool)
    ensures
        r == is_unspecified(*a),
{
    match a {
        IpAddress::Ipv4(x) => *x == 0,
        IpAddress::Ipv6(x) => *x == 0,
    }
}

/// A datagram from `from` is for a socket that expects `expected`: an
/// unspecified address or a zero port in `expected` accepts any.
pub open spec fn accepts_from(expected: IpEndpoint, from: IpEndpoint) -> bool {
    (is_unspecified(expected.addr) || expected.addr == from.addr) && (expected.port == 0 || expected.port
        == from.port)
}

pub fn datagram_accepted(expected: &IpEndpoint, from: &IpEndpoint) -> (r: bool)
    ensures
        r == accepts_from(*expected, *from),
{
    (addr_is_unspecified(&expected.addr) || expected.addr == from.addr) && (expected.port == 0 || expected.port
        == from.port)
}

/// The length a receive reports for a datagram of `datagram_len` bytes
/// copied into a buffer with room for `room`: the whole datagram's length
/// with `TRUNCATE`, else what was copied.
pub fn recv_len(datagram_len: usize, room: usize, truncate: bool) -> (r: usize)
    ensures
        r == (if truncate {
            datagram_len
        } else if room < datagram_len {
            room
        } else {
            datagram_len
        }),
{
    if truncate {
        datagram_len
    } else if room < datagram_len {
        room
    } else {
        datagram_len
    }
}

/// Whose datagrams a receive takes.
#[derive(Clone, Copy, Debug, PartialEq, Eq, Structural)]
pub enum RecvSource {
    /// Any sender; the receive reports who sent it.
    Any,
    /// Only datagrams the connected peer `expected` accepts.
    Expecting(IpEndpoint),
}

/// The tests a receive makes before it waits: the socket must be bound,
/// and a receive that does not ask for the sender needs a connected peer.
pub fn recv_source(bound: bool, wants_sender: bool, peer: Option<IpEndpoint>) -> (r: Result<
    RecvSource,
    LinuxError,
>)
    ensures
        r == (if !bound {
            Err(LinuxError::ENOTCONN)
        } else if wants_sender {
            Ok(RecvSource::Any)
        } else {
            match peer {
                Some(p) => Ok(RecvSource::Expecting(p)),
                None => Err(LinuxError::ENOTCONN),
            }
        }),
{
    if !bound {
        return Err(LinuxError::ENOTCONN);
    }
    if wants_sender {
        return Ok(RecvSource::Any);
    }
    match peer {
        Some(p) => Ok(RecvSource::Expecting(p)),
        None => Err(LinuxError::ENOTCONN),
    }
}

/// What a round of a receive does before it reads.
#[derive(Clone, Copy, Debug, PartialEq, Eq, Structural)]
pub enum UdpRecvAction {
    Fail(LinuxError),
    /// Nothing to read yet: wait for a datagram.
    Wait,
    /// Read the next datagram, leaving it queued when `peek`.
    Read { peek: bool },
}

/// A round of a receive: a socket that is not open fails with `ENOTCONN`,
/// one with nothing queued waits, else it reads, peeking with `PEEK`.
pub fn udp_recv_round(is_open: bool, can_recv: bool, flags: RecvFlags) -> (r: UdpRecvAction)
    ensures
        r == (if !is_open {
            UdpRecvAction::Fail(LinuxError::ENOTCONN)
        } else if !can_recv {
            UdpRecvAction::Wait
        } else {
            UdpRecvAction::Read { peek: flags.bits & 1 == 1 }
        }),
{
    if !is_open {
        UdpRecvAction::Fail(LinuxError::ENOTCONN)
    } else if !can_recv {
        UdpRecvAction::Wait
    } else {
        UdpRecvAction::Read { peek: flags.contains(RecvFlags::PEEK()) }
    }
}

/// What a receive gives for the datagram it read (`None` when the queue
/// ran empty: `EAGAIN`), copied into a buffer with room for `room`:
/// `EAGAIN` when the datagram is not from the expected peer, else the
/// length `recv_len` reports, the bytes copied, and the sender when the
/// receive takes any.
pub fn udp_recv_finish(
    source: RecvSource,
    datagram: Option<(usize, IpEndpoint)>,
    room: usize,
    flags: RecvFlags,
) -> (r: Result<(usize, usize, Option<IpEndpoint>), LinuxError>)
    ensures
        r == (match datagram {
            None => Err(LinuxError::EAGAIN),
            Some((len, from)) => match source {
                RecvSource::Expecting(e) if !accepts_from(e, from) => Err(LinuxError::EAGAIN),
                _ => Ok((
                    if flags.bits & 2 == 2 { len } else if room < len { room } else { len },
                    if room < len { room } else { len },
                    if source is Any { Some(from) } else { None },
                )),
            },
        }),
{
    match datagram {
        None => Err(LinuxError::EAGAIN),
        Some((len, from)) => {
            let sender = match source {
                RecvSource::Expecting(e) => {
                    if !datagram_accepted(&e, &from) {
                        return Err(LinuxError::EAGAIN);
                    }
                    None
                },
                RecvSource::Any => Some(from),
            };
            let copied = if room < len { room } else { len };
            let reported = recv_len(len, room, flags.contains(RecvFlags::TRUNCATE()));
            Ok((reported, copied, sender))
        },
    }
}

/// The tests a send makes before it waits for room: the destination (given,
/// else the connected peer, else `ENOTCONN`) must have a port and a
/// specified address, and the socket must be bound.
pub fn send_target(to: Option<IpEndpoint>, peer: Option<IpEndpoint>, bound: bool) -> (r: Result<
    IpEndpoint,
    LinuxError,
>)
    ensures
        ({
            let target = match to {
                Some(t) => Some(t),
                None => peer,
            };
            match target {
                None => r == Err::<IpEndpoint, LinuxError>(LinuxError::ENOTCONN),
                Some(t) => if t.port == 0 || is_unspecified(t.addr) {
                    r == Err::<IpEndpoint, LinuxError>(LinuxError::EINVAL)
                } else if !bound {
                    r == Err::<IpEndpoint, LinuxError>(LinuxError::ENOTCONN)
                } else {
                    r == Ok::<IpEndpoint, LinuxError>(t)
                },
            }
        }),
{
    let target = match to {
        Some(t) => t,
        None => match peer {
            Some(p) => p,
            None => return Err(LinuxError::ENOTCONN),
        },
    };
    if target.port == 0 || addr_is_unspecified(&target.addr) {
        return Err(LinuxError::EINVAL);
    }
    if !bound {
        return Err(LinuxError::ENOTCONN);
    }
    Ok(target)
}

/// Why the stack refused to queue a datagram.
#[derive(Clone, Copy, Debug, PartialEq, Eq, Structural)]
pub enum UdpSendFailure {
    /// The send buffer has no room for it.
    BufferFull,
    /// The destination cannot be reached.
    Unaddressable,
}

/// What a send returns once the stack queued its whole data, `len` bytes,
/// as one datagram or refused it: the length sent; `EAGAIN` for a full
/// buffer, `ECONNREFUSED` for an unreachable destination.
pub fn udp_send_finish(len: usize, queued: Result<(), UdpSendFailure>) -> (r: Result<usize, LinuxError>)
    ensures
        r == (match queued {
            Ok(()) => Ok::<usize, LinuxError>(len),
            Err(UdpSendFailure::BufferFull) => Err(LinuxError::EAGAIN),
            Err(UdpSendFailure::Unaddressable) => Err(LinuxError::ECONNREFUSED),
        }),
{
    match queued {
        Ok(()) => Ok(len),
        Err(UdpSendFailure::BufferFull) => Err(LinuxError::EAGAIN),
        Err(UdpSendFailure::Unaddressable) => Err(LinuxError::ECONNREFUSED),
    }
}

/// Whether a send may go on once the target is known: the socket is open
/// and has room (`None` means wait).
pub fn send_ready(is_open: bool, can_send: bool) -> (r: Option<Result<(), LinuxError>>)
    ensures
        !is_open ==> r == Some(Err::<(), LinuxError>(LinuxError::ENOTCONN)),
        is_open && !can_send ==> r is None,
        is_open && can_send ==> r == Some(Ok::<(), LinuxError>(())),
{
    if !is_open {
        Some(Err(LinuxError::ENOTCONN))
    } else if !can_send {
        None
    } else {
        Some(Ok(()))
    }
}

/// The readiness (readable, writable) of a UDP socket: nothing until it is
/// bound.
pub fn udp_poll(bound: bool, can_recv: bool, can_send: bool) -> (r: (bool, bool))
    ensures
        r == (if bound { (can_recv, can_send) } else { (false, false) }),
{
    if !bound {
        (false, false)
    } else {
        (can_recv, can_send)
    }
}

/// What reading option `opt` of a UDP socket gives, from the hop limit set
/// on it, if any.
pub open spec fn udp_get_spec(
    general: crate::options::GeneralOptionsView,
    opt: GetSocketOption,
    hop_limit: Option<u8>,
) -> Option<OptionValue> {
    match get_spec(general, opt) {
        Some(v) => Some(v),
        None => match opt {
            GetSocketOption::Ttl => Some(
                OptionValue::Ttl(
                    match hop_limit {
                        Some(t) => t,
                        None => UDP_DEFAULT_TTL,
                    },
                ),
            ),
            GetSocketOption::SendBuffer => Some(OptionValue::Size(UDP_TX_BUF_LEN)),
            GetSocketOption::ReceiveBuffer => Some(OptionValue::Size(UDP_RX_BUF_LEN)),
            _ => None,
        },
    }
}

/// Reads option `opt` of a UDP socket; `None` when UDP sockets do not hold it.
pub fn udp_get_option(general: &GeneralOptions, opt: GetSocketOption, hop_limit: Option<u8>) -> (r: Option<
    OptionValue,
>)
    ensures
        r == udp_get_spec(general@, opt, hop_limit),
{
    match general.get_option_inner(opt) {
        Some(v) => Some(v),
        None => match opt {
            GetSocketOption::Ttl => Some(
                OptionValue::Ttl(
                    match hop_limit {
                        Some(t) => t,
                        None => UDP_DEFAULT_TTL,
                    },
                ),
            ),
            GetSocketOption::SendBuffer => Some(OptionValue::Size(UDP_TX_BUF_LEN)),
            GetSocketOption::ReceiveBuffer => Some(OptionValue::Size(UDP_RX_BUF_LEN)),
            _ => None,
        },
    }
}

/// Sets option `opt` of a UDP socket. Returns `Some(Some(ttl))` when the
/// hop limit is to be set to `ttl`, `Some(None)` when the general options
/// took it, and `None` when UDP sockets do not take it.
pub fn udp_set_option(general: &mut GeneralOptions, opt: SetSocketOption) -> (r: Option<Option<u8>>)
    ensures
        final(general)@ == set_spec(old(general)@, opt),
        set_supported(opt) ==> r == Some(None::<u8>),
        !set_supported(opt) ==> r == (match opt {
            SetSocketOption::Ttl(t) => Some(Some(t)),
            _ => None,
        }),
{
    if general.set_option_inner(opt) {
        return Some(None);
    }
    match opt {
        SetSocketOption::Ttl(t) => Some(Some(t)),
        _ => None,
    }
}

} // verus!
