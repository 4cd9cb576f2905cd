use vstd::prelude::*;

use crate::errors::{AxError, LinuxError};
use crate::router::IpAddress;

verus! {

/// A socket address of the standard library, carried through unchanged.
#[verifier::external_type_specification]
#[verifier::external_body]
pub struct ExStdSocketAddr(core::net::SocketAddr);

/// `Clone` of the standard socket address: it is a `Copy` type, and its
/// clone is the same value.
pub assume_specification[ <core::net::SocketAddr as Clone>::clone ](a: &core::net::SocketAddr) -> (r:
    core::net::SocketAddr)
    ensures
        r == *a,
;

/// Address of a Unix domain socket.
#[derive(Clone, Debug)]
pub enum UnixSocketAddr {
    Unnamed,
    Abstract(Vec<u8>),
    Path(String),
}

/// Virtio socket address.
#[derive(Copy, Clone, Debug, PartialEq, Eq, Structural)]
pub struct VsockAddr {
    /// Context ID.
    pub cid: u32,
    /// Port number.
    pub port: u32,
}

impl VsockAddr {
    /// The (context ID, port) pair the device uses.
    pub fn to_device_addr(&self) -> (r: Result<(u32, u32), AxError>)
        ensures
            r == Ok::<(u32, u32), AxError>((self.cid, self.port)),
    {
        Ok((self.cid, self.port))
    }
}

/// A socket address of any family.
#[derive(Clone, Debug)]
pub enum SocketAddrEx {
    Ip(core::net::SocketAddr),
    Unix(UnixSocketAddr),
    Vsock(VsockAddr),
}

impl SocketAddrEx {
    pub fn into_ip(self) -> (r: Result<core::net::SocketAddr, AxError>)
        ensures
            self matches SocketAddrEx::Ip(a) ==> r == Ok::<core::net::SocketAddr, AxError>(a),
            !(self is Ip) ==> r == Err::<core::net::SocketAddr, AxError>(AxError::Other(LinuxError::EAFNOSUPPORT)),
    {
        match self {
            SocketAddrEx::Ip(addr) => Ok(addr),
            SocketAddrEx::Unix(_) => Err(AxError::Other(LinuxError::EAFNOSUPPORT)),
            SocketAddrEx::Vsock(_) => Err(AxError::Other(LinuxError::EAFNOSUPPORT)),
        }
    }

    pub fn into_unix(self) -> (r: Result<UnixSocketAddr, AxError>)
        ensures
            self matches SocketAddrEx::Unix(a) ==> r == Ok::<UnixSocketAddr, AxError>(a),
            !(self is Unix) ==> r == Err::<UnixSocketAddr, AxError>(AxError::Other(LinuxError::EAFNOSUPPORT)),
    {
        match self {
            SocketAddrEx::Unix(addr) => Ok(addr),
            SocketAddrEx::Ip(_) => Err(AxError::Other(LinuxError::EAFNOSUPPORT)),
            SocketAddrEx::Vsock(_) => Err(AxError::Other(LinuxError::EAFNOSUPPORT)),
        }
    }

    pub fn into_vsock(self) -> (r: Result<VsockAddr, AxError>)
        ensures
            self matches SocketAddrEx::Vsock(a) ==> r == Ok::<VsockAddr, AxError>(a),
            !(self is Vsock) ==> r == Err::<VsockAddr, AxError>(AxError::Other(LinuxError::EAFNOSUPPORT)),
    {
        match self {
            SocketAddrEx::Ip(_) => Err(AxError::Other(LinuxError::EAFNOSUPPORT)),
            SocketAddrEx::Unix(_) => Err(AxError::Other(LinuxError::EAFNOSUPPORT)),
            SocketAddrEx::Vsock(addr) => Ok(addr),
        }
    }
}

/// Flags for receiving data from a socket.
#[derive(Clone, Copy, Debug, Default, PartialEq, Eq, Structural)]
pub struct RecvFlags {
    pub bits: u32,
}

impl RecvFlags {
    /// Receive data without removing it from the queue.
    #[allow(non_snake_case)]
    pub fn PEEK() -> (r: RecvFlags)
        ensures
            r.bits == 0x01,
    {
        RecvFlags { bits: 0x01 }
    }

    /// For datagram sockets, return the real size of the datagram, even
    /// when it is larger than the buffer.
    #[allow(non_snake_case)]
    pub fn TRUNCATE() -> (r: RecvFlags)
        ensures
            r.bits == 0x02,
    {
        RecvFlags { bits: 0x02 }
    }

    pub fn empty() -> (r: RecvFlags)
        ensures
            r.bits == 0,
    {
        RecvFlags { bits: 0 }
    }

    pub fn contains(&self, other: RecvFlags) -> (r: bool)
        ensures
            r == (self.bits & other.bits == other.bits),
    {
        self.bits & other.bits == other.bits
    }
}

/// Flags for sending data to a socket (none are defined).
#[derive(Clone, Copy, Debug, Default, PartialEq, Eq, Structural)]
pub struct SendFlags {
    pub bits: u32,
}

/// Kind of shutdown operation to perform on a socket.
#[derive(Debug, Clone, Copy, PartialEq, Eq, Structural)]
pub enum Shutdown {
    Read,
    Write,
    Both,
}

impl Shutdown {
    pub fn has_read(&self) -> (r: bool)
        ensures
            r == (*self == Shutdown::Read || *self == Shutdown::Both),
    {
        match self {
            Shutdown::Read | Shutdown::Both => true,
            Shutdown::Write => false,
        }
    }

    pub fn has_write(&self) -> (r: bool)
        ensures
            r == (*self == Shutdown::Write || *self == Shutdown::Both),
    {
        match self {
            Shutdown::Write | Shutdown::Both => true,
            Shutdown::Read => false,
        }
    }
}

/// The test made before binding to `addr`, unless the socket reuses
/// addresses: `bound` holds the local address of each TCP and UDP socket
/// (`None` when it has none). It fails when any socket is bound to `addr`,
/// whatever its port.
pub fn bind_check(bound: &Vec<Option<IpAddress>>, addr: IpAddress) -> (r: Result<(), LinuxError>)
    ensures
        r is Err <==> exists|i: int| 0 <= i < bound@.len() && #[trigger] bound@[i] == Some(addr),
        r is Err ==> r == Err::<(), LinuxError>(LinuxError::EADDRINUSE),
{
    let mut i: usize = 0;
    while i < bound.len()
        invariant
            i <= bound@.len(),
            forall|j: int| 0 <= j < i ==> #[trigger] bound@[j] != Some(addr),
        decreases bound@.len() - i,
    {
        if let Some(a) = bound[i] {
            if a == addr {
                return Err(LinuxError::EADDRINUSE);
            }
        }
        i += 1;
    }
    Ok(())
}

/// The test made before binding to `addr:port` in the newer stack: `bound`
/// holds the bound address (if any) and port of each TCP and UDP socket.
/// An automatic port (0) always passes; otherwise it fails when a socket
/// is bound to the same address and port.
pub fn bind_check_endpoint(bound: &Vec<(Option<IpAddress>, u16)>, addr: IpAddress, port: u16) -> (r: Result<(), AxError>)
    ensures
        r is Err <==> port != 0 && exists|i: int| 0 <= i < bound@.len() && #[trigger] bound@[i] == (Some(addr), port),
        r is Err ==> r == Err::<(), AxError>(AxError::AddrInUse),
{
    if port == 0 {
        return Ok(());
    }
    let mut i: usize = 0;
    while i < bound.len()
        invariant
            port != 0,
            i <= bound@.len(),
            forall|j: int| 0 <= j < i ==> #[trigger] bound@[j] != (Some(addr), port),
        decreases bound@.len() - i,
    {
        let (a, p) = bound[i];
        if let Some(a) = a {
            if a == addr && p == port {
                return Err(AxError::AddrInUse);
            }
        }
        i += 1;
    }
    Ok(())
}

} // verus!
