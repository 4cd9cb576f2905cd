use vstd::prelude::*;

verus! {

/// Linux error numbers that the kernel modules report.
#[derive(Clone, Copy, Debug, PartialEq, Eq, Structural)]
pub enum LinuxError {
    EINVAL,
    EADDRINUSE,
    EAFNOSUPPORT,
    ENOPROTOOPT,
    EAGAIN,
    ENOTCONN,
    ECONNREFUSED,
    EFAULT,
    EPIPE,
    EISCONN,
    ECONNRESET,
    ETIMEDOUT,
}

/// Errors of the kernel modules.
#[derive(Clone, Copy, Debug, PartialEq, Eq, Structural)]
pub enum AxError {
    AddrInUse,
    AlreadyConnected,
    AlreadyExists,
    BadAddress,
    BadState,
    ConnectionRefused,
    InProgress,
    InvalidInput,
    Io,
    NoMemory,
    NotConnected,
    NotFound,
    OperationNotSupported,
    PermissionDenied,
    ResourceBusy,
    WouldBlock,
    Other(LinuxError),
}

} // verus!
