use vstd::prelude::*;

use crate::errors::LinuxError;

verus! {

/// Credentials of a process, as `struct ucred` in Linux.
#[derive(Default, Debug, Clone, Copy, PartialEq, Eq, Structural)]
pub struct UnixCredentials {
    pub pid: u32,
    pub uid: u32,
    pub gid: u32,
}

impl UnixCredentials {
    /// Credentials of process `pid` with user and group 0.
    pub fn new(pid: u32) -> (r: UnixCredentials)
        ensures
            r == (UnixCredentials { pid, uid: 0, gid: 0 }),
    {
        UnixCredentials { pid, uid: 0, gid: 0 }
    }
}

/// A socket option to set, with its value. Timeouts are in nanoseconds.
#[derive(Clone, Copy, Debug, PartialEq, Eq, Structural)]
pub enum SetSocketOption {
    ReuseAddress(bool),
    Error(i32),
    DontRoute(bool),
    SendBuffer(usize),
    ReceiveBuffer(usize),
    KeepAlive(bool),
    SendTimeout(u128),
    ReceiveTimeout(u128),
    SendBufferForce(usize),
    PassCredentials(bool),
    PeerCredentials(UnixCredentials),
    NoDelay(bool),
    MaxSegment(usize),
    TcpInfo,
    Ttl(u8),
    NonBlocking(bool),
}

/// A socket option to read.
#[derive(Clone, Copy, Debug, PartialEq, Eq, Structural)]
pub enum GetSocketOption {
    ReuseAddress,
    Error,
    DontRoute,
    SendBuffer,
    ReceiveBuffer,
    KeepAlive,
    SendTimeout,
    ReceiveTimeout,
    SendBufferForce,
    PassCredentials,
    PeerCredentials,
    NoDelay,
    MaxSegment,
    TcpInfo,
    Ttl,
    NonBlocking,
}

/// The value of a socket option that was read. Timeouts are in nanoseconds.
#[derive(Clone, Copy, Debug, PartialEq, Eq, Structural)]
pub enum OptionValue {
    Bool(bool),
    Int(i32),
    Size(usize),
    Nanos(u64),
    Credentials(UnixCredentials),
    Ttl(u8),
    Unit,
}

/// Options that every socket has.
pub struct GeneralOptions {
    nonblock: bool,
    reuse_address: bool,
    send_timeout_nanos: u64,
    recv_timeout_nanos: u64,
    externally_driven: bool,
}

/// The plain contents of `GeneralOptions`.
pub struct GeneralOptionsView {
    pub nonblock: bool,
    pub reuse_address: bool,
    pub send_timeout_nanos: u64,
    pub recv_timeout_nanos: u64,
    pub externally_driven: bool,
}

/// What reading `opt` gives, or `None` when these options do not hold it.
pub open spec fn get_spec(o: GeneralOptionsView, opt: GetSocketOption) -> Option<OptionValue> {
    match opt {
        GetSocketOption::Error => Some(OptionValue::Int(0)),
        GetSocketOption::NonBlocking => Some(OptionValue::Bool(o.nonblock)),
        GetSocketOption::ReuseAddress => Some(OptionValue::Bool(o.reuse_address)),
        GetSocketOption::SendTimeout => Some(OptionValue::Nanos(o.send_timeout_nanos)),
        GetSocketOption::ReceiveTimeout => Some(OptionValue::Nanos(o.recv_timeout_nanos)),
        _ => None,
    }
}

/// Whether these options take `opt`.
pub open spec fn set_supported(opt: SetSocketOption) -> bool {
    match opt {
        SetSocketOption::NonBlocking(_) | SetSocketOption::ReuseAddress(_) | SetSocketOption::SendTimeout(_)
        | SetSocketOption::ReceiveTimeout(_) | SetSocketOption::SendBuffer(_)
        | SetSocketOption::ReceiveBuffer(_) => true,
        _ => false,
    }
}

/// The options after setting `opt`; timeouts keep the low 64 bits of
/// their nanoseconds.
pub open spec fn set_spec(o: GeneralOptionsView, opt: SetSocketOption) -> GeneralOptionsView {
    match opt {
        SetSocketOption::NonBlocking(b) => GeneralOptionsView { nonblock: b, ..o },
        SetSocketOption::ReuseAddress(b) => GeneralOptionsView { reuse_address: b, ..o },
        SetSocketOption::SendTimeout(n) => GeneralOptionsView { send_timeout_nanos: n as u64, ..o },
        SetSocketOption::ReceiveTimeout(n) => GeneralOptionsView { recv_timeout_nanos: n as u64, ..o },
        _ => o,
    }
}

impl GeneralOptions {
    pub closed spec fn view(&self) -> GeneralOptionsView {
        GeneralOptionsView {
            nonblock: self.nonblock,
            reuse_address: self.reuse_address,
            send_timeout_nanos: self.send_timeout_nanos,
            recv_timeout_nanos: self.recv_timeout_nanos,
            externally_driven: self.externally_driven,
        }
    }

    /// Blocking, no address reuse, no timeouts, not externally driven.
    pub fn new() -> (r: GeneralOptions)
        ensures
            r@ == (GeneralOptionsView {
                nonblock: false,
                reuse_address: false,
                send_timeout_nanos: 0,
                recv_timeout_nanos: 0,
                externally_driven: false,
            }),
    {
        GeneralOptions {
            nonblock: false,
            reuse_address: false,
            send_timeout_nanos: 0,
            recv_timeout_nanos: 0,
            externally_driven: false,
        }
    }

    pub fn nonblocking(&self) -> (r: bool)
        ensures
            r == self@.nonblock,
    {
        self.nonblock
    }

    pub fn reuse_address(&self) -> (r: bool)
        ensures
            r == self@.reuse_address,
    {
        self.reuse_address
    }

    /// The send timeout in nanoseconds, if one is set.
    pub fn send_timeout(&self) -> (r: Option<u64>)
        ensures
            r == (if self@.send_timeout_nanos > 0 {
                Some(self@.send_timeout_nanos)
            } else {
                None
            }),
    {
        if self.send_timeout_nanos > 0 {
            Some(self.send_timeout_nanos)
        } else {
            None
        }
    }

    /// The receive timeout in nanoseconds, if one is set.
    pub fn recv_timeout(&self) -> (r: Option<u64>)
        ensures
            r == (if self@.recv_timeout_nanos > 0 {
                Some(self@.recv_timeout_nanos)
            } else {
                None
            }),
    {
        if self.recv_timeout_nanos > 0 {
            Some(self.recv_timeout_nanos)
        } else {
            None
        }
    }

    pub fn set_externally_driven(&mut self, driven: bool)
        ensures
            final(self)@ == (GeneralOptionsView { externally_driven: driven, ..old(self)@ }),
    {
        self.externally_driven = driven;
    }

    pub fn externally_driven(&self) -> (r: bool)
        ensures
            r == self@.externally_driven,
    {
        self.externally_driven
    }

    /// Reads `opt`; `None` when these options do not hold it.
    pub fn get_option_inner(&self, opt: GetSocketOption) -> (r: Option<OptionValue>)
        ensures
            r == get_spec(self@, opt),
    {
        match opt {
            GetSocketOption::Error => Some(OptionValue::Int(0)),
            GetSocketOption::NonBlocking => Some(OptionValue::Bool(self.nonblock)),
            GetSocketOption::ReuseAddress => Some(OptionValue::Bool(self.reuse_address)),
            GetSocketOption::SendTimeout => Some(OptionValue::Nanos(self.send_timeout_nanos)),
            GetSocketOption::ReceiveTimeout => Some(OptionValue::Nanos(self.recv_timeout_nanos)),
            _ => None,
        }
    }

    /// Sets `opt`; returns whether these options take it.
    pub fn set_option_inner(&mut self, opt: SetSocketOption) -> (r: bool)
        ensures
            r == set_supported(opt),
            final(self)@ == set_spec(old(self)@, opt),
    {
        match opt {
            SetSocketOption::NonBlocking(b) => {
                self.nonblock = b;
            },
            SetSocketOption::ReuseAddress(b) => {
                self.reuse_address = b;
            },
            SetSocketOption::SendTimeout(n) => {
                self.send_timeout_nanos = n as u64;
            },
            SetSocketOption::ReceiveTimeout(n) => {
                self.recv_timeout_nanos = n as u64;
            },
            SetSocketOption::SendBuffer(_) | SetSocketOption::ReceiveBuffer(_) => {},
            _ => {
                return false;
            },
        }
        true
    }

    /// Reads `opt`, failing with `ENOPROTOOPT` when these options do not hold it.
    pub fn get_option(&self, opt: GetSocketOption) -> (r: Result<OptionValue, LinuxError>)
        ensures
            r == (match get_spec(self@, opt) {
                Some(v) => Ok::<OptionValue, LinuxError>(v),
                None => Err(LinuxError::ENOPROTOOPT),
            }),
    {
        match self.get_option_inner(opt) {
            Some(v) => Ok(v),
            None => Err(LinuxError::ENOPROTOOPT),
        }
    }

    /// Sets `opt`, failing with `ENOPROTOOPT` when these options do not take it.
    pub fn set_option(&mut self, opt: SetSocketOption) -> (r: Result<(), LinuxError>)
        ensures
            r == (if set_supported(opt) {
                Ok::<(), LinuxError>(())
            } else {
                Err(LinuxError::ENOPROTOOPT)
            }),
            final(self)@ == set_spec(old(self)@, opt),
    {
        if self.set_option_inner(opt) {
            Ok(())
        } else {
            Err(LinuxError::ENOPROTOOPT)
        }
    }
}

/// A flag option reads back as it was set, and setting it leaves the
/// other options alone.
pub proof fn lemma_flag_roundtrip(o: GeneralOptionsView, b: bool)
    ensures
        get_spec(set_spec(o, SetSocketOption::NonBlocking(b)), GetSocketOption::NonBlocking) == Some(
            OptionValue::Bool(b),
        ),
        get_spec(set_spec(o, SetSocketOption::ReuseAddress(b)), GetSocketOption::ReuseAddress) == Some(
            OptionValue::Bool(b),
        ),
        get_spec(set_spec(o, SetSocketOption::NonBlocking(b)), GetSocketOption::ReuseAddress) == get_spec(
            o,
            GetSocketOption::ReuseAddress,
        ),
        get_spec(set_spec(o, SetSocketOption::ReuseAddress(b)), GetSocketOption::NonBlocking) == get_spec(
            o,
            GetSocketOption::NonBlocking,
        ),
{
}

/// A timeout reads back as the low 64 bits of the nanoseconds it was set
/// to, so exactly when those fit in 64 bits.
pub proof fn lemma_timeout_roundtrip(o: GeneralOptionsView, nanos: u128)
    ensures
        get_spec(set_spec(o, SetSocketOption::SendTimeout(nanos)), GetSocketOption::SendTimeout) == Some(
            OptionValue::Nanos(nanos as u64),
        ),
        get_spec(set_spec(o, SetSocketOption::ReceiveTimeout(nanos)), GetSocketOption::ReceiveTimeout)
            == Some(OptionValue::Nanos(nanos as u64)),
        nanos <= u64::MAX ==> (nanos as u64) == nanos,
{
}

/// Whether reading `g` gives back what setting `opt` sets.
pub open spec fn read_back_by(opt: SetSocketOption, g: GetSocketOption) -> bool {
    match (opt, g) {
        (SetSocketOption::NonBlocking(_), GetSocketOption::NonBlocking) => true,
        (SetSocketOption::ReuseAddress(_), GetSocketOption::ReuseAddress) => true,
        (SetSocketOption::SendTimeout(_), GetSocketOption::SendTimeout) => true,
        (SetSocketOption::ReceiveTimeout(_), GetSocketOption::ReceiveTimeout) => true,
        _ => false,
    }
}

/// Setting an option changes only that option: every option read by
/// another getter reads as before, and whether the socket is driven from
/// outside is never touched. In particular setting the send timeout
/// leaves the receive timeout, and the reverse.
pub proof fn lemma_set_changes_only_its_option(o: GeneralOptionsView, opt: SetSocketOption, g: GetSocketOption)
    ensures
        !read_back_by(opt, g) ==> get_spec(set_spec(o, opt), g) == get_spec(o, g),
        set_spec(o, opt).externally_driven == o.externally_driven,
        opt matches SetSocketOption::SendTimeout(_) ==> set_spec(o, opt).recv_timeout_nanos == o.recv_timeout_nanos
            && set_spec(o, opt).nonblock == o.nonblock && set_spec(o, opt).reuse_address == o.reuse_address,
        opt matches SetSocketOption::ReceiveTimeout(_) ==> set_spec(o, opt).send_timeout_nanos
            == o.send_timeout_nanos && set_spec(o, opt).nonblock == o.nonblock && set_spec(o, opt).reuse_address
            == o.reuse_address,
        opt matches SetSocketOption::NonBlocking(_) ==> set_spec(o, opt).send_timeout_nanos == o.send_timeout_nanos
            && set_spec(o, opt).recv_timeout_nanos == o.recv_timeout_nanos && set_spec(o, opt).reuse_address
            == o.reuse_address,
        opt matches SetSocketOption::ReuseAddress(_) ==> set_spec(o, opt).send_timeout_nanos
            == o.send_timeout_nanos && set_spec(o, opt).recv_timeout_nanos == o.recv_timeout_nanos && set_spec(
            o,
            opt,
        ).nonblock == o.nonblock,
{
}

} // verus!
