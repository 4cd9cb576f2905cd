use vstd::prelude::*;

use crate::errors::AxError;

verus! {

/// Number of TCP ports.
pub const PORT_NUM: usize = 65536;

/// Longest SYN queue of a listening port.
pub const LISTEN_QUEUE_SIZE: usize = 512;

/// First port handed out automatically.
pub const PORT_START: u16 = 0xc000;

/// Last port handed out automatically.
pub const PORT_END: u16 = 0xffff;

/// For each TCP port, whether it listens and the sockets (by handle) that
/// wait there for their connection to be accepted, oldest first.
pub struct ListenTable {
    tcp: Vec<Option<Vec<usize>>>,
}

impl ListenTable {
    pub closed spec fn view(&self) -> Seq<Option<Seq<usize>>> {
        self.tcp@.map_values(|e: Option<Vec<usize>>| match e {
            Some(q) => Some(q@),
            None => None,
        })
    }

    pub closed spec fn wf(&self) -> bool {
        self.tcp@.len() == PORT_NUM
    }

    /// No port listens.
    pub fn new() -> (r: ListenTable)
        ensures
            r.wf(),
            r@.len() == PORT_NUM,
            forall|p: int| 0 <= p < PORT_NUM ==> #[trigger] r@[p] is None,
    {
        let mut tcp: Vec<Option<Vec<usize>>> = Vec::with_capacity(PORT_NUM);
        let mut i: usize = 0;
        while i < PORT_NUM
            invariant
                i <= PORT_NUM,
                tcp@.len() == i,
                forall|p: int| 0 <= p < i ==> #[trigger] tcp@[p] is None,
            decreases PORT_NUM - i,
        {
            tcp.push(None);
            i += 1;
        }
        ListenTable { tcp }
    }

    /// Port `port` does not listen.
    pub fn can_listen(&self, port: u16) -> (r: bool)
        requires
            self.wf(),
        ensures
            r == (self@[port as int] is None),
    {
        self.tcp[port as usize].is_none()
    }

    /// Starts listening on `port`.
    pub fn listen(&mut self, port: u16) -> (r: Result<(), AxError>)
        requires
            old(self).wf(),
        ensures
            final(self).wf(),
            port == 0 ==> r == Err::<(), AxError>(AxError::InvalidInput) && final(self)@ == old(self)@,
            port != 0 && old(self)@[port as int] is Some ==> r == Err::<(), AxError>(AxError::AddrInUse)
                && final(self)@ == old(self)@,
            port != 0 && old(self)@[port as int] is None ==> r is Ok && final(self)@ == old(self)@.update(
                port as int,
                Some(Seq::<usize>::empty()),
            ),
    {
        if port == 0 {
            return Err(AxError::InvalidInput);
        }
        if self.tcp[port as usize].is_none() {
            self.tcp.set(port as usize, Some(Vec::with_capacity(LISTEN_QUEUE_SIZE)));
            proof {
                assert(self@ =~= old(self)@.update(port as int, Some(Seq::<usize>::empty())));
            }
            Ok(())
        } else {
            Err(AxError::AddrInUse)
        }
    }

    /// Stops listening on `port`. Returns the sockets that waited there,
    /// which are to be destroyed.
    pub fn unlisten(&mut self, port: u16) -> (r: Vec<usize>)
        requires
            old(self).wf(),
        ensures
            final(self).wf(),
            final(self)@ == old(self)@.update(port as int, None),
            r@ == (match old(self)@[port as int] {
                Some(q) => q,
                None => Seq::empty(),
            }),
    {
        let mut taken: Option<Vec<usize>> = None;
        std::mem::swap(&mut taken, &mut self.tcp[port as usize]);
        proof {
            assert(self@ =~= old(self)@.update(port as int, None));
        }
        match taken {
            Some(q) => q,
            None => Vec::new(),
        }
    }

    /// Whether a socket waiting on `port` is connected; `connected[i]`
    /// tells whether the `i`-th waiting socket is.
    pub fn can_accept(&self, port: u16, connected: &Vec<bool>) -> (r: Result<bool, AxError>)
        requires
            self.wf(),
            self@[port as int] matches Some(q) ==> connected@.len() == q.len(),
        ensures
            self@[port as int] is None ==> r == Err::<bool, AxError>(AxError::InvalidInput),
            self@[port as int] is Some ==> r == Ok::<bool, AxError>(
                exists|i: int| 0 <= i < connected@.len() && #[trigger] connected@[i],
            ),
    {
        match &self.tcp[port as usize] {
            None => Err(AxError::InvalidInput),
            Some(_q) => {
                let mut i: usize = 0;
                while i < connected.len()
                    invariant
                        self.wf(),
                        self@[port as int] is Some,
                        i <= connected@.len(),
                        forall|j: int| 0 <= j < i ==> !#[trigger] connected@[j],
                    decreases connected@.len() - i,
                {
                    if connected[i] {
                        return Ok(true);
                    }
                    i += 1;
                }
                Ok(false)
            },
        }
    }

    /// Takes the first connected socket waiting on `port` off its queue;
    /// `connected[i]` tells whether the `i`-th waiting socket is.
    pub fn accept(&mut self, port: u16, connected: &Vec<bool>) -> (r: Result<usize, AxError>)
        requires
            old(self).wf(),
            old(self)@[port as int] matches Some(q) ==> connected@.len() == q.len(),
        ensures
            final(self).wf(),
            old(self)@[port as int] is None ==> r == Err::<usize, AxError>(AxError::InvalidInput)
                && final(self)@ == old(self)@,
            old(self)@[port as int] matches Some(q) ==> (if exists|i: int|
                0 <= i < q.len() && #[trigger] connected@[i] {
                exists|i: int|
                    0 <= i < q.len() && #[trigger] connected@[i] && (forall|j: int|
                        0 <= j < i ==> !#[trigger] connected@[j]) && r == Ok::<usize, AxError>(q[i])
                        && final(self)@ == old(self)@.update(port as int, Some(q.remove(i)))
            } else {
                r == Err::<usize, AxError>(AxError::WouldBlock) && final(self)@ == old(self)@
            }),
    {
        if self.tcp[port as usize].is_none() {
            return Err(AxError::InvalidInput);
        }
        let mut taken: Option<Vec<usize>> = None;
        std::mem::swap(&mut taken, &mut self.tcp[port as usize]);
        let mut q = match taken {
            Some(q) => q,
            None => Vec::new(),
        };
        let ghost q0 = q@;
        assert(old(self)@[port as int] == Some(q0));
        let ghost t0 = self.tcp@;
        let mut i: usize = 0;
        while i < q.len()
            invariant
                self.tcp@ == t0,
                t0 == old(self).tcp@.update(port as int, None),
                old(self).tcp@.len() == PORT_NUM,
                old(self)@[port as int] == Some(q0),
                q@ == q0,
                connected@.len() == q0.len(),
                i <= q0.len(),
                forall|j: int| 0 <= j < i ==> !#[trigger] connected@[j],
            decreases q0.len() - i,
        {
            if connected[i] {
                let handle = q.remove(i);
                self.tcp.set(port as usize, Some(q));
                proof {
                    assert(self@ =~= old(self)@.update(port as int, Some(q0.remove(i as int))));
                }
                return Ok(handle);
            }
            i += 1;
        }
        self.tcp.set(port as usize, Some(q));
        proof {
            assert(self@ =~= old(self)@);
        }
        Err(AxError::WouldBlock)
    }

    /// Whether a SYN packet for `port` makes a new waiting socket: the port
    /// listens and its queue is not full.
    pub fn accepts_syn(&self, port: u16) -> (r: bool)
        requires
            self.wf(),
        ensures
            r == (self@[port as int] matches Some(q) && q.len() < LISTEN_QUEUE_SIZE),
    {
        match &self.tcp[port as usize] {
            Some(q) => q.len() < LISTEN_QUEUE_SIZE,
            None => false,
        }
    }

    /// Whether an incoming TCP packet to `port` with flags `syn` and `ack`
    /// makes a new waiting socket: it opens a connection (SYN without ACK),
    /// the port listens and its queue is not full.
    pub fn wants_socket(&self, port: u16, syn: bool, ack: bool) -> (r: bool)
        requires
            self.wf(),
        ensures
            r == (syn && !ack && (self@[port as int] matches Some(q) && q.len() < LISTEN_QUEUE_SIZE)),
    {
        syn && !ack && self.accepts_syn(port)
    }

    /// Puts the socket `handle`, made for a SYN packet to `port`, at the end
    /// of the port's queue.
    pub fn push_syn(&mut self, port: u16, handle: usize)
        requires
            old(self).wf(),
            old(self)@[port as int] matches Some(q) && q.len() < LISTEN_QUEUE_SIZE,
        ensures
            final(self).wf(),
            final(self)@ == old(self)@.update(port as int, Some(old(self)@[port as int]->0.push(handle))),
    {
        let mut taken: Option<Vec<usize>> = None;
        std::mem::swap(&mut taken, &mut self.tcp[port as usize]);
        let mut q = match taken {
            Some(q) => q,
            None => Vec::new(),
        };
        q.push(handle);
        self.tcp.set(port as usize, Some(q));
        proof {
            assert(self@ =~= old(self)@.update(port as int, Some(old(self)@[port as int]->0.push(handle))));
        }
    }
}

/// The automatic port after `c`, wrapping from the last to the first.
pub open spec fn next_port(c: u16) -> u16 {
    if c == PORT_END {
        PORT_START
    } else {
        (c + 1) as u16
    }
}

/// The automatic port `k` steps after `c`.
pub open spec fn port_after(c: u16, k: nat) -> u16
    decreases k,
{
    if k == 0 {
        c
    } else {
        next_port(port_after(c, (k - 1) as nat))
    }
}

/// Hands out automatic ports in turn from `PORT_START` to `PORT_END`.
pub struct PortAllocator {
    curr: u16,
}

impl PortAllocator {
    pub closed spec fn view(&self) -> u16 {
        self.curr
    }

    pub fn new() -> (r: PortAllocator)
        ensures
            r@ == PORT_START,
    {
        PortAllocator { curr: PORT_START }
    }

    /// The next automatic port, whether or not it is in use.
    pub fn next(&mut self) -> (r: u16)
        ensures
            r == old(self)@,
            final(self)@ == next_port(old(self)@),
    {
        let port = self.curr;
        if self.curr == PORT_END {
            self.curr = PORT_START;
        } else {
            self.curr = self.curr + 1;
        }
        port
    }

    /// The next automatic port on which no socket listens, trying each
    /// automatic port once.
    pub fn next_free(&mut self, table: &ListenTable) -> (r: Result<u16, AxError>)
        requires
            table.wf(),
        ensures
            r matches Ok(p) ==> exists|k: nat|
                k < 16384 && p == #[trigger] port_after(old(self)@, k) && table@[p as int] is None && (forall|j: nat|
                    j < k ==> !(table@[#[trigger] port_after(old(self)@, j) as int] is None))
                    && final(self)@ == port_after(old(self)@, k + 1),
            r is Err ==> r == Err::<u16, AxError>(AxError::AddrInUse) && (forall|j: nat|
                j < 16384 ==> !(table@[#[trigger] port_after(old(self)@, j) as int] is None))
                && final(self)@ == port_after(old(self)@, 16384),
    {
        let mut tries: u16 = 0;
        while tries <= PORT_END - PORT_START
            invariant
                table.wf(),
                tries <= 16384,
                self@ == port_after(old(self)@, tries as nat),
                forall|j: nat| j < tries ==> !(table@[#[trigger] port_after(old(self)@, j) as int] is None),
            decreases 16384 - tries,
        {
            let port = self.next();
            if table.can_listen(port) {
                return Ok(port);
            }
            tries += 1;
        }
        Err(AxError::AddrInUse)
    }
}

/// Every automatic port comes round again after as many steps as there
/// are automatic ports.
pub proof fn lemma_port_cycle(c: u16, k: nat)
    requires
        PORT_START <= c,
    ensures
        PORT_START <= port_after(c, k),
        port_after(c, k) == PORT_START + (c - PORT_START + k) % 16384,
    decreases k,
{
    if k > 0 {
        lemma_port_cycle(c, (k - 1) as nat);
    }
}

/// Listening on a free port and then stopping leaves the table as it was,
/// and gives back no waiting socket.
pub proof fn lemma_listen_unlisten(t: Seq<Option<Seq<usize>>>, port: u16)
    requires
        port < t.len(),
        t[port as int] is None,
    ensures
        t.update(port as int, Some(Seq::<usize>::empty())).update(port as int, None) == t,
{
    assert(t.update(port as int, Some(Seq::<usize>::empty())).update(port as int, None) =~= t);
}

} // verus!
