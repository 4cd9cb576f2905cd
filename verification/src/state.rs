use vstd::prelude::*;

verus! {

/// The life-cycle state of a socket.
#[derive(Clone, Copy, Debug, PartialEq, Eq, Structural)]
pub enum State {
    Idle,
    Busy,
    Connecting,
    Connected,
    Listening,
    Closed,
}

pub open spec fn state_code(s: State) -> u8 {
    match s {
        State::Idle => 0,
        State::Busy => 1,
        State::Connecting => 2,
        State::Connected => 3,
        State::Listening => 4,
        State::Closed => 5,
    }
}

pub open spec fn state_of_code(v: u8) -> Option<State> {
    if v == 0 {
        Some(State::Idle)
    } else if v == 1 {
        Some(State::Busy)
    } else if v == 2 {
        Some(State::Connecting)
    } else if v == 3 {
        Some(State::Connected)
    } else if v == 4 {
        Some(State::Listening)
    } else if v == 5 {
        Some(State::Closed)
    } else {
        None
    }
}

impl State {
    /// The number that stands for the state.
    pub fn code(&self) -> (r: u8)
        ensures
            r == state_code(*self),
    {
        match self {
            State::Idle => 0,
            State::Busy => 1,
            State::Connecting => 2,
            State::Connected => 3,
            State::Listening => 4,
            State::Closed => 5,
        }
    }

    /// The state that `value` stands for.
    pub fn try_from_code(value: u8) -> (r: Result<State, ()>)
        ensures
            r == (match state_of_code(value) {
                Some(s) => Ok::<State, ()>(s),
                None => Err(()),
            }),
    {
        match value {
            0 => Ok(State::Idle),
            1 => Ok(State::Busy),
            2 => Ok(State::Connecting),
            3 => Ok(State::Connected),
            4 => Ok(State::Listening),
            5 => Ok(State::Closed),
            _ => Err(()),
        }
    }
}

/// Each state's number stands for it again.
pub proof fn lemma_state_code_roundtrip(s: State)
    ensures
        state_of_code(state_code(s)) == Some(s),
{
}

/// A socket state that a caller takes (`lock`) before it works on the
/// socket, and then moves on (`transit`). It keeps the state's number, which
/// always stands for a state.
pub struct StateLock {
    code: u8,
}

/// Proof of a taken `StateLock`: the state it was taken in.
#[must_use]
pub struct StateGuard {
    prev: State,
}

impl StateLock {
    #[verifier::type_invariant]
    closed spec fn code_stands_for_state(&self) -> bool {
        state_of_code(self.code) is Some
    }

    /// The number the lock keeps.
    pub closed spec fn stored_code(&self) -> u8 {
        self.code
    }

    pub closed spec fn view(&self) -> State {
        state_of_code(self.code)->0
    }

    pub fn new(state: State) -> (r: StateLock)
        ensures
            r@ == state,
            r.stored_code() == state_code(state),
    {
        StateLock { code: state.code() }
    }

    /// The state the lock is in; the number it keeps always stands for one.
    pub fn get(&self) -> (r: State)
        ensures
            r == self@,
            state_code(r) == self.stored_code(),
    {
        proof {
            use_type_invariant(self);
        }
        match State::try_from_code(self.code) {
            Ok(s) => s,
            Err(_) => {
                proof {
                    assert(false);
                }
                State::Idle
            },
        }
    }

    pub fn set(&mut self, state: State)
        ensures
            final(self)@ == state,
            final(self).stored_code() == state_code(state),
    {
        self.code = state.code();
    }

    /// Takes the lock when the state is `expect`, making it `Busy`;
    /// otherwise gives the state it is in.
    pub fn lock(&mut self, expect: State) -> (r: Result<StateGuard, State>)
        ensures
            old(self)@ == expect ==> final(self)@ == State::Busy && (r matches Ok(g) && g.prev() == expect),
            old(self)@ != expect ==> final(self)@ == old(self)@ && r == Err::<StateGuard, State>(old(self)@),
            final(self).stored_code() == state_code(final(self)@),
    {
        proof {
            use_type_invariant(&*self);
        }
        if self.code == expect.code() {
            self.code = State::Busy.code();
            Ok(StateGuard { prev: expect })
        } else {
            Err(self.get())
        }
    }
}

impl StateGuard {
    pub closed spec fn prev(&self) -> State {
        self.prev
    }

    /// Does the work begun by `lock`: runs `f`; on success the state becomes
    /// `new`, on failure it goes back to what it was; the outcome is passed on.
    pub fn transit<R, E, F: FnOnce() -> Result<R, E>>(self, lock: &mut StateLock, new: State, f: F) -> (r: Result<R, E>)
        requires
            f.requires(()),
        ensures
            f.ensures((), r),
            r is Ok ==> final(lock)@ == new,
            r is Err ==> final(lock)@ == self.prev(),
            final(lock).stored_code() == state_code(final(lock)@),
    {
        match f() {
            Ok(v) => {
                lock.set(new);
                Ok(v)
            },
            Err(e) => {
                lock.set(self.prev);
                Err(e)
            },
        }
    }
}

/// Whatever calls a lock has gone through, the number it keeps stands for
/// its state, so reading it never fails: every constructor and mutator of
/// `StateLock` ends with `stored_code() == state_code(@)`, and `get` gives
/// that state back.
pub proof fn lemma_stored_code_decodes(l: StateLock)
    requires
        l.stored_code() == state_code(l@),
    ensures
        state_of_code(l.stored_code()) == Some(l@),
{
}

/// Work that fails between `lock` and `transit` leaves the lock in the
/// state it had before `lock`: `before` is the lock that `lock` took, with
/// `guard`, and `after` the lock after `transit` of failed work.
pub proof fn lemma_failed_transit_restores(before: StateLock, guard: StateGuard, after: StateLock)
    requires
        guard.prev() == before@,
        after@ == guard.prev(),
    ensures
        after@ == before@,
{
}

} // verus!
