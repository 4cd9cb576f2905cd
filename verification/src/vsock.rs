use vstd::prelude::*;

use crate::errors::AxError;
use crate::state::State;

verus! {

/// The polling interval, in microseconds, after `idle` polls in a row
/// that found no event.
pub open spec fn interval_for(idle: u64) -> u64 {
    if idle <= 3 {
        100
    } else if idle <= 10 {
        500
    } else if idle <= 20 {
        2_000
    } else {
        10_000
    }
}

/// Slows polling down while the device stays idle.
pub struct PollFrequencyController {
    pub consecutive_idle: u64,
}

impl PollFrequencyController {
    pub fn new() -> (r: PollFrequencyController)
        ensures
            r.consecutive_idle == 0,
    {
        PollFrequencyController { consecutive_idle: 0 }
    }

    /// The interval, in microseconds, to wait before the next poll.
    pub fn current_interval(&self) -> (r: u64)
        ensures
            r == interval_for(self.consecutive_idle),
    {
        let idle = self.consecutive_idle;
        if idle <= 3 {
            100
        } else if idle <= 10 {
            500
        } else if idle <= 20 {
            2_000
        } else {
            10_000
        }
    }

    /// A poll found events: back to the fastest rate.
    pub fn on_event(&mut self)
        ensures
            final(self).consecutive_idle == 0,
    {
        self.consecutive_idle = 0;
    }

    /// A poll found nothing.
    pub fn on_idle(&mut self)
        ensures
            final(self).consecutive_idle == old(self).consecutive_idle.wrapping_add(1),
    {
        self.consecutive_idle = self.consecutive_idle.wrapping_add(1);
    }

    /// The idle count and the current interval.
    pub fn stats(&self) -> (r: (u64, u64))
        ensures
            r == (self.consecutive_idle, interval_for(self.consecutive_idle)),
    {
        (self.consecutive_idle, self.current_interval())
    }
}

/// The longer the device has been idle, the longer the wait.
pub proof fn lemma_interval_monotone(a: u64, b: u64)
    requires
        a <= b,
    ensures
        interval_for(a) <= interval_for(b),
        100 <= interval_for(a) <= 10_000,
{
}

/// After an event, polling is at its fastest whatever came before.
pub proof fn lemma_event_resets(c: PollFrequencyController, d: PollFrequencyController)
    requires
        d.consecutive_idle == 0,
    ensures
        interval_for(d.consecutive_idle) == 100,
        interval_for(d.consecutive_idle) <= interval_for(c.consecutive_idle),
{
}

/// The users of the polling task, and whether the task runs.
pub struct PollControl {
    pub ref_count: usize,
    pub task_running: bool,
}

impl PollControl {
    pub fn new() -> (r: PollControl)
        ensures
            r.ref_count == 0,
            !r.task_running,
    {
        PollControl { ref_count: 0, task_running: false }
    }

    /// A user starts polling. Returns whether the polling task must be
    /// spawned now: when this is the first user and no task runs.
    pub fn start(&mut self) -> (spawn: bool)
        requires
            old(self).ref_count < usize::MAX,
        ensures
            final(self).ref_count == old(self).ref_count + 1,
            spawn == (old(self).ref_count == 0 && !old(self).task_running),
            final(self).task_running == (old(self).task_running || old(self).ref_count == 0),
    {
        self.ref_count = self.ref_count + 1;
        if self.ref_count == 1 {
            if !self.task_running {
                self.task_running = true;
                return true;
            }
        }
        false
    }

    /// A user stops polling. Returns `false`, and changes nothing, when
    /// there was no user.
    pub fn stop(&mut self) -> (r: bool)
        ensures
            r == (old(self).ref_count > 0),
            final(self).task_running == old(self).task_running,
            final(self).ref_count == (if old(self).ref_count > 0 {
                old(self).ref_count - 1
            } else {
                0
            }),
    {
        if self.ref_count == 0 {
            return false;
        }
        self.ref_count = self.ref_count - 1;
        true
    }

    /// Asked by the polling task before each round: with no user left it
    /// marks itself stopped and must exit.
    pub fn task_should_exit(&mut self) -> (r: bool)
        ensures
            r == (old(self).ref_count == 0),
            final(self).ref_count == old(self).ref_count,
            final(self).task_running == (old(self).task_running && old(self).ref_count != 0),
    {
        if self.ref_count == 0 {
            self.task_running = false;
            true
        } else {
            false
        }
    }
}

/// Starting and then stopping a user leaves the count as it was.
pub proof fn lemma_start_stop(before: PollControl, mid: PollControl, after: PollControl)
    requires
        before.ref_count < usize::MAX,
        mid.ref_count == before.ref_count + 1,
        after.ref_count == (if mid.ref_count > 0 { mid.ref_count - 1 } else { 0 }),
    ensures
        after.ref_count == before.ref_count,
{
}

/// What to do with a "data received" event of a connection.
#[derive(Clone, Copy, Debug, PartialEq, Eq, Structural)]
pub enum ReceiveAction {
    /// The connection is unknown: drop the event.
    Drop,
    /// The connection's buffer is full: keep the event for the next round.
    Defer,
    /// Read up to this many bytes from the device.
    Read(usize),
}

/// The decision for data that arrived on a connection, given whether the
/// connection is known, its free receive space and the size of the
/// temporary buffer.
pub fn receive_action(known: bool, free_space: usize, buf_len: usize) -> (r: ReceiveAction)
    ensures
        !known ==> r == ReceiveAction::Drop,
        known && free_space == 0 ==> r == ReceiveAction::Defer,
        known && free_space > 0 ==> r == ReceiveAction::Read(
            if free_space < buf_len { free_space } else { buf_len },
        ),
{
    if !known {
        return ReceiveAction::Drop;
    }
    if free_space == 0 {
        return ReceiveAction::Defer;
    }
    let max_read = if free_space < buf_len {
        free_space
    } else {
        buf_len
    };
    ReceiveAction::Read(max_read)
}

/// The errors that a vsock device reports.
#[derive(Clone, Copy, Debug, PartialEq, Eq, Structural)]
pub enum DevError {
    AlreadyExists,
    Again,
    BadState,
    InvalidParam,
    Io,
    NoMemory,
    ResourceBusy,
    Unsupported,
}

/// The error of the socket layer for a device error.
pub open spec fn dev_error(e: DevError) -> AxError {
    match e {
        DevError::AlreadyExists => AxError::AlreadyExists,
        DevError::Again => AxError::WouldBlock,
        DevError::InvalidParam => AxError::InvalidInput,
        DevError::Io => AxError::Io,
        _ => AxError::BadState,
    }
}

/// The error of the socket layer for a device error.
pub fn map_dev_err(e: DevError) -> (r: AxError)
    ensures
        r == dev_error(e),
{
    match e {
        DevError::AlreadyExists => AxError::AlreadyExists,
        DevError::Again => AxError::WouldBlock,
        DevError::InvalidParam => AxError::InvalidInput,
        DevError::Io => AxError::Io,
        _ => AxError::BadState,
    }
}

/// How many times a send that the device refuses for lack of room is tried.
pub const SEND_MAX_RETRIES: usize = 10;

/// What follows one attempt to send.
#[derive(Clone, Copy, Debug, PartialEq, Eq, Structural)]
pub enum SendStep {
    /// The device took this many bytes.
    Sent(usize),
    /// The send failed.
    Failed(AxError),
    /// Wait for room and try again.
    Retry,
}

/// The decision after attempt number `attempt` (from 0) of a send came back
/// with `outcome`.
pub fn send_step(attempt: usize, outcome: Result<usize, DevError>) -> (r: SendStep)
    ensures
        outcome matches Ok(n) ==> r == SendStep::Sent(n),
        outcome matches Err(e) ==> (e != DevError::Again ==> r == SendStep::Failed(dev_error(e))),
        outcome == Err::<usize, DevError>(DevError::Again) ==> r == (if attempt + 1 < SEND_MAX_RETRIES {
            SendStep::Retry
        } else {
            SendStep::Failed(AxError::WouldBlock)
        }),
{
    match outcome {
        Ok(n) => SendStep::Sent(n),
        Err(DevError::Again) => {
            if attempt < SEND_MAX_RETRIES - 1 {
                SendStep::Retry
            } else {
                SendStep::Failed(map_dev_err(DevError::Again))
            }
        },
        Err(e) => SendStep::Failed(map_dev_err(e)),
    }
}

/// The error of `connect` on a vsock stream that is not idle: a listener
/// cannot connect, a connection in progress is reported as such, and any
/// other state is already connected.
pub fn stream_connect_error(current: State) -> (r: AxError)
    requires
        current != State::Idle,
    ensures
        r == (match current {
            State::Listening => AxError::InvalidInput,
            State::Connecting => AxError::InProgress,
            _ => AxError::AlreadyConnected,
        }),
{
    match current {
        State::Listening => AxError::InvalidInput,
        State::Connecting => AxError::InProgress,
        _ => AxError::AlreadyConnected,
    }
}

} // verus!
