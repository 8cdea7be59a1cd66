//! The decisions of the server's accept loop and of its shutdown, and the
//! registry of the workers it has started. The socket, the shared running
//! flag and the threads belong to the caller.

use vstd::prelude::*;

verus! {

/// How long the accept loop, a connection with nothing to read, and a
/// waiting `stop` sleep between two polls, in milliseconds.
pub const POLL_INTERVAL_MS: u64 = 100;

/// How long `stop` waits for the accept loop to end, in milliseconds.
pub const STOP_TIMEOUT_MS: u64 = 5000;

/// What one non-blocking accept gave.
#[derive(Clone, Copy, Debug, PartialEq, Eq, Structural)]
pub enum AcceptOutcome {
    Accepted,
    WouldBlock,
    Failed,
}

/// What the accept loop does next.
#[derive(Clone, Copy, Debug, PartialEq, Eq, Structural)]
pub enum AcceptStep {
    /// Start a worker for the new connection and register it.
    Spawn,
    /// Sleep one polling interval.
    Wait,
    /// Report the failure and go on accepting.
    Report,
}

/// Decides what the accept loop does after one accept. No outcome ends
/// the loop: only the running flag does.
pub fn on_accept(outcome: AcceptOutcome) -> (r: AcceptStep)
    ensures
        outcome == AcceptOutcome::Accepted <==> r == AcceptStep::Spawn,
        outcome == AcceptOutcome::WouldBlock <==> r == AcceptStep::Wait,
        outcome == AcceptOutcome::Failed <==> r == AcceptStep::Report,
{
    match outcome {
        AcceptOutcome::Accepted => AcceptStep::Spawn,
        AcceptOutcome::WouldBlock => AcceptStep::Wait,
        AcceptOutcome::Failed => AcceptStep::Report,
    }
}

/// What a call of `stop` does.
#[derive(Clone, Copy, Debug, PartialEq, Eq, Structural)]
pub enum StopStep {
    /// Clear the running flag and wait for the loop to end.
    Signal,
    /// The server was not running: report it and do nothing.
    AlreadyStopped,
}

/// The step `stop` takes, and the running flag after it.
pub open spec fn stop_spec(running: bool) -> (StopStep, bool) {
    if running {
        (StopStep::Signal, false)
    } else {
        (StopStep::AlreadyStopped, false)
    }
}

/// Decides what `stop` does given the running flag, and the flag it leaves.
pub fn on_stop(running: bool) -> (r: (StopStep, bool))
    ensures
        r == stop_spec(running),
{
    if running {
        (StopStep::Signal, false)
    } else {
        (StopStep::AlreadyStopped, false)
    }
}

/// Once `stop` has run, another `stop` is a no-op that only reports: it
/// takes the `AlreadyStopped` step and leaves the flag as it was. A server
/// that never ran is in that state from the start.
pub proof fn lemma_second_stop_is_noop(running: bool)
    ensures
        stop_spec(stop_spec(running).1) == (StopStep::AlreadyStopped, stop_spec(running).1),
        stop_spec(false) == (StopStep::AlreadyStopped, false),
{
}

/// What `stop` does while it waits for the loop to end.
#[derive(Clone, Copy, Debug, PartialEq, Eq, Structural)]
pub enum StopWait {
    /// The loop has ended.
    Stopped,
    /// The wait is over: warn and return anyway.
    TimedOut,
    /// Sleep one polling interval and look again.
    Sleep,
}

/// Decides one round of `stop`'s wait, given whether the server still
/// runs and how long the wait has lasted.
pub fn stop_wait_step(still_running: bool, elapsed_ms: u64) -> (r: StopWait)
    ensures
        !still_running ==> r == StopWait::Stopped,
        still_running && elapsed_ms > STOP_TIMEOUT_MS ==> r == StopWait::TimedOut,
        still_running && elapsed_ms <= STOP_TIMEOUT_MS ==> r == StopWait::Sleep,
{
    if !still_running {
        StopWait::Stopped
    } else if elapsed_ms > STOP_TIMEOUT_MS {
        StopWait::TimedOut
    } else {
        StopWait::Sleep
    }
}

/// The workers started for connections, kept until shutdown joins them.
pub struct Registry<T> {
    items: Vec<T>,
}

impl<T> View for Registry<T> {
    type V = Seq<T>;

    closed spec fn view(&self) -> Seq<T> {
        self.items@
    }
}

impl<T> Registry<T> {
    /// An empty registry.
    pub fn new() -> (r: Registry<T>)
        ensures
            r@ == Seq::<T>::empty(),
    {
        Registry { items: Vec::new() }
    }

    /// Registers one worker.
    pub fn push(&mut self, item: T)
        ensures
            final(self)@ == old(self)@.push(item),
    {
        self.items.push(item);
    }

    /// The number of workers registered.
    pub fn len(&self) -> (r: usize)
        ensures
            r == self@.len(),
    {
        self.items.len()
    }

    /// Takes every worker out, the last registered first, and leaves the
    /// registry empty.
    pub fn drain(&mut self) -> (r: Vec<T>)
        ensures
            final(self)@ == Seq::<T>::empty(),
            r@.len() == old(self)@.len(),
            forall|i: int| 0 <= i < r@.len() ==> r@[i] == old(self)@[old(self)@.len() - 1 - i],
    {
        let mut out: Vec<T> = Vec::new();
        let ghost orig = self.items@;
        while self.items.len() > 0
            invariant
                self.items@ == orig.take(self.items@.len() as int),
                out@.len() + self.items@.len() == orig.len(),
                forall|i: int| 0 <= i < out@.len() ==> out@[i] == orig[orig.len() - 1 - i],
            decreases self.items@.len(),
        {
            let x = self.items.pop().unwrap();
            out.push(x);
        }
        assert(self.items@ =~= Seq::<T>::empty());
        out
    }
}

} // verus!
