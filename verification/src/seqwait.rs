use crate::types::Sequence;
use vstd::prelude::*;

verus! {

/// A monotone counter with a shutdown flag: the synchronous heart of a
/// "wait until the counter reaches `n`" facility.  Suspending until the
/// counter moves needs a runtime and lives outside the core; the core only
/// advances the counter and answers whether a waiter's target has been
/// reached.
pub struct SeqWait {
    pub current: Sequence,
    pub shutdown: bool,
}

impl SeqWait {
    pub fn new(start: Sequence) -> (r: SeqWait)
        ensures
            r.current == start,
            !r.shutdown,
    {
        SeqWait { current: start, shutdown: false }
    }

    /// Advance the counter to `n`.  Idempotent; never regresses.
    pub fn advance(&mut self, n: Sequence)
        ensures
            final(self).current.0 == if n.0 > old(self).current.0 {
                n.0
            } else {
                old(self).current.0
            },
            final(self).current.0 >= old(self).current.0,
            final(self).shutdown == old(self).shutdown,
    {
        if n.0 > self.current.0 {
            self.current = n;
        }
    }

    /// Whether a waiter with target `n` would be released.
    pub fn ready(&self, n: Sequence) -> (r: bool)
        ensures
            r == (self.current.0 >= n.0),
    {
        self.current.0 >= n.0
    }

    /// Mark the facility shut down; pending waits resolve with a shutdown
    /// error rather than blocking forever.
    pub fn shut_down(&mut self)
        ensures
            final(self).shutdown,
            final(self).current == old(self).current,
    {
        self.shutdown = true;
    }
}

} // verus!
