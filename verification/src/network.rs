//! The network benchmark: what its requests add up to.

use vstd::prelude::*;
#[allow(unused_imports)]
use crate::kernels::sum_of;

verus! {

/// What the network benchmark is asked for.
#[derive(Debug, Clone)]
pub struct NetworkArgs {
    pub target: String,
    pub duration: u64,
}

/// The seconds that are measured: at least one.
pub fn measured_secs(duration: u64) -> (r: u64)
    ensures
        r == if duration < 1 {
            1
        } else {
            duration
        },
{
    if duration < 1 {
        1
    } else {
        duration
    }
}

/// No request was answered in time.
#[derive(Debug, Clone, Copy, PartialEq, Eq, Structural)]
pub struct NoRequests;

impl NoRequests {
    /// What is said of it.
    pub fn message(&self) -> (r: &'static str)
        ensures
            r@ == "no network requests completed"@,
    {
        "no network requests completed"
    }
}

/// The answered requests and the bytes of the answers.
#[derive(Debug, Clone, Copy, PartialEq, Eq, Structural)]
pub struct NetworkTally {
    pub requests: u64,
    pub bytes: u64,
}

impl NetworkTally {
    /// Is this the tally of answers of these sizes?
    pub open spec fn counts(&self, answers: Seq<u64>) -> bool {
        &&& self.requests == answers.len()
        &&& self.bytes == sum_of(answers)
    }

    /// Before the first request.
    pub fn new() -> (r: Self)
        ensures
            r.counts(Seq::empty()),
            r.requests == 0,
            r.bytes == 0,
    {
        NetworkTally { requests: 0, bytes: 0 }
    }

    /// Whether an answer of `bytes` can be counted.
    pub open spec fn room(&self, bytes: u64) -> bool {
        self.requests < u64::MAX && self.bytes + bytes <= u64::MAX
    }

    /// Whether an answer of `bytes` can be counted.
    pub fn has_room(&self, bytes: u64) -> (r: bool)
        ensures
            r == self.room(bytes),
    {
        self.requests < u64::MAX && bytes <= u64::MAX - self.bytes
    }

    /// Counts an answer of `bytes`.
    pub fn record(&mut self, bytes: u64)
        requires
            old(self).room(bytes),
        ensures
            final(self).requests == old(self).requests + 1,
            final(self).bytes == old(self).bytes + bytes,
            forall|answers: Seq<u64>| #[trigger]
                old(self).counts(answers) ==> final(self).counts(answers.push(bytes)),
    {
        self.requests = self.requests + 1;
        self.bytes = self.bytes + bytes;
        proof {
            let before = *old(self);
            let after = *self;
            assert forall|answers: Seq<u64>| #[trigger] before.counts(answers) implies after.counts(
                answers.push(bytes),
            ) by {
                assert(answers.push(bytes).drop_last() =~= answers);
            }
        }
    }

    /// The tally at the end of the benchmark, which fails without a request.
    pub fn finish(&self) -> (r: Result<NetworkTally, NoRequests>)
        ensures
            r == if self.requests == 0 {
                Err::<NetworkTally, NoRequests>(NoRequests)
            } else {
                Ok(*self)
            },
    {
        if self.requests == 0 {
            Err(NoRequests)
        } else {
            Ok(*self)
        }
    }
}

/// A tally counts every answer once, and its bytes; there is room for another as long as 64 bits hold
/// both.
pub proof fn tally_counts_each_answer(tally: NetworkTally, answers: Seq<u64>, bytes: u64)
    ensures
        tally.counts(answers) ==> tally.requests == answers.len() && tally.bytes == sum_of(answers),
        tally.requests == answers.len() && tally.bytes == sum_of(answers) ==> tally.counts(answers),
        tally.room(bytes) <==> tally.requests + 1 < 0x1_0000_0000_0000_0000 && tally.bytes + bytes
            < 0x1_0000_0000_0000_0000,
{
}

} // verus!
