use crate::types::NodeId;
use vstd::prelude::*;

verus! {

/// Why scheduling can fail.
#[derive(Clone, Copy, Debug, PartialEq, Eq, Structural)]
pub enum ScheduleError {
    NoCapacity,
}

/// The first candidate in `avail` that is not forbidden, if any.
pub open spec fn spec_schedule_shard(avail: Seq<NodeId>, forbidden: Seq<NodeId>) -> Option<NodeId>
    decreases avail.len(),
{
    if avail.len() == 0 {
        None
    } else if !forbidden.contains(avail[0]) {
        Some(avail[0])
    } else {
        spec_schedule_shard(avail.subrange(1, avail.len() as int), forbidden)
    }
}

/// A successful pick comes from the candidate list and is never a
/// forbidden node.
pub proof fn lemma_schedule_shard_fresh(avail: Seq<NodeId>, forbidden: Seq<NodeId>, n: NodeId)
    requires
        spec_schedule_shard(avail, forbidden) == Some(n),
    ensures
        avail.contains(n),
        !forbidden.contains(n),
    decreases avail.len(),
{
    if avail.len() == 0 {
    } else if !forbidden.contains(avail[0]) {
        assert(avail[0] == n);
    } else {
        let rest = avail.subrange(1, avail.len() as int);
        lemma_schedule_shard_fresh(rest, forbidden, n);
        let i = choose|i: int| 0 <= i < rest.len() && rest[i] == n;
        assert(avail[i + 1] == n);
    }
}

/// Whether `n` occurs in `v`.
pub fn contains_node(v: &Vec<NodeId>, n: NodeId) -> (r: bool)
    ensures
        r == v@.contains(n),
{
    let mut i: usize = 0;
    while i < v.len()
        invariant
            i <= v.len(),
            forall|k: int| 0 <= k < i ==> v@[k] != n,
        decreases v.len() - i,
    {
        if v[i] == n {
            return true;
        }
        i += 1;
    }
    false
}

/// A simple placement scheduler over a fixed list of candidate nodes: a
/// request is answered with the first candidate that is not in the
/// caller's forbidden set, or fails with `NoCapacity` when every candidate
/// is forbidden.
pub struct Scheduler {
    pub nodes: Vec<NodeId>,
}

impl Scheduler {
    pub fn new(nodes: Vec<NodeId>) -> (r: Scheduler)
        ensures
            r.nodes@ == nodes@,
    {
        Scheduler { nodes }
    }

    /// Pick a node for one more location of a shard, avoiding the nodes the
    /// shard already uses.
    pub fn schedule_shard(&self, forbidden: &Vec<NodeId>) -> (r: Result<NodeId, ScheduleError>)
        ensures
            r == match spec_schedule_shard(self.nodes@, forbidden@) {
                Some(n) => Ok::<NodeId, ScheduleError>(n),
                None => Err::<NodeId, ScheduleError>(ScheduleError::NoCapacity),
            },
    {
        let n = self.nodes.len();
        proof {
            assert(self.nodes@.subrange(0, n as int) =~= self.nodes@);
        }
        let mut i: usize = 0;
        while i < n
            invariant
                i <= n,
                n == self.nodes@.len(),
                spec_schedule_shard(self.nodes@, forbidden@) == spec_schedule_shard(
                    self.nodes@.subrange(i as int, n as int),
                    forbidden@,
                ),
            decreases n - i,
        {
            let candidate = self.nodes[i];
            proof {
                assert(self.nodes@.subrange(i as int, n as int)[0] == candidate);
            }
            if !contains_node(forbidden, candidate) {
                return Ok(candidate);
            }
            proof {
                let tail = self.nodes@.subrange(i as int, n as int);
                assert(tail.subrange(1, tail.len() as int) =~= self.nodes@.subrange(
                    i + 1,
                    n as int,
                ));
            }
            i += 1;
        }
        Err(ScheduleError::NoCapacity)
    }
}

} // verus!
