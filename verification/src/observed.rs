use crate::types::{LocationConfig, NodeId};
use vstd::pervasive::VecAdditionalExecFns;
use vstd::prelude::*;

verus! {

/// Our latest knowledge of how this shard is configured on one node.
///
/// `conf == None` means we might have some state on that node but do not
/// know what it is (e.g. an earlier configuration attempt failed partway
/// through).  `conf == Some(c)` means `c` is what we last successfully
/// installed there, and it is still present unless something external
/// interfered.
#[derive(Clone, Copy, Debug)]
pub struct ObservedStateLocation {
    pub conf: Option<LocationConfig>,
}

/// One observed node together with its location.
#[derive(Clone, Copy, Debug)]
pub struct ObservedEntry {
    pub node: NodeId,
    pub loc: ObservedStateLocation,
}

/// Best-effort knowledge of the locations configured for this shard, one
/// entry per node.  A node with no entry is known to have nothing
/// configured for this shard.
#[derive(Debug)]
pub struct ObservedState {
    pub locations: Vec<ObservedEntry>,
}

/// The location recorded for `node`, if any: the first entry whose node
/// matches.
pub open spec fn spec_lookup(entries: Seq<ObservedEntry>, node: NodeId) -> Option<
    ObservedStateLocation,
>
    decreases entries.len(),
{
    if entries.len() == 0 {
        None
    } else if entries[0].node == node {
        Some(entries[0].loc)
    } else {
        spec_lookup(entries.subrange(1, entries.len() as int), node)
    }
}

/// If `entries[i]` is the first entry for `node`, the lookup finds it.
pub proof fn lemma_lookup_at(entries: Seq<ObservedEntry>, node: NodeId, i: int)
    requires
        0 <= i < entries.len(),
        entries[i].node == node,
        forall|k: int| 0 <= k < i ==> entries[k].node != node,
    ensures
        spec_lookup(entries, node) == Some(entries[i].loc),
    decreases i,
{
    if i == 0 {
    } else {
        let rest = entries.subrange(1, entries.len() as int);
        assert(rest[i - 1] == entries[i]);
        lemma_lookup_at(rest, node, i - 1);
    }
}

/// If no entry is for `node`, the lookup finds nothing.
pub proof fn lemma_lookup_none(entries: Seq<ObservedEntry>, node: NodeId)
    requires
        forall|k: int| 0 <= k < entries.len() ==> entries[k].node != node,
    ensures
        spec_lookup(entries, node) is None,
    decreases entries.len(),
{
    if entries.len() == 0 {
    } else {
        lemma_lookup_none(entries.subrange(1, entries.len() as int), node);
    }
}

/// A lookup on `prefix.push(e)` answers from `prefix` first and falls back
/// to the appended entry.
pub proof fn lemma_lookup_push(prefix: Seq<ObservedEntry>, e: ObservedEntry, node: NodeId)
    ensures
        spec_lookup(prefix.push(e), node) == if spec_lookup(prefix, node) is Some {
            spec_lookup(prefix, node)
        } else if e.node == node {
            Some(e.loc)
        } else {
            None
        },
    decreases prefix.len(),
{
    let whole = prefix.push(e);
    if prefix.len() == 0 {
        assert(whole.len() == 1);
        if e.node != node {
            assert(spec_lookup(whole.subrange(1, 1), node) is None);
        }
    } else {
        let rest = prefix.subrange(1, prefix.len() as int);
        assert(whole.subrange(1, whole.len() as int) =~= rest.push(e));
        lemma_lookup_push(rest, e, node);
    }
}

impl ObservedState {
    /// At most one entry per node.
    pub open spec fn inv(self) -> bool {
        forall|i: int, j: int|
            0 <= i < j < self.locations@.len() ==> self.locations@[i].node
                != self.locations@[j].node
    }

    pub open spec fn spec_get(self, node: NodeId) -> Option<ObservedStateLocation> {
        spec_lookup(self.locations@, node)
    }

    pub fn new() -> (r: ObservedState)
        ensures
            r.locations@ =~= Seq::<ObservedEntry>::empty(),
            r.inv(),
    {
        ObservedState { locations: Vec::new() }
    }

    /// An exact copy, made entry by entry so that callers know the copy
    /// records the same locations as the original.
    pub fn duplicate(&self) -> (r: ObservedState)
        ensures
            r.locations@ == self.locations@,
    {
        let mut locations: Vec<ObservedEntry> = Vec::new();
        let mut i: usize = 0;
        while i < self.locations.len()
            invariant
                i <= self.locations.len(),
                locations@ =~= self.locations@.subrange(0, i as int),
            decreases self.locations.len() - i,
        {
            locations.push(self.locations[i]);
            i += 1;
        }
        proof {
            assert(locations@ =~= self.locations@);
        }
        ObservedState { locations }
    }

    /// The location recorded for `node`, if any.
    pub fn get(&self, node: NodeId) -> (r: Option<ObservedStateLocation>)
        ensures
            r == self.spec_get(node),
    {
        let n = self.locations.len();
        proof {
            assert(self.locations@.subrange(0, n as int) =~= self.locations@);
        }
        let mut i: usize = 0;
        while i < n
            invariant
                i <= n,
                n == self.locations@.len(),
                spec_lookup(self.locations@, node) == spec_lookup(
                    self.locations@.subrange(i as int, n as int),
                    node,
                ),
            decreases n - i,
        {
            let e = self.locations[i];
            if e.node == node {
                proof {
                    assert(self.locations@.subrange(i as int, n as int)[0] == e);
                }
                return Some(e.loc);
            }
            proof {
                let tail = self.locations@.subrange(i as int, n as int);
                assert(tail.subrange(1, tail.len() as int) =~= self.locations@.subrange(
                    i + 1,
                    n as int,
                ));
            }
            i += 1;
        }
        None
    }

    /// Record (or overwrite) the location for `node`.
    pub fn insert(&mut self, node: NodeId, loc: ObservedStateLocation)
        requires
            old(self).inv(),
        ensures
            final(self).inv(),
            forall|m: NodeId|
                #![trigger final(self).spec_get(m)]
                final(self).spec_get(m) == if m == node {
                    Some(loc)
                } else {
                    old(self).spec_get(m)
                },
    {
        let n = self.locations.len();
        let mut i: usize = 0;
        while i < n
            invariant
                i <= n,
                n == self.locations@.len(),
                old(self).inv(),
                self.locations@ == old(self).locations@,
                forall|k: int| 0 <= k < i ==> old(self).locations@[k].node != node,
            decreases n - i,
        {
            if self.locations[i].node == node {
                let ghost idx = i as int;
                self.locations.set(i, ObservedEntry { node, loc });
                proof {
                    assert(old(self).locations@[idx].node == node);
                    assert(forall|k: int|
                        0 <= k < self.locations@.len() ==> self.locations@[k].node == old(
                            self,
                        ).locations@[k].node);
                    assert forall|p: int, q: int|
                        0 <= p < q < self.locations@.len() implies self.locations@[p].node
                        != self.locations@[q].node by {
                        assert(old(self).locations@[p].node != old(self).locations@[q].node);
                    }
                    assert forall|m: NodeId|
                        #![trigger self.spec_get(m)]
                        self.spec_get(m) == if m == node {
                            Some(loc)
                        } else {
                            old(self).spec_get(m)
                        } by {
                        if m == node {
                            lemma_lookup_at(self.locations@, m, idx);
                        } else {
                            lemma_lookup_same_when_absent_at(
                                old(self).locations@,
                                self.locations@,
                                idx,
                                m,
                            );
                        }
                    }
                }
                return ;
            }
            i += 1;
        }
        self.locations.push(ObservedEntry { node, loc });
        proof {
            assert(self.locations@ =~= old(self).locations@.push(ObservedEntry { node, loc }));
            assert forall|p: int, q: int|
                0 <= p < q < self.locations@.len() implies self.locations@[p].node
                != self.locations@[q].node by {
                if q < old(self).locations@.len() {
                    assert(old(self).locations@[p].node != old(self).locations@[q].node);
                } else {
                    assert(old(self).locations@[p].node != node);
                }
            }
            assert forall|m: NodeId|
                #![trigger self.spec_get(m)]
                self.spec_get(m) == if m == node {
                    Some(loc)
                } else {
                    old(self).spec_get(m)
                } by {
                lemma_lookup_push(old(self).locations@, ObservedEntry { node, loc }, m);
                if m == node {
                    lemma_lookup_none(old(self).locations@, node);
                }
            }
        }
    }
}

/// Two entry sequences that agree everywhere except at one index agree on
/// every lookup that does not match that index's node in either sequence.
pub proof fn lemma_lookup_same_when_absent_at(
    a: Seq<ObservedEntry>,
    b: Seq<ObservedEntry>,
    idx: int,
    node: NodeId,
)
    requires
        a.len() == b.len(),
        0 <= idx < a.len(),
        forall|k: int| 0 <= k < a.len() && k != idx ==> a[k] == b[k],
        a[idx].node != node,
        b[idx].node != node,
    ensures
        spec_lookup(a, node) == spec_lookup(b, node),
    decreases a.len(),
{
    if a.len() == 0 {
    } else if idx == 0 {
        let ra = a.subrange(1, a.len() as int);
        let rb = b.subrange(1, b.len() as int);
        assert(ra =~= rb);
    } else {
        assert(a[0] == b[0]);
        let ra = a.subrange(1, a.len() as int);
        let rb = b.subrange(1, b.len() as int);
        if a[0].node != node {
            lemma_lookup_same_when_absent_at(ra, rb, idx - 1, node);
        }
    }
}

} // verus!
