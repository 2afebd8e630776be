use crate::types::NodeId;
use vstd::prelude::*;

verus! {

/// Desired placement of one shard: at most one attached node, and an
/// ordered list of secondary nodes.
#[derive(Debug)]
pub struct IntentState {
    pub attached: Option<NodeId>,
    pub secondary: Vec<NodeId>,
}

impl IntentState {
    /// Whether `n` occurs among the secondaries.
    pub open spec fn spec_has_secondary(self, n: NodeId) -> bool {
        exists|i: int| 0 <= i < self.secondary@.len() && self.secondary@[i] == n
    }

    /// Data-model invariant: the attached node never also appears as a
    /// secondary, and the secondaries are pairwise distinct.
    pub open spec fn inv(self) -> bool {
        &&& (self.attached matches Some(a) ==> !self.spec_has_secondary(a))
        &&& forall|i: int, j: int|
            0 <= i < j < self.secondary@.len() ==> self.secondary@[i] != self.secondary@[j]
    }

    /// All nodes playing a role for this shard: the attached node (if any)
    /// followed by the secondaries, in that order.
    pub open spec fn spec_all_pageservers(self) -> Seq<NodeId> {
        match self.attached {
            Some(a) => seq![a] + self.secondary@,
            None => self.secondary@,
        }
    }

    pub fn new() -> (r: IntentState)
        ensures
            r.attached is None,
            r.secondary@ =~= Seq::<NodeId>::empty(),
            r.inv(),
    {
        IntentState { attached: None, secondary: Vec::new() }
    }

    pub fn single(node_id: Option<NodeId>) -> (r: IntentState)
        ensures
            r.attached == node_id,
            r.secondary@ =~= Seq::<NodeId>::empty(),
            r.inv(),
    {
        IntentState { attached: node_id, secondary: Vec::new() }
    }

    /// An exact copy, made field by field so that callers know the copy
    /// carries the same placement as the original.
    pub fn duplicate(&self) -> (r: IntentState)
        ensures
            r.attached == self.attached,
            r.secondary@ == self.secondary@,
    {
        let mut secondary: Vec<NodeId> = Vec::new();
        let mut i: usize = 0;
        while i < self.secondary.len()
            invariant
                i <= self.secondary.len(),
                secondary@ =~= self.secondary@.subrange(0, i as int),
            decreases self.secondary.len() - i,
        {
            secondary.push(self.secondary[i]);
            i += 1;
        }
        proof {
            assert(secondary@ =~= self.secondary@);
        }
        IntentState { attached: self.attached, secondary }
    }

    pub fn all_pageservers(&self) -> (r: Vec<NodeId>)
        ensures
            r@ == self.spec_all_pageservers(),
    {
        let mut result: Vec<NodeId> = Vec::new();
        if let Some(p) = self.attached {
            result.push(p);
        }
        let mut i: usize = 0;
        while i < self.secondary.len()
            invariant
                i <= self.secondary.len(),
                result@ =~= match self.attached {
                    Some(a) => seq![a] + self.secondary@.subrange(0, i as int),
                    None => self.secondary@.subrange(0, i as int),
                },
            decreases self.secondary.len() - i,
        {
            result.push(self.secondary[i]);
            i += 1;
        }
        proof {
            assert(self.secondary@.subrange(0, self.secondary@.len() as int) =~= self.secondary@);
            assert(result@ =~= self.spec_all_pageservers());
        }
        result
    }

    /// When a node goes offline we stop wanting it as the attached
    /// pageserver: if `node_id` is attached, clear the attachment and
    /// downgrade the node to a secondary (keeping its cached state useful
    /// should it come back), and return `true`.  Otherwise leave the intent
    /// alone and return `false`.  The caller is responsible for bumping the
    /// shard's sequence when this returns `true`.
    pub fn notify_offline(&mut self, node_id: NodeId) -> (r: bool)
        requires
            old(self).inv(),
        ensures
            final(self).inv(),
            r == (old(self).attached == Some(node_id)),
            r ==> final(self).attached is None && final(self).secondary@
                == old(self).secondary@.push(node_id),
            !r ==> *final(self) == *old(self),
    {
        if self.attached == Some(node_id) {
            self.attached = None;
            self.secondary.push(node_id);
            true
        } else {
            false
        }
    }
}

} // verus!
