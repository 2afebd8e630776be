use crate::types::NodeId;
use vstd::prelude::*;

verus! {

/// Whether a pageserver node is reachable.
#[derive(Clone, Copy, Debug, PartialEq, Eq, Structural)]
pub enum NodeAvailability {
    Active,
    Offline,
}

/// A pageserver node as the core sees it: its identity and availability.
/// Addresses and the rest of the registry's record stay outside the core.
#[derive(Clone, Copy, Debug)]
pub struct Node {
    pub id: NodeId,
    pub availability: NodeAvailability,
}

/// The availability recorded for `id`, if the registry knows the node: the
/// first entry whose id matches.
pub open spec fn spec_node_lookup(nodes: Seq<Node>, id: NodeId) -> Option<NodeAvailability>
    decreases nodes.len(),
{
    if nodes.len() == 0 {
        None
    } else if nodes[0].id == id {
        Some(nodes[0].availability)
    } else {
        spec_node_lookup(nodes.subrange(1, nodes.len() as int), id)
    }
}

/// The availability recorded for `id`, if any.
pub fn node_availability(nodes: &Vec<Node>, id: NodeId) -> (r: Option<NodeAvailability>)
    ensures
        r == spec_node_lookup(nodes@, id),
{
    let n = nodes.len();
    proof {
        assert(nodes@.subrange(0, n as int) =~= nodes@);
    }
    let mut i: usize = 0;
    while i < n
        invariant
            i <= n,
            n == nodes@.len(),
            spec_node_lookup(nodes@, id) == spec_node_lookup(
                nodes@.subrange(i as int, n as int),
                id,
            ),
        decreases n - i,
    {
        let e = nodes[i];
        proof {
            assert(nodes@.subrange(i as int, n as int)[0] == e);
        }
        if e.id == id {
            return Some(e.availability);
        }
        proof {
            let tail = nodes@.subrange(i as int, n as int);
            assert(tail.subrange(1, tail.len() as int) =~= nodes@.subrange(i + 1, n as int));
        }
        i += 1;
    }
    None
}

} // verus!
