//! Nodes as the registry declares them.
use vstd::prelude::*;
use crate::identity::Fingerprint;

verus! {

/// Opaque identifier of a node.
#[derive(Clone, Copy, Debug, PartialEq, Eq, Structural)]
pub struct NodeId {
    pub id: u64,
}

/// The node identifier with the given number.
pub fn nid(id: u64) -> (r: NodeId)
    ensures
        r.id == id,
{
    NodeId { id }
}

/// One registry record: immutable once observed; a registry update replaces
/// records wholesale.
#[derive(Clone, Copy, Debug, PartialEq, Eq, Structural)]
pub struct Node {
    pub id: NodeId,
    /// The subnet the node belongs to.
    pub subnet: u64,
    /// IPv6 address (IPv4 addresses in their mapped form).
    pub addr: u128,
    pub port: u16,
    /// The identity the node must present during connection setup.
    pub identity: Fingerprint,
}

/// No two records share an id.
pub open spec fn ids_unique(nodes: Seq<Node>) -> bool {
    forall|i: int, j: int|
        0 <= i < nodes.len() && 0 <= j < nodes.len() && i != j ==> #[trigger] nodes[i].id
            != #[trigger] nodes[j].id
}

/// The position of the first record with the given id, if any.
pub fn find_node(nodes: &[Node], id: NodeId) -> (r: Option<usize>)
    ensures
        r is Some ==> r->Some_0 < nodes@.len() && nodes@[r->Some_0 as int].id == id && forall|
            j: int,
        |
            0 <= j < r->Some_0 ==> nodes@[j].id != id,
        r is None ==> forall|j: int| 0 <= j < nodes@.len() ==> nodes@[j].id != id,
{
    let mut i: usize = 0;
    while i < nodes.len()
        invariant
            i <= nodes@.len(),
            forall|j: int| 0 <= j < i ==> nodes@[j].id != id,
        decreases nodes@.len() - i,
    {
        if nodes[i].id == id {
            return Some(i);
        }
        i += 1;
    }
    None
}

/// Whether the records' ids are pairwise distinct.
pub fn check_ids_unique(nodes: &[Node]) -> (r: bool)
    ensures
        r <==> ids_unique(nodes@),
{
    let mut i: usize = 0;
    while i < nodes.len()
        invariant
            i <= nodes@.len(),
            forall|a: int, b: int|
                0 <= a < i && 0 <= b < nodes@.len() && a != b ==> #[trigger] nodes@[a].id
                    != #[trigger] nodes@[b].id,
        decreases nodes@.len() - i,
    {
        let mut j: usize = 0;
        while j < nodes.len()
            invariant
                i < nodes@.len(),
                j <= nodes@.len(),
                forall|a: int, b: int|
                    0 <= a < i && 0 <= b < nodes@.len() && a != b ==> #[trigger] nodes@[a].id
                        != #[trigger] nodes@[b].id,
                forall|b: int| 0 <= b < j && b != i ==> nodes@[i as int].id != #[trigger] nodes@[b].id,
            decreases nodes@.len() - j,
        {
            if j != i && nodes[i].id == nodes[j].id {
                return false;
            }
            j += 1;
        }
        i += 1;
    }
    true
}

} // verus!
