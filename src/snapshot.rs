//! Routing snapshots: for each known subnet, the ordered list of nodes that
//! are registered and healthy, tagged with a generation number. A snapshot is
//! built whole and never changed afterwards.
use vstd::prelude::*;
use crate::health::{HealthRecord, HealthState};
use crate::node::Node;

verus! {

/// The eligible nodes of one subnet; an empty list means that the subnet is
/// known but has no eligible target.
#[derive(Clone, Debug)]
pub struct SubnetRoute {
    pub subnet: u64,
    pub nodes: Vec<Node>,
}

/// One published generation of the routing table.
#[derive(Clone, Debug)]
pub struct Snapshot {
    pub generation: u64,
    pub routes: Vec<SubnetRoute>,
}

/// Whether record `i` is an eligible node of `subnet`.
pub open spec fn eligible_at(
    nodes: Seq<Node>,
    health: Seq<HealthRecord>,
    subnet: u64,
    i: int,
) -> bool {
    nodes[i].subnet == subnet && health[i].state == HealthState::Healthy
}

/// The eligible nodes of `subnet` among the first `n` records, in registry
/// order.
pub open spec fn eligible_upto(
    nodes: Seq<Node>,
    health: Seq<HealthRecord>,
    subnet: u64,
    n: nat,
) -> Seq<Node>
    decreases n,
{
    if n == 0 {
        seq![]
    } else {
        let prev = eligible_upto(nodes, health, subnet, (n - 1) as nat);
        if eligible_at(nodes, health, subnet, n - 1) {
            prev.push(nodes[n - 1])
        } else {
            prev
        }
    }
}

/// The eligible nodes of `subnet`, in registry order.
pub open spec fn eligible(nodes: Seq<Node>, health: Seq<HealthRecord>, subnet: u64) -> Seq<Node> {
    eligible_upto(nodes, health, subnet, nodes.len())
}

/// `s` rotated left by `g` modulo its length, so that each generation starts
/// its list at another node.
pub open spec fn rotated(s: Seq<Node>, g: u64) -> Seq<Node> {
    if s.len() == 0 {
        s
    } else {
        let k = (g as int) % (s.len() as int);
        s.subrange(k, s.len() as int) + s.subrange(0, k)
    }
}

/// The node list that generation `g` publishes for `subnet`.
pub open spec fn route_nodes(
    nodes: Seq<Node>,
    health: Seq<HealthRecord>,
    subnet: u64,
    g: u64,
) -> Seq<Node> {
    rotated(eligible(nodes, health, subnet), g)
}

/// The subnets of the first `n` records, each once, in order of first
/// appearance.
pub open spec fn subnets_upto(nodes: Seq<Node>, n: nat) -> Seq<u64>
    decreases n,
{
    if n == 0 {
        seq![]
    } else {
        let prev = subnets_upto(nodes, (n - 1) as nat);
        if prev.contains(nodes[n - 1].subnet) {
            prev
        } else {
            prev.push(nodes[n - 1].subnet)
        }
    }
}

/// The subnets that registered nodes belong to, each once.
pub open spec fn known_subnets(nodes: Seq<Node>) -> Seq<u64> {
    subnets_upto(nodes, nodes.len())
}

/// Snapshot `s` is what generation `g` publishes for these records.
pub open spec fn is_snapshot_of(
    s: Snapshot,
    nodes: Seq<Node>,
    health: Seq<HealthRecord>,
    g: u64,
) -> bool {
    &&& s.generation == g
    &&& s.routes@.len() == known_subnets(nodes).len()
    &&& forall|k: int|
        0 <= k < s.routes@.len() ==> {
            &&& (#[trigger] s.routes@[k]).subnet == known_subnets(nodes)[k]
            &&& s.routes@[k].nodes@ == route_nodes(nodes, health, known_subnets(nodes)[k], g)
        }
}

/// A node listed as eligible is a record of `subnet` whose health is good.
pub proof fn lemma_eligible_sound(
    nodes: Seq<Node>,
    health: Seq<HealthRecord>,
    subnet: u64,
    n: nat,
    x: Node,
)
    requires
        n <= nodes.len(),
        eligible_upto(nodes, health, subnet, n).contains(x),
    ensures
        exists|i: int| 0 <= i < n && nodes[i] == x && eligible_at(nodes, health, subnet, i),
    decreases n,
{
    let prev = eligible_upto(nodes, health, subnet, (n - 1) as nat);
    if prev.contains(x) {
        lemma_eligible_sound(nodes, health, subnet, (n - 1) as nat, x);
    } else {
        assert(eligible_at(nodes, health, subnet, n - 1));
        let k = choose|k: int| 0 <= k < eligible_upto(nodes, health, subnet, n).len() && eligible_upto(nodes, health, subnet, n)[k] == x;
        assert(k == prev.len());
        assert(nodes[n - 1] == x);
    }
}

/// Every record of `subnet` whose health is good is listed as eligible.
pub proof fn lemma_eligible_complete(
    nodes: Seq<Node>,
    health: Seq<HealthRecord>,
    subnet: u64,
    n: nat,
    i: int,
)
    requires
        n <= nodes.len(),
        0 <= i < n,
        eligible_at(nodes, health, subnet, i),
    ensures
        eligible_upto(nodes, health, subnet, n).contains(nodes[i]),
    decreases n,
{
    let prev = eligible_upto(nodes, health, subnet, (n - 1) as nat);
    if i == n - 1 {
        assert(prev.push(nodes[i])[prev.len() as int] == nodes[i]);
    } else {
        lemma_eligible_complete(nodes, health, subnet, (n - 1) as nat, i);
        let k = choose|k: int| 0 <= k < prev.len() && prev[k] == nodes[i];
        if eligible_at(nodes, health, subnet, n - 1) {
            assert(prev.push(nodes[n - 1])[k] == nodes[i]);
        }
    }
}

/// Rotating a list keeps exactly its elements.
pub proof fn lemma_rotated_same_elements(s: Seq<Node>, g: u64, x: Node)
    ensures
        rotated(s, g).contains(x) <==> s.contains(x),
{
    if s.len() > 0 {
        let k = (g as int) % (s.len() as int);
        let r = rotated(s, g);
        assert(r.len() == s.len());
        if s.contains(x) {
            let i = choose|i: int| 0 <= i < s.len() && s[i] == x;
            if i >= k {
                assert(r[i - k] == x);
            } else {
                assert(r[s.len() - k + i] == x);
            }
        }
        if r.contains(x) {
            let i = choose|i: int| 0 <= i < r.len() && r[i] == x;
            if i < s.len() - k {
                assert(s[i + k] == x);
            } else {
                assert(s[i - (s.len() - k)] == x);
            }
        }
    }
}

/// The subnet of every record is among the known subnets.
pub proof fn lemma_subnet_known(nodes: Seq<Node>, n: nat, i: int)
    requires
        n <= nodes.len(),
        0 <= i < n,
    ensures
        subnets_upto(nodes, n).contains(nodes[i].subnet),
    decreases n,
{
    let prev = subnets_upto(nodes, (n - 1) as nat);
    if i == n - 1 {
        if !prev.contains(nodes[i].subnet) {
            assert(prev.push(nodes[i].subnet)[prev.len() as int] == nodes[i].subnet);
        }
    } else {
        lemma_subnet_known(nodes, (n - 1) as nat, i);
        if !prev.contains(nodes[n - 1].subnet) {
            let k = choose|k: int| 0 <= k < prev.len() && prev[k] == nodes[i].subnet;
            assert(prev.push(nodes[n - 1].subnet)[k] == nodes[i].subnet);
        }
    }
}

fn eligible_nodes(nodes: &[Node], health: &[HealthRecord], subnet: u64) -> (r: Vec<Node>)
    requires
        nodes@.len() == health@.len(),
    ensures
        r@ == eligible(nodes@, health@, subnet),
{
    let mut r: Vec<Node> = Vec::new();
    let mut i: usize = 0;
    while i < nodes.len()
        invariant
            nodes@.len() == health@.len(),
            i <= nodes@.len(),
            r@ == eligible_upto(nodes@, health@, subnet, i as nat),
        decreases nodes@.len() - i,
    {
        if nodes[i].subnet == subnet && health[i].is_healthy() {
            r.push(nodes[i]);
        }
        i += 1;
    }
    r
}

fn rotate(v: &Vec<Node>, g: u64) -> (r: Vec<Node>)
    ensures
        r@ == rotated(v@, g),
{
    let n = v.len();
    let mut r: Vec<Node> = Vec::new();
    if n == 0 {
        assert(r@ =~= v@);
        return r;
    }
    let k = (g % (n as u64)) as usize;
    let mut i: usize = k;
    while i < n
        invariant
            n == v@.len(),
            k <= i <= n,
            r@ =~= v@.subrange(k as int, i as int),
        decreases n - i,
    {
        r.push(v[i]);
        i += 1;
    }
    let mut j: usize = 0;
    while j < k
        invariant
            n == v@.len(),
            k < n,
            j <= k,
            r@ =~= v@.subrange(k as int, n as int) + v@.subrange(0, j as int),
        decreases k - j,
    {
        r.push(v[j]);
        j += 1;
    }
    r
}

fn contains_subnet(v: &Vec<u64>, s: u64) -> (r: bool)
    ensures
        r <==> v@.contains(s),
{
    let mut i: usize = 0;
    while i < v.len()
        invariant
            i <= v@.len(),
            forall|j: int| 0 <= j < i ==> v@[j] != s,
        decreases v@.len() - i,
    {
        if v[i] == s {
            return true;
        }
        i += 1;
    }
    false
}

fn subnets_of(nodes: &[Node]) -> (r: Vec<u64>)
    ensures
        r@ == known_subnets(nodes@),
{
    let mut r: Vec<u64> = Vec::new();
    let mut i: usize = 0;
    while i < nodes.len()
        invariant
            i <= nodes@.len(),
            r@ == subnets_upto(nodes@, i as nat),
        decreases nodes@.len() - i,
    {
        if !contains_subnet(&r, nodes[i].subnet) {
            r.push(nodes[i].subnet);
        }
        i += 1;
    }
    r
}

/// Builds generation `generation` of the routing table from the registered
/// nodes and their health records (`health[i]` belongs to `nodes[i]`).
pub fn build_snapshot(nodes: &[Node], health: &[HealthRecord], generation: u64) -> (r: Snapshot)
    requires
        nodes@.len() == health@.len(),
    ensures
        is_snapshot_of(r, nodes@, health@, generation),
{
    let subnets = subnets_of(nodes);
    let mut routes: Vec<SubnetRoute> = Vec::new();
    let mut k: usize = 0;
    while k < subnets.len()
        invariant
            nodes@.len() == health@.len(),
            subnets@ == known_subnets(nodes@),
            k <= subnets@.len(),
            routes@.len() == k,
            forall|m: int|
                0 <= m < k ==> {
                    &&& (#[trigger] routes@[m]).subnet == subnets@[m]
                    &&& routes@[m].nodes@ == route_nodes(nodes@, health@, subnets@[m], generation)
                },
        decreases subnets@.len() - k,
    {
        let s = subnets[k];
        let eligible = eligible_nodes(nodes, health, s);
        let ordered = rotate(&eligible, generation);
        routes.push(SubnetRoute { subnet: s, nodes: ordered });
        k += 1;
    }
    Snapshot { generation, routes }
}

fn copy_nodes(v: &Vec<Node>) -> (r: Vec<Node>)
    ensures
        r@ == v@,
{
    let mut r: Vec<Node> = Vec::new();
    let mut i: usize = 0;
    while i < v.len()
        invariant
            i <= v@.len(),
            r@ =~= v@.subrange(0, i as int),
        decreases v@.len() - i,
    {
        r.push(v[i]);
        i += 1;
    }
    assert(r@ =~= v@);
    r
}

impl Snapshot {
    /// The node list published for `subnet`, or `None` for a subnet that no
    /// registered node belongs to.
    pub fn nodes_for(&self, subnet: u64) -> (r: Option<Vec<Node>>)
        ensures
            r is None ==> forall|k: int| 0 <= k < self.routes@.len() ==> self.routes@[k].subnet != subnet,
            r is Some ==> exists|k: int|
                0 <= k < self.routes@.len() && self.routes@[k].subnet == subnet && (forall|j: int|
                    0 <= j < k ==> self.routes@[j].subnet != subnet) && r->Some_0@
                    == self.routes@[k].nodes@,
    {
        let mut k: usize = 0;
        while k < self.routes.len()
            invariant
                k <= self.routes@.len(),
                forall|j: int| 0 <= j < k ==> self.routes@[j].subnet != subnet,
            decreases self.routes@.len() - k,
        {
            if self.routes[k].subnet == subnet {
                return Some(copy_nodes(&self.routes[k].nodes));
            }
            k += 1;
        }
        None
    }
}

} // verus!
